//! The folder that holds one data folder ("bucket") per stored node.
use vstd::prelude::*;
use crate::text::{join, join_path, decimal, decimal_string};

verus! {

/// The folder of all buckets.
pub struct BucketsFolder {
    path: String,
}

impl BucketsFolder {
    /// The path of the folder.
    pub closed spec fn path(&self) -> Seq<char> {
        self.path@
    }

    /// The buckets folder at `path`.
    pub fn from_path(path: String) -> (r: Self)
        ensures
            r.path() == path@,
    {
        BucketsFolder { path }
    }

    /// The path of the folder.
    pub fn get_path(&self) -> (r: &str)
        ensures
            r@ == self.path(),
    {
        self.path.as_str()
    }

    /// The path of bucket `bucket_id`: the folder named by the bucket's
    /// number inside the buckets folder.
    pub fn make_bucket_path(&self, bucket_id: i32) -> (r: String)
        ensures
            r@ == join_path(self.path(), decimal(bucket_id as int)),
    {
        let name = decimal_string(bucket_id);
        join(self.path.as_str(), name.as_str())
    }
}

} // verus!
