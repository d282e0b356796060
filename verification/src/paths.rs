//! Where the library keeps its files.
use vstd::prelude::*;
use crate::text::{join, join_path};

verus! {

/// The file name of the database.
pub const DB_FILE_NAME: &'static str = "fs.db";
/// The name of the folder of buckets.
pub const BUCKETS_FOLDER_NAME: &'static str = "data";

/// The directories of the application on this system.
pub trait ProjectDirs {
    /// The path of the directory of the application's data.
    spec fn data_dir_view(&self) -> Seq<char>;

    /// The directory of the application's data.
    fn data_dir(&self) -> (r: &str)
        ensures
            r@ == self.data_dir_view();
}

/// Application directories given by their paths.
pub struct DataDirs {
    /// The path of the directory of the application's data.
    pub data_dir: String,
}

impl DataDirs {
    /// The directories whose data directory is at `data_dir`.
    pub fn new(data_dir: String) -> (r: Self)
        ensures
            r.data_dir_view() == data_dir@,
    {
        DataDirs { data_dir }
    }
}

impl ProjectDirs for DataDirs {
    open spec fn data_dir_view(&self) -> Seq<char> {
        self.data_dir@
    }

    fn data_dir(&self) -> (r: &str) {
        self.data_dir.as_str()
    }
}

/// The path of the database inside the data directory `data_dir`.
pub fn db_path_in(data_dir: &str) -> (r: String)
    ensures
        r@ == join_path(data_dir@, DB_FILE_NAME@),
{
    join(data_dir, DB_FILE_NAME)
}

/// The path of the buckets folder inside the data directory `data_dir`.
pub fn buckets_path_in(data_dir: &str) -> (r: String)
    ensures
        r@ == join_path(data_dir@, BUCKETS_FOLDER_NAME@),
{
    join(data_dir, BUCKETS_FOLDER_NAME)
}

/// The path of the database in the application's data directory.
pub fn make_db_path<D: ProjectDirs>(dirs: &D) -> (r: String)
    ensures
        r@ == join_path(dirs.data_dir_view(), DB_FILE_NAME@),
{
    let dir = dirs.data_dir();
    db_path_in(dir)
}

} // verus!
