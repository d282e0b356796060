use scrapdog::text::{decimal_string, join, starts_with, str_equal};
use scrapdog::paths::{buckets_path_in, db_path_in, make_db_path, DataDirs, ProjectDirs};
use scrapdog::storage::buckets::BucketsFolder;
use scrapdog::storage::next_node_id_after;

#[test]
fn decimal_of_zero_and_signs() {
    assert_eq!(decimal_string(0), "0");
    assert_eq!(decimal_string(7), "7");
    assert_eq!(decimal_string(1234567), "1234567");
    assert_eq!(decimal_string(-42), "-42");
    assert_eq!(decimal_string(i32::MAX), "2147483647");
    assert_eq!(decimal_string(i32::MIN), "-2147483648");
}

#[test]
fn prefix_and_equality() {
    assert!(starts_with("moz-icon://x", "moz-icon://"));
    assert!(starts_with("abc", ""));
    assert!(!starts_with("ab", "abc"));
    assert!(!starts_with("xbc", "abc"));
    assert!(str_equal("héllo", "héllo"));
    assert!(!str_equal("a", "b"));
}

#[test]
fn joining_paths() {
    assert_eq!(join("/data", "5"), "/data/5");
    assert_eq!(join("/data/", "5"), "/data/5");
    assert_eq!(join("", "fs.db"), "fs.db");
    assert_eq!(join("/data", "/etc/x"), "/etc/x");
    assert_eq!(db_path_in("/home/u/.local/share/scrapdog"), "/home/u/.local/share/scrapdog/fs.db");
    assert_eq!(buckets_path_in("/srv"), "/srv/data");
}

#[test]
fn bucket_paths() {
    let folder = BucketsFolder::from_path("/srv/data".to_string());
    assert_eq!(folder.get_path(), "/srv/data");
    assert_eq!(folder.make_bucket_path(12), "/srv/data/12");
    assert_eq!(folder.make_bucket_path(-3), "/srv/data/-3");
}

#[test]
fn next_node_numbers() {
    assert_eq!(next_node_id_after(None), 1);
    assert_eq!(next_node_id_after(Some(41)), 42);
}

#[test]
fn database_in_the_data_directory() {
    let dirs = DataDirs::new("/home/u/.local/share/scrapdog".to_string());
    assert_eq!(make_db_path(&dirs), "/home/u/.local/share/scrapdog/fs.db");
    let dirs = DataDirs::new("/srv/".to_string());
    assert_eq!(make_db_path(&dirs), "/srv/fs.db");
    assert_eq!(dirs.data_dir(), "/srv/");
}
