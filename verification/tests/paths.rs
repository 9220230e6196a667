use std::path::{Path, PathBuf};

use clipdmenu::paths::{has_cache_dir, has_socket_path, join_path, new_index_path};
use clipdmenu::{
    cache_dir, entries_dir, entry_path, index_path, last_image_data_path, last_image_meta_path,
    socket_path, Environment,
};

fn env() -> Environment {
    Environment { cache_dir: None, xdg_cache_home: None, home: None, runtime_dir: None }
}

fn text(path: Vec<u8>) -> String {
    String::from_utf8(path).unwrap()
}

#[test]
fn cache_dir_that_is_set_outright_wins() {
    let mut e = env();
    e.cache_dir = Some("/tmp/c".to_string());
    e.xdg_cache_home = Some(b"/x".to_vec());
    e.home = Some(b"/h".to_vec());
    assert_eq!(text(cache_dir(&e)), "/tmp/c");
}

#[test]
fn cache_dir_follows_xdg_and_then_home() {
    let mut e = env();
    e.home = Some(b"/home/u".to_vec());
    assert_eq!(text(cache_dir(&e)), "/home/u/.cache/clipdmenu");
    e.xdg_cache_home = Some(b"/x/cache/".to_vec());
    assert_eq!(text(cache_dir(&e)), "/x/cache/clipdmenu");
    e.xdg_cache_home = Some(vec![b'/', 0xff]);
    assert_eq!(cache_dir(&e), b"/\xff/clipdmenu".to_vec());
}

#[test]
fn cache_files_are_in_the_cache_directory() {
    let mut e = env();
    e.cache_dir = Some("/c".to_string());
    assert_eq!(text(entries_dir(&e)), "/c/entries");
    assert_eq!(text(entry_path(&e, "ab12")), "/c/entries/ab12");
    assert_eq!(text(index_path(&e)), "/c/index.tsv");
    assert_eq!(text(new_index_path(&e)), "/c/index.tsv.tmp");
    assert_eq!(text(last_image_data_path(&e)), "/c/last_image.bin");
    assert_eq!(text(last_image_meta_path(&e)), "/c/last_image.meta");
}

#[test]
fn socket_is_in_the_runtime_directory_or_the_cache() {
    let mut e = env();
    e.home = Some(b"/h".to_vec());
    assert_eq!(text(socket_path(&e)), "/h/.cache/clipdmenu/clipdmenu.sock");
    e.runtime_dir = Some("/run/user/1000".to_string());
    assert_eq!(text(socket_path(&e)), "/run/user/1000/clipdmenu.sock");
}

#[test]
fn environment_says_whether_it_says_enough() {
    let mut e = env();
    assert!(!has_cache_dir(&e));
    assert!(!has_socket_path(&e));
    e.runtime_dir = Some("/r".to_string());
    assert!(!has_cache_dir(&e));
    assert!(has_socket_path(&e));
    e.home = Some(b"/h".to_vec());
    assert!(has_cache_dir(&e));
}

#[test]
fn paths_are_joined_as_the_standard_library_joins_them() {
    let parts = ["", "/", "a", "a/", "/a", "/a/b", "a/b/", ".", "..", "//", "x y"];
    for base in parts {
        for rel in parts {
            let want: PathBuf = Path::new(base).join(rel);
            let got = text(join_path(base.as_bytes(), rel.as_bytes()));
            assert_eq!(got, want.to_str().unwrap(), "{:?} {:?}", base, rel);
        }
    }
}
