use uhyvelib::filemap::{split_guest_and_host_path, UhyveFileMap};

fn bytes(s: &str) -> Vec<u8> {
    s.as_bytes().to_vec()
}

#[test]
fn test_split_guest_and_host_path() {
    let host_guest_strings = vec![
        "./host_string.txt:guest_string.txt",
        "/home/user/host_string.txt:guest_string.md.txt",
        ":guest_string.conf",
        ":",
        "exists.txt:also_exists.txt:should_not_exist.txt",
    ];

    // Mind the inverted order.
    let results = vec![
        (bytes("guest_string.txt"), bytes("./host_string.txt")),
        (bytes("guest_string.md.txt"), bytes("/home/user/host_string.txt")),
        (bytes("guest_string.conf"), bytes("")),
        (bytes(""), bytes("")),
        (bytes("also_exists.txt"), bytes("exists.txt")),
    ];

    for (i, host_and_guest_string) in host_guest_strings
        .into_iter()
        .map(split_guest_and_host_path)
        .enumerate()
    {
        assert_eq!(host_and_guest_string, Some(results[i].clone()));
    }
}

#[test]
fn split_without_colon() {
    assert_eq!(split_guest_and_host_path("no_colon_here"), None);
}

const PREFIX: &str = "/fixtures/fs";

#[test]
fn test_uhyvefilemap() {
    let path_prefix = PREFIX.to_owned();
    let map_results = [
        path_prefix.clone() + "/README.md",
        path_prefix.clone() + "/this_folder_exists",
        path_prefix.clone() + "/this_symlink_exists",
        path_prefix.clone() + "/this_symlink_is_dangling",
        path_prefix.clone() + "/this_file_does_not_exist",
        path_prefix.clone() + "/this_folder_exists/file_in_folder.txt",
    ];

    // Each parameter has the format of host_path:guest_path
    let map_parameters = Some(vec![
        map_results[0].clone() + ":readme_file.md",
        map_results[1].clone() + ":guest_folder",
        map_results[2].clone() + ":guest_symlink",
        map_results[3].clone() + ":guest_dangling_symlink",
        map_results[4].clone() + ":guest_file",
        path_prefix.clone() + "/this_symlink_leads_to_a_file" + ":guest_file_symlink",
    ]);
    // What the host's canonicalisation gives for each host path: dangling
    // and missing paths do not canonicalise, the file symlink resolves.
    let canonical = vec![
        Some(bytes(&map_results[0])),
        Some(bytes(&map_results[1])),
        Some(bytes(&map_results[2])),
        None,
        None,
        Some(bytes(&map_results[5])),
    ];

    let mut map = UhyveFileMap::new(&map_parameters, &canonical, b"/tmp/vm");

    assert_eq!(map.get_host_path("readme_file.md").unwrap(), bytes(&map_results[0]));
    assert_eq!(map.get_host_path("guest_folder").unwrap(), bytes(&map_results[1]));
    assert_eq!(map.get_host_path("guest_symlink").unwrap(), bytes(&map_results[2]));
    assert_eq!(
        map.get_host_path("guest_dangling_symlink").unwrap(),
        bytes(&map_results[3])
    );
    assert_eq!(map.get_host_path("guest_file").unwrap(), bytes(&map_results[4]));
    assert_eq!(
        map.get_host_path("guest_file_symlink").unwrap(),
        bytes(&map_results[5])
    );

    assert!(map.get_host_path("this_file_is_not_mapped").is_none());
}

#[test]
fn test_uhyvefilemap_folder() {
    // Tests successful directory traversal starting from file in child
    // directory of a mapped directory.
    let guest_path_map = "this_folder_exists";
    let host_path_map = format!("{PREFIX}/this_folder_exists");

    let target_guest_path = "this_folder_exists/folder_in_folder/file_in_second_folder.txt";
    let target_host_path = format!("{PREFIX}/{target_guest_path}");

    let uhyvefilemap_params = vec![format!("{}:{}", host_path_map, guest_path_map)];
    let mut map = UhyveFileMap::new(&Some(uhyvefilemap_params), &vec![None], b"/tmp/vm");

    let found_host_path = map.get_host_path(target_guest_path);
    assert_eq!(found_host_path.unwrap(), bytes(&target_host_path));

    // Tests successful directory traversal of the child directory.
    let found_host_path = map.get_host_path("this_folder_exists/folder_in_folder");
    assert_eq!(
        found_host_path.unwrap(),
        bytes(&format!("{PREFIX}/this_folder_exists/folder_in_folder"))
    );

    // Tests directory traversal with no maps
    let mut map = UhyveFileMap::new(&None, &Vec::new(), b"/tmp/vm");
    let found_host_path = map.get_host_path("this_folder_exists/folder_in_folder");
    assert!(found_host_path.is_none());
}

#[test]
fn traversal_caches_subpaths() {
    let mut map = UhyveFileMap::new(&Some(vec!["/host/dir:g".to_string()]), &Vec::new(), b"/t");
    assert_eq!(map.get_host_path("g/sub/file.txt"), Some(bytes("/host/dir/sub/file.txt")));
    assert_eq!(map.get_host_path("g/sub"), Some(bytes("/host/dir/sub")));
    // a second lookup gives the same
    assert_eq!(map.get_host_path("g/sub/file.txt"), Some(bytes("/host/dir/sub/file.txt")));
    // repeated and trailing separators
    assert_eq!(map.get_host_path("g//a///b/"), Some(bytes("/host/dir/a/b")));
    // the nearest mapped ancestor wins
    let mut map = UhyveFileMap::new(
        &Some(vec!["/host/dir:g".to_string(), "/other:g/sub".to_string()]),
        &Vec::new(),
        b"/t",
    );
    assert_eq!(map.get_host_path("g/sub/x"), Some(bytes("/other/x")));
    assert_eq!(map.get_host_path("h/sub/x"), None);
    assert_eq!(map.get_host_path("gx/y"), None);
}

#[test]
fn later_parameters_replace_earlier_ones() {
    let params = Some(vec!["/a:g".to_string(), "/b:g".to_string()]);
    let mut map = UhyveFileMap::new(&params, &vec![Some(bytes("/ca")), None], b"/t");
    assert_eq!(map.get_host_path("g"), Some(bytes("/b")));
}

#[test]
fn canonical_host_paths_are_used() {
    let params = Some(vec!["./rel/file:guest".to_string()]);
    let mut map = UhyveFileMap::new(&params, &vec![Some(bytes("/abs/rel/file"))], b"/t");
    assert_eq!(map.get_host_path("guest"), Some(bytes("/abs/rel/file")));
}

#[test]
fn temporary_files_go_to_the_temporary_directory() {
    let mut map = UhyveFileMap::new(&None, &Vec::new(), b"/tmp/abc-uhyve");
    let host = map.create_temporary_file(b"foo.txt");
    assert_eq!(host, bytes("/tmp/abc-uhyve/foo.txt"));
    assert_eq!(map.get_host_path("foo.txt"), Some(bytes("/tmp/abc-uhyve/foo.txt")));
    let host = map.create_temporary_file(b"dir/bar.txt");
    assert_eq!(host, bytes("/tmp/abc-uhyve/bar.txt"));
    assert_eq!(map.get_host_path("dir/bar.txt"), Some(bytes("/tmp/abc-uhyve/bar.txt")));
}

#[test]
fn appended_files_are_mapped() {
    let mut map = UhyveFileMap::new(&None, &Vec::new(), b"/t");
    let r = map.append_file_and_return_cstring("guest.txt", bytes("/host/file"));
    assert_eq!(r, bytes("/host/file"));
    assert_eq!(map.get_host_path("guest.txt"), Some(bytes("/host/file")));
}

#[test]
fn file_descriptor_set() {
    let mut map = UhyveFileMap::new(&None, &Vec::new(), b"/t");
    for fd in [-1, 0, 1, 2] {
        map.insert_fd(fd);
        assert!(!map.is_fd_present(fd));
    }
    map.insert_fd(5);
    map.insert_fd(7);
    map.insert_fd(5);
    assert!(map.is_fd_present(5));
    assert!(map.is_fd_present(7));
    map.remove_fd(5);
    assert!(!map.is_fd_present(5));
    assert!(map.is_fd_present(7));
}

#[test]
fn temporary_files_are_fresh() {
    let mut map = UhyveFileMap::new(&None, &Vec::new(), b"/t");
    let first = map.create_temporary_file(b"a/x");
    assert_eq!(first, bytes("/t/x"));
    let second = map.create_temporary_file(b"b/x");
    assert_ne!(second, first);
    assert_eq!(second, bytes("/t/x~"));
    let third = map.create_temporary_file(b"c/x");
    assert_eq!(third, bytes("/t/x~~"));
    assert_eq!(map.get_host_path("a/x"), Some(first));
    assert_eq!(map.get_host_path("b/x"), Some(second));
    // longer than every mapped host path
    let mut map = UhyveFileMap::new(&Some(vec!["/t/yy/long/path:p".to_string(), "/t/y:q".to_string()]), &Vec::new(), b"/t");
    assert_eq!(map.create_temporary_file(b"y"), bytes("/t/y~~~~~~~~~~~~"));
}

#[test]
fn paths_ending_in_a_separator_are_cached() {
    let mut map = UhyveFileMap::new(&Some(vec!["/host/dir:g".to_string()]), &Vec::new(), b"/t");
    assert_eq!(map.get_host_path("g/sub/"), Some(bytes("/host/dir/sub")));
    assert_eq!(map.get_host_path("g/sub/"), Some(bytes("/host/dir/sub")));
    assert_eq!(map.get_host_path("g/"), Some(bytes("/host/dir")));
}
