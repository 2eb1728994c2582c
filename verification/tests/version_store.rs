//! Version-store layout and lifecycle decisions, the kill order, and the
//! platform shims.

use taigachat_core::platform::{
    ascii_lowercase, client_in_focus, get_npm, get_yarn, platform_app_dir_name, simple_popup,
};
use taigachat_core::process::{kill_order, owns_window};
use taigachat_core::versions::{
    delete_allowed, delete_targets, get_specific_version_location, get_versions_dir,
    is_safe_filename, render_versions, set_proper_executable_extension, unpack_destination,
    version_stem,
};

#[test]
fn executable_path_of_a_bundle() {
    let p = get_specific_version_location(b"/data", b"app-1.0.0.tar.gz", false).unwrap();
    assert_eq!(p.as_slice(), b"/data/versions/app-1.0.0/app-1.0.0/app");
    let p = get_specific_version_location(b"/data", b"app-1.0.0.tar.gz", true).unwrap();
    assert_eq!(p.as_slice(), b"/data/versions/app-1.0.0/app-1.0.0/app.exe");
}

#[test]
fn empty_version_name_gives_an_empty_path() {
    let p = get_specific_version_location(b"/data", b"", false).unwrap();
    assert!(p.is_empty());
}

#[test]
fn non_bundle_names_are_fatal() {
    assert!(get_specific_version_location(b"/data", b"app.zip", false).is_err());
    assert!(get_specific_version_location(b"/data", b"app-1.0.0", true).is_err());
}

#[test]
fn stems_strip_every_archive_suffix() {
    assert_eq!(version_stem(b"app-1.0.0.tar.gz").as_slice(), b"app-1.0.0");
    assert_eq!(version_stem(b"app-1.0.0.tar.gz.tar.gz").as_slice(), b"app-1.0.0");
    assert_eq!(version_stem(b"app-1.0.0").as_slice(), b"app-1.0.0");
}

#[test]
fn exe_extension_replaces_or_appends() {
    let p = set_proper_executable_extension(b"/v/app.v2".to_vec(), true);
    assert_eq!(p.as_slice(), b"/v/app.exe");
    let p = set_proper_executable_extension(b"/v/app".to_vec(), true);
    assert_eq!(p.as_slice(), b"/v/app.exe");
    let p = set_proper_executable_extension(b"/v.dir/app".to_vec(), true);
    assert_eq!(p.as_slice(), b"/v.dir/app.exe");
    let p = set_proper_executable_extension(b"/v/.hidden".to_vec(), true);
    assert_eq!(p.as_slice(), b"/v/.hidden.exe");
    let p = set_proper_executable_extension(b"/v/app.v2".to_vec(), false);
    assert_eq!(p.as_slice(), b"/v/app.v2");
}

#[test]
fn versions_dir_and_unpack_destination() {
    assert_eq!(get_versions_dir(b"/data").as_slice(), b"/data/versions");
    assert_eq!(
        unpack_destination(b"/data", b"x.tar.gz").as_slice(),
        b"/data/versions/x" as &[u8]
    );
    assert_eq!(
        unpack_destination(b"/data", b"app-1.0.0.tar.gz").as_slice(),
        b"/data/versions/app-1.0.0" as &[u8]
    );
}

#[test]
fn download_filenames_must_stay_inside() {
    assert!(is_safe_filename(b"x.tar.gz"));
    assert!(!is_safe_filename(b"a/b.tar.gz"));
    assert!(!is_safe_filename(b"a\\b.tar.gz"));
    assert!(!is_safe_filename(b"c:b.tar.gz"));
}

#[test]
fn delete_spares_the_active_version() {
    assert!(!delete_allowed(b"app-1.tar.gz", b"app-1.tar.gz"));
    assert!(!delete_allowed(b"app-1", b"app-1.tar.gz"));
    assert!(!delete_allowed(b"app-1.tar.gz", b"app-1"));
    assert!(delete_allowed(b"app-2.tar.gz", b"app-1.tar.gz"));
}

#[test]
fn delete_removes_archive_and_stem_directory() {
    let entries: Vec<Vec<u8>> = vec![
        b"app-1.tar.gz".to_vec(),
        b"app-1".to_vec(),
        b"app-2.tar.gz".to_vec(),
        b"app-2".to_vec(),
    ];
    let targets = delete_targets(&entries, b"app-1.tar.gz");
    let views: Vec<&[u8]> = targets.iter().map(|t| t.as_slice()).collect();
    assert_eq!(views, vec![b"app-1.tar.gz" as &[u8], b"app-1"]);
}

#[test]
fn version_listing_format() {
    let entries: Vec<Vec<u8>> = vec![b"a.tar.gz".to_vec(), b"b.tar.gz".to_vec()];
    assert_eq!(render_versions(&entries).as_slice(), b"versions a.tar.gz b.tar.gz");
    let none: Vec<Vec<u8>> = vec![];
    assert_eq!(render_versions(&none).as_slice(), b"versions");
}

#[test]
fn kill_order_is_bottom_up() {
    let tree: Vec<(u32, Vec<u32>)> = vec![
        (1, vec![2, 3]),
        (2, vec![4]),
        (3, vec![]),
    ];
    let order = kill_order(&tree, 1, 16);
    assert_eq!(order, vec![4, 2, 3, 1]);
    let lone = kill_order(&tree, 9, 16);
    assert_eq!(lone, vec![9]);
}

#[test]
fn kill_order_budget_stops_cycles() {
    let tree: Vec<(u32, Vec<u32>)> = vec![(1, vec![2]), (2, vec![1])];
    let order = kill_order(&tree, 1, 3);
    assert_eq!(order.last(), Some(&1));
}

#[test]
fn platform_names() {
    assert_eq!(get_yarn(true), "yarn.cmd");
    assert_eq!(get_yarn(false), "yarn");
    assert_eq!(get_npm(true), "npm.cmd");
    assert_eq!(get_npm(false), "npm");
    assert_eq!(ascii_lowercase(b"TaigaChat").as_slice(), b"taigachat");
    assert_eq!(platform_app_dir_name(b"TaigaChatLauncher", true).as_slice(), b"TaigaChatLauncher");
    assert_eq!(
        platform_app_dir_name(b"TaigaChatLauncher", false).as_slice(),
        b"taigachatlauncher"
    );
    assert!(!client_in_focus(1234));
    simple_popup("title", "caption");
}

#[test]
fn window_ownership_walks_ancestors() {
    let parents: Vec<(u32, u32)> = vec![(40, 30), (30, 20), (20, 10)];
    assert!(owns_window(&parents, 40, 40, 8));
    assert!(owns_window(&parents, 40, 10, 8));
    assert!(owns_window(&parents, 30, 10, 8));
    assert!(!owns_window(&parents, 40, 99, 8));
    assert!(!owns_window(&parents, 40, 10, 1));
}
