//! Byte-string utilities and the layered configuration.

use taigachat_core::config::{read_key_value, save_install_info, Config};
use taigachat_core::text::{
    bytes_eq, contains_byte, ends_with, parse_u64, split, starts_with, trim, u64_to_dec,
};

#[test]
fn bytes_eq_compares_contents() {
    assert!(bytes_eq(b"abc", b"abc"));
    assert!(!bytes_eq(b"abc", b"abd"));
    assert!(!bytes_eq(b"abc", b"ab"));
    assert!(bytes_eq(b"", b""));
}

#[test]
fn affix_tests() {
    assert!(starts_with(b"launcher0/x", b"launcher0"));
    assert!(!starts_with(b"launch", b"launcher0"));
    assert!(ends_with(b"app-1.0.0.tar.gz", b".tar.gz"));
    assert!(!ends_with(b"app-1.0.0.tar", b".tar.gz"));
    assert!(contains_byte(b"a:b", b':'));
    assert!(!contains_byte(b"ab", b':'));
}

#[test]
fn split_keeps_every_part() {
    let parts = split(b"/launcher0/CODE/getVersions0", b'/');
    let views: Vec<&[u8]> = parts.iter().map(|p| p.as_slice()).collect();
    assert_eq!(views, vec![b"" as &[u8], b"launcher0", b"CODE", b"getVersions0"]);
    let one = split(b"plain", b'/');
    assert_eq!(one.len(), 1);
    assert_eq!(one[0].as_slice(), b"plain");
    let trailing = split(b"a,", b',');
    assert_eq!(trailing.len(), 2);
    assert_eq!(trailing[1].as_slice(), b"");
}

#[test]
fn decimal_parses_and_formats() {
    assert_eq!(parse_u64(b"0"), Some(0));
    assert_eq!(parse_u64(b"8080"), Some(8080));
    assert_eq!(parse_u64(b"18446744073709551615"), Some(u64::MAX));
    assert_eq!(parse_u64(b"18446744073709551616"), None);
    assert_eq!(parse_u64(b""), None);
    assert_eq!(parse_u64(b"12x"), None);
    assert_eq!(u64_to_dec(0).as_slice(), b"0");
    assert_eq!(u64_to_dec(907).as_slice(), b"907");
    assert_eq!(u64_to_dec(u64::MAX).as_slice(), b"18446744073709551615");
}

#[test]
fn trim_removes_blank_edges() {
    assert_eq!(trim(b"  a b \r").as_slice(), b"a b");
    assert_eq!(trim(b"ab").as_slice(), b"ab");
    assert_eq!(trim(b" \t ").as_slice(), b"");
}

#[test]
fn env_file_parsing() {
    let text = b"# comment\n KEY = value \nplain line\nA=b=c\n";
    let pairs = read_key_value(text);
    assert_eq!(pairs.len(), 2);
    assert_eq!(pairs[0].0.as_slice(), b"KEY");
    assert_eq!(pairs[0].1.as_slice(), b"value");
    assert_eq!(pairs[1].0.as_slice(), b"A");
    assert_eq!(pairs[1].1.as_slice(), b"b=c");
}

#[test]
fn install_info_round_trips_through_the_parser() {
    let content = save_install_info(b"20240102", b"app-1.0.0.tar.gz");
    assert_eq!(
        content.as_slice(),
        b"TAIGACHAT_LATEST_LAUNCHER_BUILDDATE=20240102\nTAIGACHAT_NEWEST_VERSION=app-1.0.0.tar.gz\n"
            as &[u8]
    );
    let pairs = read_key_value(content.as_slice());
    assert_eq!(pairs.len(), 2);
    assert_eq!(pairs[0].0.as_slice(), b"TAIGACHAT_LATEST_LAUNCHER_BUILDDATE");
    assert_eq!(pairs[0].1.as_slice(), b"20240102");
    assert_eq!(pairs[1].0.as_slice(), b"TAIGACHAT_NEWEST_VERSION");
    assert_eq!(pairs[1].1.as_slice(), b"app-1.0.0.tar.gz");
}

fn pair(k: &[u8], v: &[u8]) -> (Vec<u8>, Vec<u8>) {
    (k.to_vec(), v.to_vec())
}

#[test]
fn config_defaults_and_overrides() {
    let c = Config::from_pairs(&vec![]).unwrap();
    assert_eq!(c.npm.as_slice(), b"pnpm");
    assert_eq!(c.max_keybinds, 8);
    assert!(!c.launch_build_tool);
    assert_eq!(c.newest_version.as_slice(), b"");

    let pairs = vec![
        pair(b"TAIGACHAT_CLIENT_LAUNCH_BUILD_TOOL", b"1"),
        pair(b"TAIGACHAT_CLIENT_MAX_KEYBINDS", b"12"),
        pair(b"TAIGACHAT_CLIENT_NEWEST_VERSION", b"app-2.tar.gz"),
        pair(b"TAIGACHAT_CLIENT_EXTRA_FLAGS", b"--a,--b"),
        pair(b"TAIGACHAT_CLIENT_USE_WAYLAND", b"0"),
        pair(b"TAIGACHAT_CLIENT_NEWEST_VERSION", b"app-3.tar.gz"),
        pair(b"UNRELATED", b"x"),
    ];
    let c = Config::from_pairs(&pairs).unwrap();
    assert!(c.launch_build_tool);
    assert_eq!(c.max_keybinds, 12);
    assert_eq!(c.newest_version.as_slice(), b"app-3.tar.gz");
    assert_eq!(c.extra_flags.len(), 2);
    assert_eq!(c.extra_flags[0].as_slice(), b"--a");
    assert_eq!(c.extra_flags[1].as_slice(), b"--b");
    assert!(!c.use_wayland);
}

#[test]
fn config_rejects_bad_number() {
    let pairs = vec![pair(b"TAIGACHAT_CLIENT_MAX_KEYBINDS", b"many")];
    assert!(Config::from_pairs(&pairs).is_err());
}

#[test]
fn config_boolean_values_accept_only_one() {
    let c = Config::from_pairs(&vec![pair(b"TAIGACHAT_CLIENT_SKIP_LAUNCH", b"yes")]).unwrap();
    assert!(!c.skip_launch);
    let c = Config::from_pairs(&vec![pair(b"TAIGACHAT_CLIENT_SKIP_LAUNCH", b"1")]).unwrap();
    assert!(c.skip_launch);
}

#[test]
fn repeated_prefixes_strip_away() {
    let pairs = vec![pair(b"TAIGACHAT_CLIENT_TAIGACHAT_CLIENT_NPM", b"npm")];
    let c = Config::from_pairs(&pairs).unwrap();
    assert_eq!(c.npm.as_slice(), b"npm");
}
