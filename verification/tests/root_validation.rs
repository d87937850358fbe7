use repotree::format_dir;
use repotree::format_repo;
use repotree::parse_dir;
use repotree::RootError;

#[test]
fn parse_dir_accepts_directory() {
    let r = parse_dir("some/dir", Some(true));
    assert_eq!(r, Ok(String::from("some/dir")));
}

#[test]
fn parse_dir_rejects_non_directory() {
    let r = parse_dir("some/file.txt", Some(false));
    assert_eq!(r, Err(RootError::NotADirectory));
}

#[test]
fn parse_dir_rejects_unreadable_path() {
    let r = parse_dir("missing", None);
    assert_eq!(r, Err(RootError::Unreadable));
}

#[test]
fn format_dir_wraps_in_dim_codes() {
    assert_eq!(format_dir("src"), "\u{1b}[2msrc\u{1b}[0m");
}

#[test]
fn format_repo_wraps_in_green_codes() {
    assert_eq!(format_repo("src"), "\u{1b}[32msrc\u{1b}[39m");
}
