use wslgit::decode::{translate_path_to_win, translate_path_to_win_output};
use wslgit::encode::translate_path_to_unix;

#[test]
fn win_to_unix_path_trans() {
    assert_eq!(
        translate_path_to_unix("d:\\test\\file.txt".to_string(), false),
        "/mnt/d/test/file.txt"
    );
    assert_eq!(
        translate_path_to_unix("C:\\Users\\test\\a space.txt".to_string(), false),
        "/mnt/c/Users/test/a\\ space.txt"
    );
}

#[test]
fn unix_to_win_path_trans() {
    assert_eq!(
        translate_path_to_win_output("/mnt/d/some path/a file.md".to_string()),
        "d:/some path/a file.md".to_string()
    );
    assert_eq!(
        translate_path_to_win_output("origin  /mnt/c/path/ (fetch)".to_string()),
        "origin  c:/path/ (fetch)"
    );
    let multiline = "mirror  /mnt/c/other/ (fetch)\nmirror  /mnt/c/other/ (push)\n";
    let multiline_result = "mirror  c:/other/ (fetch)\nmirror  c:/other/ (push)\n";
    assert_eq!(
        &*translate_path_to_win_output(String::from(multiline)),
        &multiline_result[..]
    );
}

#[test]
fn no_path_translation() {
    assert_eq!(
        &*translate_path_to_win_output(String::from("/mnt/other/file.sh")),
        String::from("/mnt/other/file.sh")
    );
}

#[test]
fn relative_path_translation() {
    assert_eq!(
        translate_path_to_unix(".\\src\\main.rs".to_string(), true),
        "./src/main.rs"
    );
}

#[test]
fn long_argument_path_translation() {
    assert_eq!(
        translate_path_to_unix("--file=C:\\some\\path.txt".to_owned(), false),
        "--file=/mnt/c/some/path.txt"
    );
}

#[test]
fn every_mount_path_of_an_argument() {
    assert_eq!(
        translate_path_to_win("/mnt/c/a /mnt/d/b".to_string()),
        "c:/a d:/b"
    );
}
