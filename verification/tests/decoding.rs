use wslgit::decode::{decode_mount_paths, translate_path_to_win, translate_path_to_win_output};
use wslgit::encode::translate_path_to_unix;
use wslgit::pattern::MOUNT_PATH_PATTERN;

fn win(text: &str) -> String {
    translate_path_to_win_output(text.to_string())
}

fn by_pattern(text: &[u8]) -> Vec<u8> {
    let re = regex::bytes::Regex::new(MOUNT_PATH_PATTERN).unwrap();
    re.replace_all(text, &b"${drive}:${path}"[..]).into_owned()
}

#[test]
fn path_with_a_space_is_decoded_up_to_the_space() {
    assert_eq!(win("/mnt/d/some path/a file.md"), "d:/some path/a file.md");
    assert_eq!(win("/mnt/d/some /mnt/e/path"), "d:/some e:/path");
}

#[test]
fn drive_letter_keeps_its_case() {
    assert_eq!(win("/mnt/C/Users"), "C:/Users");
    assert_eq!(win("/mnt/c/Users"), "c:/Users");
}

#[test]
fn mount_point_without_a_slash_is_no_mount_path() {
    assert_eq!(win("/mnt/c"), "/mnt/c");
    assert_eq!(win("/mnt/c "), "/mnt/c ");
    assert_eq!(win("/mnt/cd/x"), "/mnt/cd/x");
    assert_eq!(win("/mnt/1/x"), "/mnt/1/x");
    assert_eq!(win("/mnt//x"), "/mnt//x");
    assert_eq!(win("mnt/c/x"), "mnt/c/x");
    assert_eq!(win("/MNT/c/x"), "/MNT/c/x");
    assert_eq!(win(""), "");
}

#[test]
fn bare_mount_root_is_decoded() {
    assert_eq!(win("/mnt/c/"), "c:/");
    assert_eq!(win("x/mnt/c/y"), "xc:/y");
}

#[test]
fn mount_path_inside_a_mount_path_is_part_of_it() {
    assert_eq!(win("/mnt/c/a/mnt/d/b"), "c:/a/mnt/d/b");
    assert_eq!(win("/mnt/c//mnt/d/"), "c://mnt/d/");
    assert_eq!(win("/mnt/mnt/c/x"), "/mntc:/x");
}

#[test]
fn every_ascii_whitespace_ends_a_mount_path() {
    for w in ['\t', '\n', '\u{b}', '\u{c}', '\r', ' '] {
        let text = format!("/mnt/c/a{}/mnt/d/b", w);
        assert_eq!(win(&text), format!("c:/a{}d:/b", w));
    }
}

#[test]
fn other_whitespace_does_not_end_a_mount_path() {
    for w in ['\u{85}', '\u{a0}', '\u{2003}', '\u{3000}', '\u{1c}', '\u{0}'] {
        let text = format!("/mnt/c/a{}/mnt/d/b", w);
        assert_eq!(win(&text), format!("c:/a{}/mnt/d/b", w));
    }
}

#[test]
fn text_around_mount_paths_is_kept() {
    assert_eq!(
        win("caf\u{e9} /mnt/c/\u{65e5}\u{672c}/x \u{1f600}\t/mnt/d/y"),
        "caf\u{e9} c:/\u{65e5}\u{672c}/x \u{1f600}\td:/y"
    );
}

#[test]
fn text_without_a_mount_path_is_unchanged() {
    for text in ["", "plain", "/mnt/other/file.sh", "/mnt", "/mnt/", "c:/already", "a\nb\r\nc\n", "/m/n/t/c/"] {
        assert_eq!(win(text), text);
        assert_eq!(translate_path_to_win(text.to_string()), text);
        assert_eq!(decode_mount_paths(text.as_bytes()), text.as_bytes());
    }
}

#[test]
fn line_feeds_are_counted_the_same() {
    let text = "\n/mnt/c/a\n\n/mnt/d/b /mnt/e/c\nplain\n/mnt/f/\n";
    let out = win(text);
    assert_eq!(out, "\nc:/a\n\nd:/b e:/c\nplain\nf:/\n");
    assert_eq!(out.matches('\n').count(), text.matches('\n').count());
    assert_eq!(out.matches('\n').count(), 6);
}

#[test]
fn lines_are_decoded_one_by_one() {
    let first = "mirror  /mnt/c/other/ (fetch)";
    let second = "x /mnt/d/y/mnt/e/z";
    for w in ["\n", " ", "\t", "\r"] {
        let whole = format!("{}{}{}", first, w, second);
        assert_eq!(win(&whole), format!("{}{}{}", win(first), w, win(second)));
    }
    assert_eq!(win(first), "mirror  c:/other/ (fetch)");
    assert_eq!(win(second), "x d:/y/mnt/e/z");
}

#[test]
fn argument_is_decoded_like_output() {
    assert_eq!(translate_path_to_win("/mnt/c/x".to_string()), "c:/x");
    assert_eq!(
        translate_path_to_win("--out=/mnt/c/x /mnt/d/y\n/mnt/e/z".to_string()),
        "--out=c:/x d:/y\ne:/z"
    );
    for text in ["", "plain", "/mnt/c/a /mnt/d/b", "x\t/mnt/Q/\n"] {
        assert_eq!(translate_path_to_win(text.to_string()), win(text));
    }
}

#[test]
fn bytes_that_are_no_text_are_kept() {
    let text: &[u8] = b"\xff\xfe /mnt/c/a\x80\xc3 \xe9/mnt/D/\xff\n";
    assert_eq!(decode_mount_paths(text), b"\xff\xfe c:/a\x80\xc3 \xe9D:/\xff\n");
}

#[test]
fn decoding_agrees_with_the_pattern() {
    let samples: [&[u8]; 12] = [
        b"",
        b"/mnt/c/",
        b"/mnt/c/x y /mnt/d/z",
        b"origin  /mnt/c/path/ (fetch)\norigin  /mnt/c/path/ (push)\n",
        b"/mnt//mnt/c/x",
        b"/mnt/c/mnt/d/x",
        b"/mnt/c\x0b/mnt/d/\x0c/mnt/e/\r\n",
        b"/mnt/\xc3\xa9/x /mnt/c/\xc3\xa9",
        b"\xff/mnt/c/\xff \xff",
        b"/mnt/c//mnt/c//mnt/c/",
        b"/mnt/c/\xc2\xa0/mnt/d/",
        b"/mnt/A/ /mnt/z/ /mnt/[/ /mnt/`/ /mnt/@/ /mnt/{/",
    ];
    for text in samples {
        assert_eq!(decode_mount_paths(text), by_pattern(text));
    }
}

#[test]
fn plain_mount_path_comes_back_from_decode_and_encode() {
    for path in ["/mnt/c/Users/me/file.txt", "/mnt/d/a", "/mnt/x/a.b/c,d/e_f+g@h%i-j/..", "/mnt/q/..."] {
        let windows = win(path);
        assert_eq!(windows, format!("{}:{}", &path[5..6], &path[6..]));
        assert_eq!(translate_path_to_unix(windows.clone(), false), path);
        assert_eq!(translate_path_to_unix(windows, true), path);
    }
}

#[test]
fn capital_drive_letter_comes_back_in_lower_case() {
    let windows = win("/mnt/C/Users");
    assert_eq!(windows, "C:/Users");
    assert_eq!(translate_path_to_unix(windows, false), "/mnt/c/Users");
}

#[test]
fn encode_then_decode_is_not_the_identity() {
    let unix = translate_path_to_unix("C:\\a b\\c".to_string(), false);
    assert_eq!(unix, "/mnt/c/a\\ b/c");
    assert_eq!(win(&unix), "c:/a\\ b/c");
}

#[test]
fn mount_path_is_no_windows_path() {
    assert_eq!(translate_path_to_unix("/mnt/c/Users/me".to_string(), false), "/mnt/c/Users/me");
    assert_eq!(translate_path_to_unix("/mnt/c/Users/me".to_string(), true), "mnt/c/Users/me");
}

#[test]
fn whitespace_stays_in_its_order() {
    let text = " \t/mnt/c/a \n\r/mnt/d/b\u{b}x\u{c}/mnt/e/ /mnt/f\n\n";
    let out = win(text);
    assert_eq!(out, " \tc:/a \n\rd:/b\u{b}x\u{c}e:/ /mnt/f\n\n");
    let blanks = |s: &str| -> String {
        s.chars().filter(|c| " \t\n\r\u{b}\u{c}".contains(*c)).collect()
    };
    assert_eq!(blanks(&out), blanks(text));
    assert_eq!(blanks(&out), " \t \n\r\u{b}\u{c} \n\n");
}
