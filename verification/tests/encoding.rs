use wslgit::encode::{
    argument_value, encode_path, escape_segment, get_drive_letter, get_prefix_for_drive,
    has_unsupported_prefix, is_absolute_argument, translate_path_to_unix,
};
use wslgit::text::to_chars;
use wslgit::winpath::{decompose, path_has_root, path_is_absolute, path_prefix, PathComponent, PathPrefix};

fn unix(arg: &str, exists: bool) -> String {
    translate_path_to_unix(arg.to_string(), exists)
}

#[test]
fn drive_letter_is_lowercased() {
    assert_eq!(unix("D:\\Work\\Repo", false), "/mnt/d/Work/Repo");
    assert_eq!(unix("z:\\x", false), "/mnt/z/x");
}

#[test]
fn forward_slashes_separate_too() {
    assert_eq!(unix("c:/Users/me/file.txt", false), "/mnt/c/Users/me/file.txt");
    assert_eq!(unix("c:\\Users/me\\file.txt", false), "/mnt/c/Users/me/file.txt");
}

#[test]
fn drive_root_alone_is_the_mount_point() {
    assert_eq!(unix("c:\\", false), "/mnt/c");
    assert_eq!(unix("c:/", false), "/mnt/c");
}

#[test]
fn repeated_and_trailing_separators_vanish() {
    assert_eq!(unix("c:\\\\a\\\\\\b\\", false), "/mnt/c/a/b");
    assert_eq!(unix("c:\\a/\\/b//", false), "/mnt/c/a/b");
}

#[test]
fn dot_segments_inside_a_path_vanish() {
    assert_eq!(unix("c:\\a\\.\\b\\.", false), "/mnt/c/a/b");
    assert_eq!(unix("c:\\.\\a", false), "/mnt/c/a");
}

#[test]
fn parent_segments_stay() {
    assert_eq!(unix("c:\\a\\..\\b", false), "/mnt/c/a/../b");
    assert_eq!(unix("..\\b", true), "../b");
}

#[test]
fn leading_dot_stays_without_a_root() {
    assert_eq!(unix(".", true), ".");
    assert_eq!(unix(".\\a\\.\\b", true), "./a/b");
    assert_eq!(unix("c:.\\a", true), "/mnt/c/a");
    assert_eq!(unix("c:.", true), "/mnt/c");
}

#[test]
fn relative_path_is_left_alone_when_nothing_exists() {
    assert_eq!(unix(".\\src\\main.rs", false), ".\\src\\main.rs");
    assert_eq!(unix("src\\main.rs", false), "src\\main.rs");
    assert_eq!(unix("c:file.txt", false), "c:file.txt");
}

#[test]
fn existing_relative_paths_are_translated() {
    assert_eq!(unix("src\\my file.rs", true), "src/my\\ file.rs");
    assert_eq!(unix("c:file.txt", true), "/mnt/c/file.txt");
    assert_eq!(unix("\\rooted\\file", true), "rooted/file");
}

#[test]
fn flags_and_revisions_pass_through() {
    for arg in ["--version", "-m", "HEAD~1", "origin/master", "a=b", "", "--", "--bare="] {
        assert_eq!(unix(arg, false), arg);
    }
}

#[test]
fn long_option_keeps_its_name() {
    assert_eq!(unix("--git-dir=D:\\repo\\.git", false), "--git-dir=/mnt/d/repo/.git");
    assert_eq!(unix("--file=rel\\path", true), "--file=rel/path");
    assert_eq!(unix("--file=rel\\path", false), "--file=rel\\path");
    assert_eq!(unix("--a=b=c:\\x", false), "--a=b=c:\\x");
    assert_eq!(unix("--a=c:\\x=y", false), "--a=/mnt/c/x\\=y");
    assert_eq!(unix("--=c:\\x", false), "--=/mnt/c/x");
}

#[test]
fn single_dash_option_is_one_candidate() {
    assert_eq!(unix("-f=c:\\x", false), "-f=c:\\x");
    assert_eq!(unix("-f=c:\\x", true), "-f\\=c\\:/x");
}

#[test]
fn characters_outside_the_safe_set_are_escaped() {
    assert_eq!(
        unix("c:\\a b\\c'd\\e(f)\\g&h\\i$j", false),
        "/mnt/c/a\\ b/c\\'d/e\\(f\\)/g\\&h/i\\$j"
    );
    assert_eq!(unix("c:\\tab\there", false), "/mnt/c/tab\\\there");
    assert_eq!(unix("c:\\line\nfeed", false), "/mnt/c/line\\\nfeed");
    assert_eq!(unix("c:\\caf\u{e9}\\\u{65e5}\u{672c}", false), "/mnt/c/caf\\\u{e9}/\\\u{65e5}\\\u{672c}");
    assert_eq!(unix("c:\\a:b", false), "/mnt/c/a\\:b");
}

#[test]
fn safe_characters_stay() {
    let safe = "abcxyzABCXYZ0189,._+@%-";
    assert_eq!(escape_segment(safe), safe);
    assert_eq!(escape_segment("a/b"), "a/b");
    assert_eq!(escape_segment(""), "");
    assert_eq!(unix("c:\\abcxyzABCXYZ0189,._+@%-", false), "/mnt/c/abcxyzABCXYZ0189,._+@%-");
}

#[test]
fn escaping_a_space_does_not_touch_what_stands_around_it() {
    assert_eq!(escape_segment("a space"), "a\\ space");
    assert_eq!(escape_segment("two  spaces"), "two\\ \\ spaces");
    assert_eq!(escape_segment(" "), "\\ ");
    let before = "x!y";
    let after = "p,q~";
    assert_eq!(
        escape_segment(&format!("{} {}", before, after)),
        format!("{}\\ {}", escape_segment(before), escape_segment(after))
    );
    assert_eq!(escape_segment("back\\slash"), "back\\\\slash");
}

#[test]
fn verbatim_disk_paths_are_translated() {
    assert_eq!(unix("\\\\?\\C:\\Program Files\\Git", false), "/mnt/c/Program\\ Files/Git");
    assert_eq!(unix("\\\\?\\C:", false), "/mnt/c");
    assert_eq!(unix("\\\\?\\c:\\a/b\\.\\c", false), "/mnt/c/a/b/./c");
    assert_eq!(unix("\\\\?\\c:/a\\b", false), "/mnt/c/a/b");
}

#[test]
fn prefixes_without_a_drive_are_told_apart() {
    assert!(has_unsupported_prefix("\\\\server\\share\\file"));
    assert!(has_unsupported_prefix("\\\\server\\share"));
    assert!(has_unsupported_prefix("//server/share/file"));
    assert!(has_unsupported_prefix("\\/server/share"));
    assert!(has_unsupported_prefix("\\\\?\\UNC\\server\\share"));
    assert!(has_unsupported_prefix("\\\\?\\UNC\\"));
    assert!(has_unsupported_prefix("\\\\?\\"));
    assert!(has_unsupported_prefix("\\\\?\\name"));
    assert!(has_unsupported_prefix("\\\\?\\C:x"));
    assert!(has_unsupported_prefix("\\\\.\\COM1"));
    assert!(has_unsupported_prefix("//./COM1"));
    assert!(has_unsupported_prefix("//?/C:/x"));
    assert!(has_unsupported_prefix("--file=\\\\server\\share"));
    assert!(!has_unsupported_prefix("\\\\?\\C:\\x"));
    assert!(!has_unsupported_prefix("\\\\?\\C:/x"));
    assert!(!has_unsupported_prefix("\\\\?\\C:"));
    assert!(!has_unsupported_prefix("c:\\x"));
    assert!(!has_unsupported_prefix("\\x"));
    assert!(!has_unsupported_prefix("--opt"));
    assert!(!has_unsupported_prefix(""));
}

#[test]
fn two_separators_alone_make_no_prefix() {
    for path in ["\\\\foo", "//x", "//", "\\\\", "//x/", "\\\\server\\", "///x/y", "//?", "//.", "//?x/"] {
        assert!(!has_unsupported_prefix(path), "{:?}", path);
        assert!(!is_absolute_argument(path), "{:?}", path);
        assert!(path_has_root(&to_chars(path)), "{:?}", path);
        assert_eq!(path_prefix(&to_chars(path)), None, "{:?}", path);
        assert_eq!(unix(path, false), path);
    }
    assert!(!has_unsupported_prefix("--grep=//x"));
    assert_eq!(unix("--grep=//x", false), "--grep=//x");
    assert_eq!(unix("--grep=\\\\foo", false), "--grep=\\\\foo");
    assert_eq!(unix("\\\\foo", true), "foo");
    assert_eq!(unix("///x/y z/", true), "x/y\\ z");
    assert_eq!(unix("--grep=//x", true), "--grep=x");
}

#[test]
fn prefix_of_a_path() {
    assert_eq!(path_prefix(&to_chars("c:\\x")), Some(PathPrefix::Disk(b'c')));
    assert_eq!(path_prefix(&to_chars("C:")), Some(PathPrefix::Disk(b'C')));
    assert_eq!(path_prefix(&to_chars("\\\\?\\D:\\x")), Some(PathPrefix::VerbatimDisk(b'D')));
    assert_eq!(path_prefix(&to_chars("\\\\s\\t")), Some(PathPrefix::Other));
    assert_eq!(path_prefix(&to_chars("\\\\?\\D:/x")), Some(PathPrefix::VerbatimDisk(b'D')));
    assert_eq!(path_prefix(&to_chars("\\\\?\\D:x")), Some(PathPrefix::Other));
    assert_eq!(path_prefix(&to_chars("\\\\s\\")), None);
    assert_eq!(path_prefix(&to_chars("\\\\s")), None);
    assert_eq!(path_prefix(&to_chars("1:\\x")), None);
    assert_eq!(path_prefix(&to_chars("\\x")), None);
    assert_eq!(path_prefix(&to_chars("")), None);
    assert_eq!(path_prefix(&to_chars("c")), None);
}

#[test]
fn absolute_needs_prefix_and_root() {
    assert!(path_is_absolute(&to_chars("c:\\")));
    assert!(path_is_absolute(&to_chars("c:/x")));
    assert!(path_is_absolute(&to_chars("\\\\?\\c:")));
    assert!(path_is_absolute(&to_chars("\\\\server\\share")));
    assert!(!path_is_absolute(&to_chars("c:x")));
    assert!(!path_is_absolute(&to_chars("c:")));
    assert!(!path_is_absolute(&to_chars("\\x")));
    assert!(!path_is_absolute(&to_chars("x")));
    assert!(path_has_root(&to_chars("\\x")));
    assert!(!path_has_root(&to_chars("x\\y")));
    assert!(is_absolute_argument("--file=c:\\x"));
    assert!(!is_absolute_argument("--file=x"));
    assert!(!is_absolute_argument("-file=c:\\x"));
}

fn describe(c: &PathComponent) -> String {
    match c {
        PathComponent::Prefix(PathPrefix::Disk(d)) => format!("disk {}", *d as char),
        PathComponent::Prefix(PathPrefix::VerbatimDisk(d)) => format!("verbatim {}", *d as char),
        PathComponent::Prefix(PathPrefix::Other) => "other".to_string(),
        PathComponent::Root => "root".to_string(),
        PathComponent::Segment(s) => format!("segment {}", s),
    }
}

fn parts(path: &str) -> Vec<String> {
    decompose(&to_chars(path)).iter().map(describe).collect()
}

#[test]
fn components_come_in_order() {
    assert_eq!(parts("C:\\a\\b c"), vec!["disk C", "root", "segment a", "segment b c"]);
    assert_eq!(parts("a/b"), vec!["segment a", "segment b"]);
    assert_eq!(parts("/a"), vec!["root", "segment a"]);
    assert_eq!(parts("c:a"), vec!["disk c", "segment a"]);
    assert_eq!(parts("./a/./b/"), vec!["segment .", "segment a", "segment b"]);
    assert_eq!(parts("\\\\?\\c:\\a\\.\\b/c"), vec!["verbatim c", "root", "segment a", "segment .", "segment b/c"]);
    assert_eq!(parts(""), Vec::<String>::new());
    assert_eq!(parts("c:"), vec!["disk c"]);
    assert_eq!(parts("c:."), vec!["disk c"]);
    assert_eq!(parts("c:.\\a"), vec!["disk c", "segment a"]);
    assert_eq!(parts("\\\\?\\c:"), vec!["verbatim c"]);
    assert_eq!(parts("\\\\?\\c:/a/b"), vec!["verbatim c", "root", "segment a/b"]);
    assert_eq!(parts("\\\\server\\share"), vec!["other", "root"]);
    assert_eq!(parts("//server/share/a/./b"), vec!["other", "root", "segment a", "segment b"]);
    assert_eq!(parts("\\\\server\\\\a"), vec!["root", "segment server", "segment a"]);
    assert_eq!(parts("\\\\.\\COM1\\x"), vec!["other", "root", "segment x"]);
    assert_eq!(parts("\\\\?\\UNC\\s\\h\\a/b"), vec!["other", "root", "segment a/b"]);
    assert_eq!(parts("\\\\?\\UNC\\s"), vec!["other"]);
    assert_eq!(parts("\\\\?\\name\\.\\x"), vec!["other", "root", "segment .", "segment x"]);
    assert_eq!(parts("//x"), vec!["root", "segment x"]);
}

#[test]
fn drive_letter_of_a_prefix() {
    assert_eq!(get_drive_letter(&PathPrefix::Disk(b'C')), Some("c".to_string()));
    assert_eq!(get_drive_letter(&PathPrefix::Disk(b'q')), Some("q".to_string()));
    assert_eq!(get_drive_letter(&PathPrefix::VerbatimDisk(b'Z')), Some("z".to_string()));
    assert_eq!(get_drive_letter(&PathPrefix::Disk(b'1')), Some("1".to_string()));
    assert_eq!(get_drive_letter(&PathPrefix::Disk(b'[')), Some("[".to_string()));
    assert_eq!(get_drive_letter(&PathPrefix::Disk(b'@')), Some("@".to_string()));
    assert_eq!(get_drive_letter(&PathPrefix::Other), None);
}

#[test]
fn mount_point_of_a_drive() {
    assert_eq!(get_prefix_for_drive("d".to_string()), "/mnt/d");
    assert_eq!(get_prefix_for_drive(String::new()), "/mnt/");
}

#[test]
fn value_of_an_argument() {
    assert_eq!(argument_value("--file=c:\\x"), "c:\\x");
    assert_eq!(argument_value("--file=a=b"), "a=b");
    assert_eq!(argument_value("--file"), "--file");
    assert_eq!(argument_value("-f=x"), "-f=x");
    assert_eq!(argument_value("x=y"), "x=y");
    assert_eq!(argument_value("--x="), "");
    assert_eq!(argument_value(""), "");
}

#[test]
fn path_alone_is_encoded_without_looking_for_an_option() {
    assert_eq!(encode_path("c:\\a b"), "/mnt/c/a\\ b");
    assert_eq!(encode_path("--x=c:\\a"), "--x\\=c\\:/a");
    assert_eq!(encode_path("rel"), "rel");
    assert_eq!(encode_path(""), "");
}

#[test]
fn plain_absolute_path_is_mount_point_and_body() {
    for (letter, body) in [('c', "Users\\me\\a.txt"), ('Q', "x"), ('e', "a/b\\c/d.e,f_g+h@i%j-k")] {
        let path = format!("{}:\\{}", letter, body);
        let expected = format!("/mnt/{}/{}", letter.to_ascii_lowercase(), body.replace('\\', "/"));
        assert_eq!(unix(&path, false), expected);
        assert_eq!(unix(&path, true), expected);
    }
}

#[test]
fn option_name_survives_every_translation() {
    for arg in ["--file=C:\\some\\path.txt", "--x=rel path", "--=", "--a==b", "--name=\\\\?\\c:\\v"] {
        let cut = arg.find('=').unwrap() + 1;
        for exists in [false, true] {
            let out = unix(arg, exists);
            assert_eq!(&out[..cut], &arg[..cut]);
        }
    }
}

#[test]
fn escaping_agrees_with_the_pattern() {
    let re = regex::Regex::new(wslgit::pattern::ESCAPE_PATTERN).unwrap();
    for s in ["", "plain", "a b", "q?*[]{}<>|\"'`~!#^&()=;:\\", "\u{e9}\u{1f600} \t\n", "a/b-c.d,e_f+g@h%i"] {
        assert_eq!(
            escape_segment(s),
            re.replace_all(s, wslgit::pattern::ESCAPE_REPLACEMENT).into_owned()
        );
    }
}

#[test]
fn every_space_of_a_path_is_escaped_once() {
    for path in [
        "c:\\a b\\c  d\\ e \\f",
        "C:\\Program Files\\Some Tool\\bin\\x y.exe",
        "d:/no/space",
        "\\\\?\\e:\\a b\\ ",
        "z:\\ ",
        "c:\\back\\\\ slash",
    ] {
        let out = unix(path, false);
        let spaces = path.matches(' ').count();
        assert_eq!(out.matches(' ').count(), spaces, "{:?}", path);
        assert_eq!(out.matches("\\ ").count(), spaces, "{:?}", path);
        let chars: Vec<char> = out.chars().collect();
        for (i, c) in chars.iter().enumerate() {
            if *c == ' ' {
                assert!(i > 0 && chars[i - 1] == '\\', "{:?}", path);
            }
        }
    }
    assert_eq!(unix("rel dir\\a b", true).matches("\\ ").count(), 2);
}
