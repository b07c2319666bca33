use wslgit::mapping::{
    build_drive_to_path_mapping, format_entry_display, format_entry_line, parse_file_line,
    parse_mount_line, DriveMap,
};
use wslgit::pattern::MOUNT_LINE_PATTERN;
use wslgit::text::to_lowercase_ascii;

fn pair(a: &str, b: &str) -> Option<(String, String)> {
    Some((a.to_string(), b.to_string()))
}

fn by_pattern(line: &str) -> Option<(String, String)> {
    let re = regex::Regex::new(MOUNT_LINE_PATTERN).unwrap();
    re.captures(line).map(|c| (c["drive"].to_lowercase(), c["path"].to_string()))
}

#[test]
fn mount_line_names_drive_and_mount_point() {
    assert_eq!(
        parse_mount_line("C: on /mnt/c type drvfs (rw,noatime,uid=1000,gid=1000)"),
        pair("c", "/mnt/c")
    );
    assert_eq!(parse_mount_line("d: on /media/data"), pair("d", "/media/data"));
    assert_eq!(parse_mount_line("E:\t \ton\u{a0}\u{3000}/x\u{2003}rest"), pair("e", "/x"));
    assert_eq!(parse_mount_line("c: on on /x"), pair("c", "on"));
    assert_eq!(parse_mount_line("c: on \u{e9}t\u{e9}\n"), pair("c", "\u{e9}t\u{e9}"));
}

#[test]
fn other_lines_of_the_mount_list_name_nothing() {
    for line in [
        "",
        "rootfs on / type lxfs (rw,noatime)",
        " C: on /mnt/c",
        "C:on /mnt/c",
        "C: on/mnt/c",
        "C: on ",
        "C: on",
        "C: in /mnt/c",
        "CD: on /mnt/c",
        "1: on /mnt/c",
        "\nC: on /mnt/c",
        "C: o n /mnt/c",
        "C:",
        "C",
    ] {
        assert_eq!(parse_mount_line(line), None, "{:?}", line);
    }
}

#[test]
fn mount_lines_agree_with_the_pattern() {
    for line in [
        "C: on /mnt/c type drvfs",
        "z:\u{85}on\u{2028}\u{2029}p q",
        "C: on",
        "c: on  on",
        "c:  onon x",
        "c: on\u{1680}\u{202f}\u{205f}x\u{200a}y",
        "c: on \u{200b}x",
        "q: on \u{feff}",
        "",
    ] {
        assert_eq!(parse_mount_line(line), by_pattern(line), "{:?}", line);
    }
}

#[test]
fn lower_case_of_ascii_letters() {
    assert_eq!(to_lowercase_ascii("AbC:Z[@`{\u{c9}"), "abc:z[@`{\u{c9}");
    assert_eq!(to_lowercase_ascii(""), "");
}

#[test]
fn entry_as_a_line_of_the_file() {
    assert_eq!(format_entry_line("c", "/mnt/c"), "c /mnt/c\n");
    assert_eq!(format_entry_line("", ""), " \n");
}

#[test]
fn entry_as_shown() {
    assert_eq!(format_entry_display("c", "/mnt/c"), "c <-> /mnt/c");
}

#[test]
fn line_of_the_file_is_cut_at_its_first_space() {
    assert_eq!(parse_file_line("c /mnt/c"), pair("c", "/mnt/c"));
    assert_eq!(parse_file_line("d /media/my data"), pair("d", "/media/my data"));
    assert_eq!(parse_file_line(" x"), pair("", "x"));
    assert_eq!(parse_file_line("c "), pair("c", ""));
    assert_eq!(parse_file_line("c\t/mnt/c"), None);
    assert_eq!(parse_file_line("c"), None);
    assert_eq!(parse_file_line(""), None);
}

#[test]
fn written_line_reads_back() {
    let line = format_entry_line("c", "/mnt/c");
    assert_eq!(parse_file_line(line.trim_end_matches('\n')), pair("c", "/mnt/c"));
}

#[test]
fn table_keeps_one_mount_point_to_a_drive() {
    let mut table = DriveMap::new();
    assert_eq!(table.get("c"), None);
    table.insert("c".to_string(), "/mnt/c".to_string());
    table.insert("d".to_string(), "/mnt/d".to_string());
    assert_eq!(table.get("c"), Some(&"/mnt/c".to_string()));
    assert_eq!(table.get("d"), Some(&"/mnt/d".to_string()));
    assert_eq!(table.get("e"), None);
    table.insert("c".to_string(), "/c".to_string());
    assert_eq!(table.get("c"), Some(&"/c".to_string()));
    assert_eq!(table.get("d"), Some(&"/mnt/d".to_string()));
    assert_eq!(
        table.entries(),
        &vec![("c".to_string(), "/c".to_string()), ("d".to_string(), "/mnt/d".to_string())]
    );
}

#[test]
fn table_from_the_lines_of_the_file() {
    let lines: Vec<String> =
        ["c /mnt/c", "d /mnt/d", "c /other place"].iter().map(|s| s.to_string()).collect();
    let table = build_drive_to_path_mapping(&lines);
    assert_eq!(table.get("c"), Some(&"/other place".to_string()));
    assert_eq!(table.get("d"), Some(&"/mnt/d".to_string()));
    assert_eq!(table.get("C"), None);
    assert_eq!(table.entries().len(), 2);
    assert_eq!(build_drive_to_path_mapping(&Vec::new()).entries().len(), 0);
}
