use wslgit::editor::{editor_candidates, editor_executable, resolve_editor};

#[test]
fn executable_is_the_first_token() {
    assert_eq!(editor_executable("notepad"), "notepad");
    assert_eq!(editor_executable("code --wait"), "code");
    assert_eq!(editor_executable("code\t--wait"), "code");
    assert_eq!(editor_executable("c:\\tools\\ed.exe -x -y"), "c:\\tools\\ed.exe");
    assert_eq!(editor_executable(""), "");
    assert_eq!(editor_executable(" code"), "");
}

#[test]
fn quotes_around_the_executable_are_taken_off() {
    assert_eq!(editor_executable("\"notepad\" -x"), "notepad");
    assert_eq!(editor_executable("\"notepad"), "notepad");
    assert_eq!(editor_executable("\"C:\\Program Files\\ed\""), "C:\\Program");
    assert_eq!(editor_executable("\"\"ed\"\""), "\"ed\"");
    assert_eq!(editor_executable("\""), "");
    assert_eq!(editor_executable("\"\""), "");
    assert_eq!(editor_executable("ed\""), "ed\"");
}

#[test]
fn candidates_in_the_order_tried() {
    assert_eq!(editor_candidates("code"), vec!["code", "code.CMD", "code.EXE"]);
    assert_eq!(editor_candidates(""), vec!["", ".CMD", ".EXE"]);
}

#[test]
fn found_editor_is_named_by_its_mount_path() {
    assert_eq!(
        resolve_editor("code --wait", Some("\\\\?\\C:\\Program Files\\VS Code\\bin\\code.CMD")),
        "/mnt/c/Program\\ Files/VS\\ Code/bin/code.CMD --wait"
    );
    assert_eq!(resolve_editor("\"ed\"", Some("D:\\tools\\ed.EXE")), "/mnt/d/tools/ed.EXE");
    assert_eq!(resolve_editor("ed  a  b ", Some("c:\\ed")), "/mnt/c/ed  a  b ");
    assert_eq!(resolve_editor("ed\ta", Some("c:\\ed")), "/mnt/c/ed a");
    assert_eq!(resolve_editor("ed ", Some("c:\\ed")), "/mnt/c/ed ");
}

#[test]
fn editor_that_was_not_found_stays_as_written() {
    assert_eq!(resolve_editor("code --wait", None), "code --wait");
    assert_eq!(resolve_editor("\"my ed\" -x", None), "\"my ed\" -x");
    assert_eq!(resolve_editor("vim", None), "vim");
    assert_eq!(resolve_editor("", None), "");
    assert_eq!(resolve_editor("ed\tx", None), "ed x");
}

#[test]
fn editor_on_a_share_stays_as_written() {
    assert_eq!(
        resolve_editor("ed -x", Some("\\\\?\\UNC\\server\\share\\ed.exe")),
        "ed -x"
    );
    assert_eq!(resolve_editor("\"ed\"", Some("\\\\server\\share\\ed.exe")), "\"ed\"");
}
