use wslgit::invocation::{
    child_environment, exit_status, select_mode, shared_variable_names, windows_command_arguments,
    wrapped_command_arguments, Mode,
};

fn strings(list: &[&str]) -> Vec<String> {
    list.iter().map(|s| s.to_string()).collect()
}

fn vars(list: &[(&str, &str)]) -> Vec<(String, String)> {
    list.iter().map(|(k, v)| (k.to_string(), v.to_string())).collect()
}

#[test]
fn first_argument_selects_the_mode() {
    assert_eq!(select_mode("win-show-mapping"), Mode::ShowMapping);
    assert_eq!(select_mode("win-generate-mapping"), Mode::GenerateMapping);
    assert_eq!(select_mode("win-cmd"), Mode::WindowsCommand);
    assert_eq!(select_mode("status"), Mode::Wrapped);
    assert_eq!(select_mode(""), Mode::Wrapped);
    assert_eq!(select_mode("WIN-CMD"), Mode::Wrapped);
    assert_eq!(select_mode("win-cmd "), Mode::Wrapped);
}

#[test]
fn windows_command_gets_decoded_arguments() {
    assert_eq!(
        windows_command_arguments(&strings(&["notepad", "/mnt/c/a /mnt/d/b", "x"])),
        strings(&["/c", "notepad", "c:/a d:/b", "x"])
    );
    assert_eq!(windows_command_arguments(&Vec::new()), strings(&["/c"]));
}

#[test]
fn wrapped_command_gets_translated_arguments() {
    assert_eq!(
        wrapped_command_arguments(
            &strings(&["add", "C:\\repo\\a b.txt", "src\\x", "src\\y", "--file=d:\\z"]),
            &vec![false, false, true, false, false],
        ),
        strings(&["git", "add", "/mnt/c/repo/a\\ b.txt", "src/x", "src\\y", "--file=/mnt/d/z"])
    );
    assert_eq!(wrapped_command_arguments(&Vec::new(), &Vec::new()), strings(&["git"]));
}

#[test]
fn variables_of_the_wrapped_tool_are_forwarded() {
    let env = vars(&[
        ("PATH", "c:\\bin"),
        ("GIT_DIR", "c:\\repo\\.git"),
        ("git_lower", "x"),
        ("GIT", "x"),
        ("GIT_", ""),
        ("XGIT_Y", "x"),
        ("GIT_SSH", "plink"),
    ]);
    assert_eq!(
        child_environment(&env, "/mnt/c/bin/wslgit.exe", None),
        vars(&[("GIT_DIR", "c:\\repo\\.git"), ("GIT_", ""), ("GIT_SSH", "plink")])
    );
    assert_eq!(shared_variable_names(&env), Some("GIT_DIR/u:GIT_/u:GIT_SSH/u".to_string()));
}

#[test]
fn nothing_is_shared_when_nothing_is_forwarded() {
    let env = vars(&[("PATH", "x"), ("HOME", "y")]);
    assert_eq!(child_environment(&env, "w", None), Vec::new());
    assert_eq!(shared_variable_names(&env), None);
    assert_eq!(shared_variable_names(&Vec::new()), None);
    assert_eq!(shared_variable_names(&vars(&[("GIT_X", "")])), Some("GIT_X/u".to_string()));
}

#[test]
fn editor_variable_reenters_the_bridge() {
    let env = vars(&[("GIT_EDITOR", "code --wait"), ("GIT_EDITORS", "code --wait")]);
    assert_eq!(
        child_environment(&env, "/mnt/c/bin/wslgit.exe", Some("C:\\VS Code\\code.CMD")),
        vars(&[
            ("GIT_EDITOR", "/mnt/c/bin/wslgit.exe win-cmd /mnt/c/VS\\ Code/code.CMD --wait"),
            ("GIT_EDITORS", "code --wait"),
        ])
    );
    assert_eq!(
        child_environment(&env, "/mnt/c/bin/wslgit.exe", None),
        vars(&[
            ("GIT_EDITOR", "/mnt/c/bin/wslgit.exe win-cmd code --wait"),
            ("GIT_EDITORS", "code --wait"),
        ])
    );
    assert_eq!(shared_variable_names(&env), Some("GIT_EDITOR/u:GIT_EDITORS/u".to_string()));
}

#[test]
fn exit_status_of_the_child_is_handed_on() {
    assert_eq!(exit_status(Some(0)), 0);
    assert_eq!(exit_status(Some(128)), 128);
    assert_eq!(exit_status(Some(-1)), -1);
    assert_eq!(exit_status(None), 1);
}
