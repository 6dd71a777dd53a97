use watson::{execute_command, get_system_commands};

#[test]
fn command_table_lists_eight_commands() {
    let cmds = get_system_commands();
    assert_eq!(cmds.len(), 8);
    assert_eq!(cmds[0].id, "cmd:lock");
    assert_eq!(cmds[0].aliases, vec!["lock", "lockscreen"]);
    assert!(cmds[2].requires_confirmation);
    assert!(!cmds[6].requires_confirmation);
    assert_eq!(cmds[7].name, "Unmute");
}

#[test]
fn portable_execute_command_reports_unsupported() {
    assert_eq!(
        execute_command("cmd:lock"),
        Err("System commands not supported on this platform: cmd:lock".to_string())
    );
}
