use battery_status::fetch::classify_query_outcome;
use battery_status::fetch::query_command;
use battery_status::fetch::FetchError;

#[test]
fn zero_exit_hands_back_stdout_verbatim() {
    let r = classify_query_outcome(true, "  native-path: x\n".to_string(), "".to_string());
    assert_eq!(r, Ok("  native-path: x\n".to_string()));
}

#[test]
fn nonzero_exit_fails_with_stderr() {
    // A nonexistent device path makes the tool exit nonzero; its standard
    // error must come back verbatim, and no parse is attempted on it.
    let stderr = "failed to find device /no/such/device\n".to_string();
    let r = classify_query_outcome(false, "ignored".to_string(), stderr.clone());
    assert_eq!(r, Err(FetchError::CommandFailed(stderr)));
}

#[test]
fn spawn_failure_carries_the_system_message() {
    let e = FetchError::SpawnFailed("No such file or directory (os error 2)".to_string());
    match &e {
        FetchError::SpawnFailed(msg) => assert_eq!(msg, "No such file or directory (os error 2)"),
        FetchError::CommandFailed(_) => panic!("wrong variant"),
    }
    assert_ne!(e, FetchError::CommandFailed("No such file or directory (os error 2)".to_string()));
}

#[test]
fn direct_query_command_shape() {
    let argv = query_command("/org/freedesktop/UPower/devices/battery_BAT0", false);
    assert_eq!(
        argv,
        vec![
            "upower".to_string(),
            "-i".to_string(),
            "/org/freedesktop/UPower/devices/battery_BAT0".to_string(),
        ]
    );
}

#[test]
fn bridged_query_command_shape() {
    let argv = query_command("dev", true);
    assert_eq!(
        argv,
        vec![
            "flatpak-spawn".to_string(),
            "--host".to_string(),
            "upower".to_string(),
            "-i".to_string(),
            "dev".to_string(),
        ]
    );
}
