use focusd::common::{check_pid_file, expand_path, file_exists, parse_pid, pid_file_text};
use focusd::config::{locate_config, FocusConfigError};

#[test]
fn plain_paths_are_not_expanded() {
    assert_eq!(expand_path(&"/etc/hosts".to_string()), "/etc/hosts");
    assert_eq!(expand_path(&"~user/x".to_string()), "~user/x");
    assert_eq!(expand_path(&"a~/x".to_string()), "a~/x");
}

#[test]
fn home_shorthand_is_expanded() {
    let expanded = expand_path(&"~/.config/focusd/focus.toml".to_string());
    assert_ne!(expanded, "~/.config/focusd/focus.toml");
    assert!(expanded.ends_with("/.config/focusd/focus.toml"));
}

#[test]
fn existing_and_missing_files() {
    assert!(file_exists(&"/".to_string()));
    assert!(!file_exists(&"/no/such/focusd/file".to_string()));
}

#[test]
fn missing_config_is_reported() {
    assert_eq!(
        locate_config(&"/no/such/focusd/focus.toml".to_string()),
        Err(FocusConfigError::ConfigMissing)
    );
    assert_eq!(locate_config(&"/".to_string()), Ok("/".to_string()));
}

#[test]
fn reads_pids() {
    assert_eq!(parse_pid(&b"1234".to_vec()), Some(1234));
    assert_eq!(parse_pid(&b"-5".to_vec()), Some(-5));
    assert_eq!(parse_pid(&b"+7".to_vec()), Some(7));
    assert_eq!(parse_pid(&b"007".to_vec()), Some(7));
    assert_eq!(parse_pid(&b"2147483647".to_vec()), Some(i32::MAX));
    assert_eq!(parse_pid(&b"-2147483648".to_vec()), Some(i32::MIN));
}

#[test]
fn rejects_non_pids() {
    assert_eq!(parse_pid(&b"".to_vec()), None);
    assert_eq!(parse_pid(&b"-".to_vec()), None);
    assert_eq!(parse_pid(&b"+".to_vec()), None);
    assert_eq!(parse_pid(&b"12a".to_vec()), None);
    assert_eq!(parse_pid(&b"12\n".to_vec()), None);
    assert_eq!(parse_pid(&b" 12".to_vec()), None);
    assert_eq!(parse_pid(&b"2147483648".to_vec()), None);
    assert_eq!(parse_pid(&b"-2147483649".to_vec()), None);
    assert_eq!(parse_pid(&b"99999999999999999999999".to_vec()), None);
    assert_eq!(parse_pid(&b"99999999999x".to_vec()), None);
    assert_eq!(parse_pid(&vec![0xff, 0x31]), None);
}

#[test]
fn pid_file_checks() {
    assert!(!check_pid_file(&None));
    // The first process of the system always runs.
    assert!(check_pid_file(&Some(b"1".to_vec())));
}

#[test]
fn written_pids_read_back() {
    for pid in [0i32, 1, 42, -42, 65535, i32::MAX, i32::MIN] {
        assert_eq!(parse_pid(&pid.to_string().into_bytes()), Some(pid));
    }
}

#[test]
fn pid_file_text_is_decimal() {
    assert_eq!(pid_file_text(1234), b"1234".to_vec());
    assert_eq!(pid_file_text(0), b"0".to_vec());
    assert_eq!(pid_file_text(-42), b"-42".to_vec());
    assert_eq!(pid_file_text(i32::MIN), b"-2147483648".to_vec());
    for pid in [0i32, 7, 99999, i32::MAX, i32::MIN] {
        assert_eq!(parse_pid(&pid_file_text(pid)), Some(pid));
    }
}
