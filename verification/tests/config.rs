use sshx::config::{
    plan_settings_load, SettingsPlan, SettingsRead,
    choose_ssh_config_path, default_check_interval, default_connect_timeout, default_true, GeneralConfig, GroupSort,
    TunnelConfig,
};

#[test]
fn test_ssh_config_path_default() {
    let config = GeneralConfig::default();
    let ssh_path = std::path::PathBuf::from(config.ssh_config_path());
    assert!(ssh_path.components().any(|c| c.as_os_str() == ".ssh"));
    assert!(ssh_path.file_name().map(|n| n == "config").unwrap_or(false));
}

#[test]
fn defaults_without_floats() {
    let general = GeneralConfig::default();
    assert_eq!(general.ssh_config_path, None);
    assert_eq!(general.default_user, None);
    assert_eq!(GroupSort::default(), GroupSort::Alphabetical);
    let tunnel = TunnelConfig::default();
    assert_eq!(tunnel.check_interval_ms, 500);
    assert_eq!(tunnel.connect_timeout_s, 10);
    assert!(default_true());
    assert_eq!(default_check_interval(), 500);
    assert_eq!(default_connect_timeout(), 10);
}

#[test]
fn a_set_path_is_used() {
    let general = GeneralConfig { ssh_config_path: Some("/etc/ssh/ssh_config".to_string()), default_user: None };
    assert_eq!(general.ssh_config_path(), "/etc/ssh/ssh_config");
}

#[test]
fn the_command_line_path_comes_first() {
    let general = GeneralConfig { ssh_config_path: Some("/from/settings".to_string()), default_user: None };
    let cli = "/from/cli".to_string();
    assert_eq!(choose_ssh_config_path(Some(&cli), &general, Some("/home/u")), "/from/cli");
    assert_eq!(choose_ssh_config_path(None, &general, Some("/home/u")), "/from/settings");
    assert_eq!(choose_ssh_config_path(None, &GeneralConfig::default(), Some("/home/u")), "/home/u/.ssh/config");
    assert_eq!(choose_ssh_config_path(None, &GeneralConfig::default(), None), ".ssh/config");
}

#[test]
fn the_default_is_in_the_home_directory() {
    let general = GeneralConfig::default();
    assert_eq!(general.ssh_config_path_in(Some("/home/u")), "/home/u/.ssh/config");
    assert_eq!(general.ssh_config_path_in(Some("/home/u/")), "/home/u/.ssh/config");
    assert_eq!(general.ssh_config_path_in(None), ".ssh/config");
    assert!(general.ssh_config_path().ends_with(".ssh/config"));
}

#[test]
fn settings_files_that_mean_the_defaults() {
    assert!(matches!(plan_settings_load("/c.toml", SettingsRead::Missing), Ok(SettingsPlan::Defaults)));
    assert!(matches!(plan_settings_load("/c.toml", SettingsRead::Text(String::new())), Ok(SettingsPlan::Defaults)));
    assert!(matches!(
        plan_settings_load("/c.toml", SettingsRead::Text(" \n\t\n".to_string())),
        Ok(SettingsPlan::Defaults)
    ));
}

#[test]
fn settings_text_is_parsed_and_read_errors_are_reported() {
    match plan_settings_load("/c.toml", SettingsRead::Text("[ui]\n".to_string())) {
        Ok(SettingsPlan::Parse(t)) => assert_eq!(t, "[ui]\n"),
        other => panic!("unexpected {:?}", other),
    }
    match plan_settings_load("/c.toml", SettingsRead::Unreadable("denied".to_string())) {
        Err(sshx::error::SshxError::SshxConfigParseFailed { path, reason }) => {
            assert_eq!(path, "/c.toml");
            assert_eq!(reason, "failed to read file: denied");
        }
        other => panic!("unexpected {:?}", other),
    }
}
