use run::completion::Shell;
use run::config::{merge_runfiles, NO_RUNFILE_ERROR};

#[test]
fn test_no_runfile_error_message() {
    assert!(NO_RUNFILE_ERROR.contains("No Runfile found"));
}

#[test]
fn test_shell_name_bash() {
    assert_eq!(Shell::Bash.name(), "bash");
}

#[test]
fn test_shell_name_zsh() {
    assert_eq!(Shell::Zsh.name(), "zsh");
}

#[test]
fn test_shell_name_fish() {
    assert_eq!(Shell::Fish.name(), "fish");
}

#[test]
fn test_shell_name_powershell() {
    assert_eq!(Shell::PowerShell.name(), "powershell");
}

#[test]
fn shell_detected_from_shell_variable() {
    assert_eq!(Shell::from_shell_var("/bin/bash"), Some(Shell::Bash));
    assert_eq!(Shell::from_shell_var("/usr/bin/zsh"), Some(Shell::Zsh));
    assert_eq!(Shell::from_shell_var("/usr/local/bin/fish"), Some(Shell::Fish));
    assert_eq!(Shell::from_shell_var("/opt/microsoft/pwsh"), Some(Shell::PowerShell));
    assert_eq!(Shell::from_shell_var("C:\\powershell.exe"), Some(Shell::PowerShell));
    assert_eq!(Shell::from_shell_var("/bin/tcsh"), None);
}

#[test]
fn merge_puts_global_before_project() {
    let (content, meta) = merge_runfiles(Some("g() echo g".to_string()), Some("p() echo p".to_string())).unwrap();
    assert_eq!(content, "g() echo g\np() echo p");
    assert!(meta.has_global && meta.has_project);
}

#[test]
fn merge_with_one_runfile_keeps_it() {
    let (content, meta) = merge_runfiles(None, Some("p() echo p".to_string())).unwrap();
    assert_eq!(content, "p() echo p");
    assert!(!meta.has_global && meta.has_project);
    let (content, meta) = merge_runfiles(Some("g() echo g".to_string()), None).unwrap();
    assert_eq!(content, "g() echo g");
    assert!(meta.has_global && !meta.has_project);
    assert!(merge_runfiles(None, None).is_none());
}

#[test]
fn test_set_and_get_custom_runfile_path() {
    let mut settings = run::config::RunSettings::new(None);
    let original = settings.get_custom_runfile_path();

    settings.set_custom_runfile_path(Some("/tmp/test_runfile".to_string()));
    assert_eq!(settings.get_custom_runfile_path(), Some("/tmp/test_runfile".to_string()));

    settings.set_custom_runfile_path(None);
    assert_eq!(settings.get_custom_runfile_path(), None);

    settings.set_custom_runfile_path(original);
}

#[test]
fn mcp_output_is_enabled_by_directory_or_environment() {
    let mut settings = run::config::RunSettings::new(None);
    assert!(!settings.is_mcp_output_enabled());
    settings.set_mcp_output_dir(Some("/tmp/.run-output".to_string()));
    assert!(settings.is_mcp_output_configured());
    assert_eq!(settings.mcp_output_dir(), Some("/tmp/.run-output".to_string()));
    let from_env = run::config::RunSettings::new(Some("/srv/out".to_string()));
    assert!(from_env.is_mcp_output_enabled());
    assert_eq!(from_env.mcp_output_env(), Some("/srv/out".to_string()));
}

#[test]
fn test_set_and_get_mcp_output_dir() {
    let mut settings = run::config::RunSettings::new(None);
    settings.set_mcp_output_dir(None);

    settings.set_mcp_output_dir(Some("/tmp/mcp_test".to_string()));
    assert_eq!(settings.mcp_output_dir(), Some("/tmp/mcp_test".to_string()));

    settings.set_mcp_output_dir(None);
    assert_eq!(settings.mcp_output_dir(), None);
}
