use homeos::config::PackageConfig;
use homeos::plan::Action;
use homeos::shell::{
    fallback_notice_for, resolve_script_name, resolve_script_name_for, resolve_shell, resolve_shell_with,
    script_extension, script_extension_for, shell_command_for, windows_powershell_fallback_notice,
    all_script_extensions, windows_shell_for, WINDOWS_POWERSHELL_FALLBACK_NOTICE,
};
use homeos::strmap::StrMap;

fn host_is_windows() -> bool {
    std::path::MAIN_SEPARATOR == '\\'
}

#[test]
fn test_resolve_shell_uses_env_var_when_set() {
    // Arrange
    let shell_env = Some("/usr/bin/fish".to_string());

    // Act
    let shell = resolve_shell(shell_env, false);

    // Assert
    assert_eq!(shell, "/usr/bin/fish");
}

#[test]
fn test_resolve_shell_with_uses_env_var_regardless_of_platform() {
    let shell_env = Some("/usr/bin/fish".to_string());
    let shell = resolve_shell_with(shell_env, true, false);
    assert_eq!(shell, "/usr/bin/fish");
}

#[test]
fn test_resolve_shell_with_falls_back_to_sh_on_unix() {
    let shell = resolve_shell_with(None, false, false);
    assert_eq!(shell, "/bin/sh");
}

#[test]
fn test_resolve_shell_with_prefers_pwsh_on_windows_when_present() {
    let shell = resolve_shell_with(None, true, true);
    assert_eq!(shell, "pwsh");
}

#[test]
fn test_resolve_shell_with_falls_back_to_powershell_on_windows_when_pwsh_absent() {
    let shell = resolve_shell_with(None, true, false);
    assert_eq!(shell, "powershell");
}

#[test]
fn test_script_extension_returns_os_appropriate_value() {
    let ext = script_extension();
    if host_is_windows() {
        assert_eq!(ext, "ps1");
    } else {
        assert_eq!(ext, "sh");
    }
}

#[test]
fn test_shell_command_for_unix_returns_sh() {
    let cmd = shell_command_for(false, false);
    assert_eq!(cmd, "sh");
}

#[test]
fn test_shell_command_for_windows_with_pwsh_returns_pwsh() {
    let cmd = shell_command_for(true, true);
    assert_eq!(cmd, "pwsh");
}

#[test]
fn test_shell_command_for_windows_without_pwsh_falls_back_to_powershell() {
    let cmd = shell_command_for(true, false);
    assert_eq!(cmd, "powershell");
}

#[test]
fn test_windows_powershell_fallback_notice_is_none_on_unix() {
    let notice = windows_powershell_fallback_notice(false);
    if host_is_windows() {
        // On Windows the notice depends on whether pwsh is available.
    } else {
        assert_eq!(notice, None);
    }
}

#[test]
fn test_fallback_notice_only_on_windows_without_pwsh() {
    assert_eq!(fallback_notice_for(true, false), Some(WINDOWS_POWERSHELL_FALLBACK_NOTICE));
    assert_eq!(fallback_notice_for(true, true), None);
    assert_eq!(fallback_notice_for(false, false), None);
    assert_eq!(
        WINDOWS_POWERSHELL_FALLBACK_NOTICE,
        "(running under Windows PowerShell 5.1; PowerShell 7 recommended)"
    );
}

#[test]
fn test_all_script_extensions_lists_both_platforms() {
    assert_eq!(all_script_extensions(), vec!["sh", "ps1"]);
    assert_eq!(script_extension_for(true), "ps1");
    assert_eq!(script_extension_for(false), "sh");
    assert_eq!(windows_shell_for(true), "pwsh");
    assert_eq!(windows_shell_for(false), "powershell");
}

#[test]
fn action_test_resolve_script_name_default() {
    // Arrange
    let pkg_config = PackageConfig::default();

    // Act
    let sut = resolve_script_name(&pkg_config, Action::Install);

    // Assert
    let ext = script_extension();
    assert_eq!(sut, format!("install.{ext}"));
}

#[test]
fn test_resolve_script_name_with_alias() {
    // Arrange
    let mut aliases = StrMap::new();
    aliases.insert("update".to_string(), "install".to_string());
    let pkg_config = PackageConfig { script_aliases: aliases, ..Default::default() };

    // Act
    let sut = resolve_script_name(&pkg_config, Action::Update);

    // Assert
    let ext = script_extension();
    assert_eq!(sut, format!("install.{ext}"));
}

#[test]
fn package_test_resolve_script_name_default() {
    let pkg_config = PackageConfig::default();
    let sut = resolve_script_name(&pkg_config, Action::Install);
    let ext = if host_is_windows() { "ps1" } else { "sh" };
    assert_eq!(sut, format!("install.{ext}"));
}

#[test]
fn test_resolve_script_name_with_override() {
    let mut aliases = StrMap::new();
    aliases.insert("update".to_string(), "install".to_string());
    let pkg_config = PackageConfig { script_aliases: aliases, ..Default::default() };
    let sut = resolve_script_name(&pkg_config, Action::Update);
    let ext = if host_is_windows() { "ps1" } else { "sh" };
    assert_eq!(sut, format!("install.{ext}"));
}

#[test]
fn test_resolve_script_name_for_windows_uses_ps1() {
    let mut aliases = StrMap::new();
    aliases.insert("uninstall".to_string(), "cleanup".to_string());
    let pkg_config = PackageConfig { script_aliases: aliases, ..Default::default() };
    assert_eq!(resolve_script_name_for(&pkg_config, Action::Uninstall, true), "cleanup.ps1");
    assert_eq!(resolve_script_name_for(&pkg_config, Action::Install, false), "install.sh");
}
