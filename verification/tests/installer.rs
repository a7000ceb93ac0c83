use kilo::installer::{HookCheckResult, HookState, KiloInstaller};
use kilo::plugin::KILO_PLUGIN_CONTENT;
use kilo::storage::{BaseDir, Platform};

const BINARY: &str = "/usr/local/bin/git-ai";

fn state(plugin: Option<String>) -> HookState {
    HookState { has_binary: false, has_global_config: true, plugin }
}

#[test]
fn test_kilo_install_plugin_creates_file_from_scratch() {
    let change = KiloInstaller.install_hooks("", BINARY, false).unwrap();
    assert!(change.write);
    let content = change.new_content;
    assert!(content.contains("tool.execute.before"));
    assert!(content.contains("tool.execute.after"));
    assert!(!content.contains("__GIT_AI_BINARY_PATH__"));
}

#[test]
fn test_kilo_plugin_content_is_valid_typescript() {
    let content = KILO_PLUGIN_CONTENT;

    assert!(content.contains("import type { Plugin }"));
    assert!(content.contains("@kilocode/plugin"));
    assert!(content.contains("tool.execute.before"));
    assert!(content.contains("tool.execute.after"));
    assert!(content.contains("FILE_EDIT_TOOLS"));
    assert!(content.contains("__GIT_AI_BINARY_PATH__"));
    assert!(content.contains("hook_event_name"));
    assert!(content.contains("session_id"));
    assert!(content.contains("PreToolUse"));
    assert!(content.contains("PostToolUse"));
}

#[test]
fn test_kilo_plugin_placeholder_substitution() {
    let content = KiloInstaller::generate_plugin_content(BINARY);

    assert!(!content.contains("__GIT_AI_BINARY_PATH__"));
    assert!(content.contains(r#"const GIT_AI_BIN = "/usr/local/bin/git-ai""#));
    assert!(content.contains("${GIT_AI_BIN} checkpoint kilo"));
}

#[test]
fn the_placeholder_stands_once_and_inside_quotes() {
    let quoted = "\"__GIT_AI_BINARY_PATH__\"";
    assert_eq!(KILO_PLUGIN_CONTENT.matches("__GIT_AI_BINARY_PATH__").count(), 1);
    assert_eq!(KILO_PLUGIN_CONTENT.matches(quoted).count(), 1);
    let (head, tail) = KILO_PLUGIN_CONTENT.split_once("__GIT_AI_BINARY_PATH__").unwrap();
    assert_eq!(
        KiloInstaller::generate_plugin_content(r"D:\x"),
        format!("{}{}{}", head, r"D:\\x", tail)
    );
}

#[test]
fn test_kilo_plugin_skips_if_already_exists() {
    let content1 = KiloInstaller::generate_plugin_content(BINARY);
    let content2 = KiloInstaller::generate_plugin_content(BINARY);
    assert_eq!(content1, content2);
    assert_eq!(KiloInstaller.install_hooks(&content1, BINARY, false), None);
    assert_eq!(KiloInstaller.install_hooks(content1.trim(), BINARY, false), None);
}

#[test]
fn test_kilo_plugin_updates_outdated_content() {
    let content_before = "// OldPlugin version";
    assert!(content_before.contains("OldPlugin"));

    let change = KiloInstaller.install_hooks(content_before, BINARY, false).unwrap();
    let content_after = change.new_content;
    assert!(content_after.contains("tool.execute.before"));
    assert!(!content_after.contains("OldPlugin"));
}

#[test]
fn test_kilo_plugin_windows_path_escaping() {
    let content = KiloInstaller::generate_plugin_content(r"C:\Users\foo\.git-ai\bin\git-ai.exe");

    assert!(!content.contains("__GIT_AI_BINARY_PATH__"));
    assert!(
        content.contains(r#"const GIT_AI_BIN = "C:\\Users\\foo\\.git-ai\\bin\\git-ai.exe""#)
    );
}

#[test]
fn test_kilo_plugin_handles_empty_directory() {
    let path = KiloInstaller::plugin_path(Platform::Linux);
    assert_eq!(path.base, BaseDir::Home);
    assert_eq!(path.components, vec![".config", "kilo", "plugins", "git-ai.ts"]);

    let generated = KiloInstaller::generate_plugin_content(BINARY);
    assert!(generated.contains("tool.execute.before"));
    assert!(!generated.contains("__GIT_AI_BINARY_PATH__"));
}

#[test]
fn plugin_paths() {
    let path = KiloInstaller::plugin_path(Platform::MacOs);
    assert_eq!(path.base, BaseDir::Home);
    assert_eq!(
        path.components,
        vec!["Library", "Application Support", "kilo", "plugins", "git-ai.ts"]
    );
    for platform in [Platform::Windows, Platform::Other] {
        assert_eq!(
            KiloInstaller::plugin_path(platform),
            KiloInstaller::plugin_path(Platform::Linux)
        );
    }
}

#[test]
fn a_dry_run_only_shows_the_change() {
    let change = KiloInstaller.install_hooks("", BINARY, true).unwrap();
    assert!(!change.write);
    let removal = KiloInstaller.uninstall_hooks(Some("old".to_string()), true).unwrap();
    assert_eq!((removal.old_content.as_str(), removal.remove), ("old", false));
}

#[test]
fn removing_the_plugin() {
    assert_eq!(KiloInstaller.uninstall_hooks(None, false), None);
    let removal = KiloInstaller.uninstall_hooks(Some("old".to_string()), false).unwrap();
    assert_eq!((removal.old_content.as_str(), removal.remove), ("old", true));
}

#[test]
fn checks_tell_how_far_the_hooks_are_installed() {
    let result = |tool_installed, hooks_installed, hooks_up_to_date| HookCheckResult {
        tool_installed,
        hooks_installed,
        hooks_up_to_date,
    };
    let check = |s: &HookState| KiloInstaller.check_hooks(s, BINARY);
    let current = KiloInstaller::generate_plugin_content(BINARY);

    let absent = HookState {
        has_binary: false,
        has_global_config: false,
        plugin: Some(current.clone()),
    };
    assert_eq!(check(&absent), result(false, false, false));
    let binary_only = HookState { has_binary: true, has_global_config: false, plugin: None };
    assert_eq!(check(&binary_only), result(true, false, false));
    assert_eq!(check(&state(None)), result(true, false, false));
    assert_eq!(check(&state(Some(String::new()))), result(true, true, false));
    assert_eq!(check(&state(Some(current.clone()))), result(true, true, true));
    assert_eq!(check(&state(Some(format!("\n{}\n\n", current)))), result(true, true, true));
    let elsewhere = KiloInstaller.check_hooks(&state(Some(current)), "/elsewhere");
    assert_eq!(elsewhere, result(true, true, false));
}

#[test]
fn names() {
    assert_eq!(KiloInstaller.name(), "Kilo");
    assert_eq!(KiloInstaller.id(), "kilo");
    assert_eq!(KiloInstaller.process_names(), vec!["kilo", "kilocode"]);
}
