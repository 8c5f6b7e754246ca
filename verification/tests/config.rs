use obx::commands::browse;
use obx::commands::browse::BrowseCommand;
use obx::commands::browse::BrowseDecision;
use obx::commands::config;
use obx::commands::config::Config;
use obx::commands::config::ConfigAction;
use obx::commands::config::ConfigCommand;
use obx::commands::config::PrintFormats;
use obx::commands::config::SetArgs;
use obx::commands::config::Subcommands;
use obx::theme::ThemeName;

fn base_config() -> Config {
    Config { editor: None, theme: ThemeName::ObsidianDark }
}

#[test]
fn set_without_changes_is_noop() {
    let args = SetArgs { editor: None, theme: None, clear_editor: false };
    let (updated, message) = config::set(args, base_config());
    assert!(updated.is_none());
    assert_eq!(message, "Nothing to update");
}

#[test]
fn set_editor_updates_config() {
    let args = SetArgs {
        editor: Some("/usr/bin/nvim".to_string()),
        theme: None,
        clear_editor: false,
    };
    let (updated, message) = config::set(args, base_config());
    assert_eq!(message, "Configuration updated");
    let c = updated.expect("expected editor to be set in config");
    assert_eq!(c.editor.as_deref(), Some("/usr/bin/nvim"));
    assert_eq!(c.theme, ThemeName::ObsidianDark);
}

#[test]
fn set_theme_updates_config() {
    let args = SetArgs { editor: None, theme: Some(ThemeName::GruvboxDark), clear_editor: false };
    let (updated, message) = config::set(args, base_config());
    assert_eq!(message, "Configuration updated");
    let c = updated.expect("expected theme to be persisted");
    assert_eq!(c.theme, ThemeName::GruvboxDark);
    assert!(c.editor.is_none());
}

#[test]
fn clear_editor_removes_setting() {
    let set_args = SetArgs { editor: Some("nvim".to_string()), theme: None, clear_editor: false };
    let (updated, message) = config::set(set_args, base_config());
    assert_eq!(message, "Configuration updated");
    let with_editor = updated.unwrap();
    assert_eq!(with_editor.editor.as_deref(), Some("nvim"));

    let clear_args = SetArgs { editor: None, theme: None, clear_editor: true };
    let (cleared, message) = config::set(clear_args, with_editor);
    assert_eq!(message, "Configuration updated");
    assert!(cleared.unwrap().editor.is_none());
}

#[test]
fn config_entry_dispatches() {
    let cmd = ConfigCommand { command: Some(Subcommands::Print(PrintFormats::Json)) };
    assert!(matches!(config::entry(cmd), ConfigAction::Print(PrintFormats::Json)));
    let cmd = ConfigCommand { command: Some(Subcommands::Path) };
    assert!(matches!(config::entry(cmd), ConfigAction::ShowPath));
    let args = SetArgs { editor: None, theme: None, clear_editor: true };
    let cmd = ConfigCommand { command: Some(Subcommands::Update(args)) };
    match config::entry(cmd) {
        ConfigAction::Apply(a) => assert!(a.clear_editor),
        _ => panic!("expected an update action"),
    }
}

#[test]
fn browse_requires_an_interactive_terminal() {
    let cmd = BrowseCommand { vault: Some("work".to_string()) };
    match browse::entry(&cmd, true) {
        BrowseDecision::Launch(v) => assert_eq!(v.as_deref(), Some("work")),
        _ => panic!("expected a launch"),
    }
    match browse::entry(&cmd, false) {
        BrowseDecision::Reject(m) => {
            assert_eq!(m, "browse requires an interactive terminal")
        },
        _ => panic!("expected a rejection"),
    }
}
