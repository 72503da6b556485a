use envsafe_cli::config::{Config, ConfigError, ProjectConfig};
use envsafe_cli::i18n::get_translations;

#[test]
fn test_config_default() {
    let config = Config::default();
    assert_eq!(config.api_url, "https://www.envsafe.dev");
    assert_eq!(config.dashboard_url, "https://www.envsafe.dev");
    assert_eq!(config.language, "en");
    assert!(config.token.is_none());
    assert!(config.current_workspace.is_none());
    assert!(config.current_project.is_none());
}

#[test]
fn test_config_set_language() {
    let mut config = Config::default();
    assert_eq!(config.language, "en");

    config.language = "fr".to_string();
    assert_eq!(config.language, "fr");
}

#[test]
fn set_language_changes_only_language() {
    let mut config = Config::default();
    config.set_language("fr");
    assert_eq!(config.language, "fr");
    assert_eq!(config.api_url, "https://www.envsafe.dev");
}

#[test]
fn token_round_trip() {
    let mut config = Config::default();
    assert_eq!(config.get_token(), Err(ConfigError::NotLoggedIn));
    config.set_token("abc".to_string());
    assert_eq!(config.get_token(), Ok("abc".to_string()));
    config.clear_token();
    assert_eq!(config.get_token(), Err(ConfigError::NotLoggedIn));
}

#[test]
fn workspace_slug_falls_back_to_id() {
    let mut config = Config::default();
    assert_eq!(config.get_workspace_slug(), Err(ConfigError::NoWorkspace));
    config.set_workspace("ws1", None);
    assert_eq!(config.get_workspace_slug(), Ok("ws1".to_string()));
    config.set_workspace("ws1", Some("team"));
    assert_eq!(config.get_workspace_slug(), Ok("team".to_string()));
    config.set_project("p1", Some("proj"));
    assert_eq!(config.current_project, Some("p1".to_string()));
    assert_eq!(config.current_project_slug, Some("proj".to_string()));
}

#[test]
fn project_ref_prefers_slug() {
    let mut c = ProjectConfig {
        workspace_id: "ws1".to_string(),
        project_id: "proj1".to_string(),
        project_name: "Old Project".to_string(),
        project_slug: None,
    };
    assert_eq!(c.project_ref(), "proj1");
    c.project_slug = Some("test-project".to_string());
    assert_eq!(c.project_ref(), "test-project");
}

#[test]
fn translations_follow_language() {
    assert_eq!(get_translations("fr").logout.success, "Déconnexion réussie");
    assert_eq!(get_translations("fr").whoami.name, "  Nom : {}");
    assert_eq!(get_translations("en").logout.success, "Successfully logged out");
    assert_eq!(get_translations("de").run.executing, "Executing command with injected variables...");
}
