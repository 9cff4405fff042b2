use claude_sdk_verified::commands::{resolve_session, InteractiveError, RunCommand, SessionRequest};
use claude_sdk_verified::config::{
    prompt_preview, setting_message, AnalyticsSettings, Config, ConfigAction, OutputSettings,
    SessionDefaults,
};
use claude_sdk_verified::session::{
    uuid_string, JsonFileStorage, SessionConfig, SessionManager, StorageConfig,
};
use claude_sdk_verified::string_map::StringMap;
use std::path::PathBuf;

fn sample_config() -> Config {
    Config {
        timeout_secs: 30,
        verbose: false,
        quiet: false,
        data_dir: None,
        session: SessionDefaults { model: None, system_prompt: None, allowed_tools: None },
        output: OutputSettings { color: true, progress: true, format: "text".to_string() },
        analytics: AnalyticsSettings { enabled: true, retention_days: 30 },
    }
}

fn invalid_input(r: Result<(), InteractiveError>) -> String {
    match r {
        Err(InteractiveError::InvalidInput(m)) => m,
        _ => panic!("expected an invalid input"),
    }
}

#[test]
fn config_set_changes_one_setting() {
    let mut c = sample_config();
    c.set("timeout_secs", "60").unwrap();
    assert_eq!(c.timeout_secs, 60);
    c.set("timeout_secs", "+7").unwrap();
    assert_eq!(c.timeout_secs, 7);
    c.set("verbose", "true").unwrap();
    assert!(c.verbose);
    c.set("output.color", "false").unwrap();
    assert!(!c.output.color);
    c.set("session.model", "large-model-3").unwrap();
    assert_eq!(c.session.model, Some("large-model-3".to_string()));
    c.set("output.format", "json").unwrap();
    assert_eq!(c.output.format, "json");
    c.set("analytics.enabled", "false").unwrap();
    assert!(!c.analytics.enabled);
}

#[test]
fn config_set_refuses_bad_values_and_keys() {
    let mut c = sample_config();
    assert_eq!(invalid_input(c.set("timeout_secs", "-5")), "Invalid timeout value");
    assert_eq!(invalid_input(c.set("timeout_secs", "18446744073709551616")), "Invalid timeout value");
    assert_eq!(invalid_input(c.set("timeout_secs", "")), "Invalid timeout value");
    assert_eq!(c.timeout_secs, 30);
    assert_eq!(
        invalid_input(c.set("quiet", "yes")),
        "Invalid boolean value (use true/false)"
    );
    assert_eq!(invalid_input(c.set("colour", "true")), "Unknown config key: colour");
    c.set("timeout_secs", "18446744073709551615").unwrap();
    assert_eq!(c.timeout_secs, u64::MAX);
}

#[test]
fn config_messages_and_previews() {
    assert_eq!(setting_message("verbose", "true"), "✓ Set verbose = true");
    assert!(ConfigAction::Reset { force: false }.needs_confirmation());
    assert!(!ConfigAction::Reset { force: true }.needs_confirmation());
    assert_eq!(prompt_preview("short prompt"), "short prompt");
    let long = "p".repeat(80);
    assert_eq!(prompt_preview(&long), format!("{}...", "p".repeat(50)));
}

#[test]
fn session_config_defaults() {
    let c = SessionConfig::default();
    assert!(c.working_dir.is_none());
    assert!(c.env_vars.is_empty());
    assert_eq!(c.default_timeout, Some(60));
    assert!(!c.verbose);
}

#[test]
fn json_file_storage_keeps_its_directory() {
    let config = StorageConfig { base_dir: PathBuf::from("/tmp/sessions"), compress: false };
    let storage = JsonFileStorage::new(config).unwrap();
    assert_eq!(storage.storage_dir(), PathBuf::from("/tmp/sessions"));
}

#[test]
fn test_create_session() {
    let mut manager = SessionManager::new(PathBuf::from("/tmp/data"));
    let id = manager.create_session("test-session".to_string(), None);
    let session = manager.get_session(id).unwrap();
    assert_eq!(session.name, "test-session");
    assert!(session.description.is_none());
    assert_eq!(session.config.default_timeout, Some(60));
}

#[test]
fn test_get_session_by_name() {
    let mut manager = SessionManager::new(PathBuf::from("/tmp/data"));
    manager.create_session("test-session".to_string(), None);
    let session = manager.get_session_by_name("test-session").unwrap();
    assert_eq!(session.name, "test-session");
    assert!(manager.get_session_by_name("nonexistent").is_none());
}

#[test]
fn test_list_sessions() {
    let mut manager = SessionManager::new(PathBuf::from("/tmp/data"));
    manager.create_session("session1".to_string(), None);
    manager.create_session("session2".to_string(), None);
    let sessions = manager.sessions();
    assert_eq!(sessions.len(), 2);
    let names: Vec<&str> = sessions.iter().map(|s| s.name.as_str()).collect();
    assert!(names.contains(&"session1"));
    assert!(names.contains(&"session2"));
}

#[test]
fn test_delete_session() {
    let mut manager = SessionManager::new(PathBuf::from("/tmp/data"));
    let id = manager.create_session("test-session".to_string(), None);
    assert!(manager.delete_session(id));
    assert!(manager.get_session(id).is_none());
    assert!(!manager.delete_session(id));
}

#[test]
fn test_update_session_metadata() {
    let mut manager = SessionManager::new(PathBuf::from("/tmp/data"));
    let id = manager.create_session("test-session".to_string(), None);
    manager.update_session_metadata(id, "key1".to_string(), "value1".to_string());
    let session = manager.get_session(id).unwrap();
    assert_eq!(session.metadata.get("key1"), Some(&"value1".to_string()));
    manager.update_session_metadata(id, "key1".to_string(), "value2".to_string());
    assert_eq!(manager.get_session(id).unwrap().metadata.get("key1"), Some(&"value2".to_string()));
}

#[test]
fn switching_makes_a_session_current() {
    let mut manager = SessionManager::new(PathBuf::from("/tmp/data"));
    assert!(manager.current_session_id().is_none());
    let a = manager.create_session("a".to_string(), None);
    let b = manager.create_session("b".to_string(), None);
    manager.touch_at(a, i64::MAX - 1);
    assert_eq!(manager.current_session_id(), Some(a));
    manager.touch_at(b, i64::MAX);
    assert_eq!(manager.current_session_id(), Some(b));
}

#[test]
fn session_ids_print_as_uuids() {
    let id: u128 = 0x0123_4567_89ab_cdef_0011_2233_4455_6677;
    assert_eq!(uuid_string(id), "01234567-89ab-cdef-0011-223344556677");
    assert_eq!(uuid_string(id), uuid::Uuid::from_u128(id).to_string());
    assert_eq!(uuid_string(0), "00000000-0000-0000-0000-000000000000");
}

#[test]
fn string_maps_compare_by_content() {
    let mut a = StringMap::new();
    a.insert("x".to_string(), "1".to_string());
    a.insert("y".to_string(), "2".to_string());
    let mut b = StringMap::new();
    b.insert("y".to_string(), "2".to_string());
    b.insert("x".to_string(), "1".to_string());
    assert!(a.same_as(&b));
    b.insert("x".to_string(), "3".to_string());
    assert!(!a.same_as(&b));
    assert_eq!(b.get("x"), Some(&"3".to_string()));
    assert_eq!(b.get("z"), None);
}

#[test]
fn a_session_is_found_by_its_id_or_its_name() {
    let mut manager = SessionManager::new(PathBuf::from("/tmp/data"));
    let a = manager.create_session("alpha".to_string(), None);
    let b = manager.create_session("beta".to_string(), None);
    assert_eq!(manager.find_by_name_or_id(&uuid_string(a)), Some(a));
    assert_eq!(manager.find_by_name_or_id("beta"), Some(b));
    assert_eq!(manager.find_by_name_or_id("gamma"), None);
    // The id text is no session's name, so a name lookup alone misses it.
    assert_eq!(manager.find_by_name(&uuid_string(a)), None);
    // An id match wins over a session whose name is that id's text.
    let c = manager.create_session(uuid_string(a), None);
    assert_ne!(c, a);
    assert_eq!(manager.find_by_name_or_id(&uuid_string(a)), Some(a));
}

#[test]
fn a_new_session_has_the_default_configuration() {
    let mut manager = SessionManager::new(PathBuf::from("/tmp/data"));
    let id = manager.create_session("defaults".to_string(), None);
    let session = manager.get_session(id).unwrap();
    assert!(session.config.working_dir.is_none());
    assert!(session.config.env_vars.is_empty());
    assert_eq!(session.config.default_timeout, Some(60));
    assert!(!session.config.verbose);
}

#[test]
fn a_run_resolves_its_session() {
    let mut manager = SessionManager::new(PathBuf::from("/tmp/data"));
    let run = RunCommand { command: "analyze".to_string(), args: vec![], session: None, parallel: false, agents: 1 };
    // No session yet: a default one is created.
    let id = resolve_session(&run.session_request(), &mut manager).unwrap();
    assert_eq!(manager.sessions().len(), 1);
    let made = manager.get_session(id).unwrap();
    assert_eq!(made.name, "default");
    assert_eq!(made.description.as_deref(), Some("Default session created automatically"));
    // Now the current session is used, and nothing is created.
    assert_eq!(resolve_session(&run.session_request(), &mut manager).unwrap(), id);
    assert_eq!(manager.sessions().len(), 1);
    // A named session is found by name; a missing one is an error.
    let work = manager.create_session("work".to_string(), None);
    assert_eq!(resolve_session(&SessionRequest::Named("work".to_string()), &mut manager).unwrap(), work);
    match resolve_session(&SessionRequest::Named("nope".to_string()), &mut manager) {
        Err(InteractiveError::SessionNotFound(n)) => assert_eq!(n, "nope"),
        _ => panic!("expected session not found"),
    }
}
