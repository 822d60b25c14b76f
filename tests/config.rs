use rime_ls::config::{
    default_always_incomplete, default_enabled, default_max_candidates, default_max_tokens,
    default_paging_characters, default_schema_trigger_character, default_shared_data_dir,
    default_trigger_characters, Config, Settings,
};

#[test]
fn test_default_config() {
    let config = Config::with_dirs("/data".to_string(), "/log".to_string());
    assert_eq!(config.enabled, default_enabled());
    assert_eq!(config.shared_data_dir, default_shared_data_dir());
    assert_eq!(config.user_data_dir, "/data");
    assert_eq!(config.log_dir, "/log");
    assert_eq!(config.max_candidates, default_max_candidates());
    assert_eq!(config.trigger_characters, default_trigger_characters());
    assert_eq!(
        config.schema_trigger_character,
        default_schema_trigger_character()
    );
    assert_eq!(config.always_incomplete, default_always_incomplete());
    assert_eq!(config.max_tokens, default_max_tokens());
    assert_eq!(config.paging_characters, vec!["-", "=", ",", "."]);
    assert_eq!(default_paging_characters(), vec!["-", "=", ",", "."]);
}

#[test]
fn test_apply_settings() {
    let mut config = Config::with_dirs(String::new(), String::new());
    let settings: Settings = Settings {
        enabled: Some(false),
        max_candidates: Some(100),
        paging_characters: Some(vec![",".to_string(), ".".to_string()]),
        trigger_characters: Some(vec!["foo".to_string()]),
        schema_trigger_character: Some(String::from("bar")),
        max_tokens: None,
        always_incomplete: None,
        preselect_first: None,
        long_filter_text: None,
        show_filter_text_in_label: None,
        show_order_in_label: None,
    };
    let mut test_val = vec!["baz".to_string()];
    let triggers_changed = config.apply_settings(settings);
    if triggers_changed {
        test_val = config.trigger_characters.clone();
    }
    assert_eq!(config.enabled, false);
    assert_eq!(config.max_candidates, 100);
    assert_eq!(
        config.paging_characters,
        vec![",".to_string(), ".".to_string()]
    );
    assert_eq!(config.trigger_characters, vec!["foo".to_string()]);
    assert_eq!(config.schema_trigger_character, String::from("bar"));
    assert_eq!(test_val, vec!["foo".to_string()]);
    assert_eq!(config.max_tokens, 0);
    assert!(config.show_order_in_label);
}

#[test]
fn absent_settings_change_nothing() {
    let mut config = Config::with_dirs(String::new(), String::new());
    let settings = Settings {
        enabled: None,
        max_candidates: None,
        paging_characters: None,
        trigger_characters: None,
        schema_trigger_character: None,
        max_tokens: Some(4),
        always_incomplete: Some(true),
        preselect_first: Some(true),
        long_filter_text: Some(true),
        show_filter_text_in_label: Some(true),
        show_order_in_label: Some(false),
    };
    assert!(!config.apply_settings(settings));
    assert!(config.enabled);
    assert_eq!(config.max_candidates, 10);
    assert_eq!(config.max_tokens, 4);
    assert!(config.always_incomplete && config.preselect_first && config.long_filter_text);
    assert!(config.show_filter_text_in_label && !config.show_order_in_label);
}

#[test]
fn completion_triggers_are_paging_then_trigger_characters() {
    let mut config = Config::with_dirs(String::new(), String::new());
    config.trigger_characters = vec![">".to_string()];
    assert_eq!(config.completion_triggers(), vec!["-", "=", ",", ".", ">"]);
}
