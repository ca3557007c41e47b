use tik::config::Config;
use tik::config::ConfigUpdate;
use tik::config::SessionConfig;
use tik::config::config_key_to_preset;
use tik::config::validate_set_value;
use tik::duration::Duration;
use tik::InputResolution;
use tik::resolve_input;

#[test]
fn defaults_include_pomodoro() {
    let config = Config {
        presets: Config::defaults(),
        sessions: Vec::new(),
    };
    assert_eq!(config.resolve_preset("pomodoro").unwrap(), "25m");
}

#[test]
fn defaults_include_break() {
    let config = Config {
        presets: Config::defaults(),
        sessions: Vec::new(),
    };
    assert_eq!(config.resolve_preset("break").unwrap(), "5m");
}

#[test]
fn defaults_include_long_break() {
    let config = Config {
        presets: Config::defaults(),
        sessions: Vec::new(),
    };
    assert_eq!(config.resolve_preset("long-break").unwrap(), "15m");
}

#[test]
fn resolve_preset_found() {
    let mut config = Config::default();
    config
        .presets
        .push(("pomodoro".to_string(), "25m".to_string()));
    assert_eq!(config.resolve_preset("pomodoro"), Some("25m"));
}

#[test]
fn resolve_preset_not_found() {
    let config = Config::default();
    assert_eq!(config.resolve_preset("nonexistent"), None);
}

#[test]
fn default_sessions_include_pomodoro() {
    let config = Config::builtin();
    let session = config.resolve_session("pomodoro");
    assert!(session.is_some());
    let session = session.unwrap();
    assert_eq!(session.work, "pomodoro");
    assert_eq!(session.break_preset, "break");
    assert_eq!(session.long_break, "long-break");
    assert_eq!(session.rounds, 4);
}

#[test]
fn resolve_session_not_found() {
    let config = Config::default();
    assert!(config.resolve_session("nonexistent").is_none());
}

#[test]
fn config_key_to_preset_mapping() {
    assert_eq!(config_key_to_preset("work"), Some("pomodoro"));
    assert_eq!(config_key_to_preset("break"), Some("break"));
    assert_eq!(config_key_to_preset("long-break"), Some("long-break"));
    assert_eq!(config_key_to_preset("rounds"), None);
    assert_eq!(config_key_to_preset("invalid"), None);
}

#[test]
fn set_preset_overrides_existing() {
    let mut config = Config::builtin();
    config.set_preset("pomodoro".to_string(), "30m".to_string());
    assert_eq!(config.resolve_preset("pomodoro"), Some("30m"));
    assert_eq!(config.resolve_preset("break"), Some("5m"));
}

#[test]
fn set_preset_appends_new_name() {
    let mut config = Config::builtin();
    config.set_preset("focus".to_string(), "50m".to_string());
    assert_eq!(config.resolve_preset("focus"), Some("50m"));
    assert_eq!(config.resolve_preset("pomodoro"), Some("25m"));
}

#[test]
fn set_session_overrides_existing() {
    let mut config = Config::builtin();
    config.set_session(
        "pomodoro".to_string(),
        SessionConfig {
            work: "focus".to_string(),
            break_preset: "rest".to_string(),
            long_break: "rest".to_string(),
            rounds: 3,
        },
    );
    let session = config.resolve_session("pomodoro").unwrap();
    assert_eq!(session.work, "focus");
    assert_eq!(session.rounds, 3);
}

#[test]
fn validate_rounds_value() {
    match validate_set_value("rounds", "6") {
        Ok(ConfigUpdate::Rounds(n)) => assert_eq!(n, 6),
        other => panic!("unexpected: {:?}", other),
    }
}

#[test]
fn validate_rounds_zero_rejected() {
    assert!(validate_set_value("rounds", "0").is_err());
}

#[test]
fn validate_rounds_garbage_rejected() {
    assert!(validate_set_value("rounds", "abc").is_err());
    assert!(validate_set_value("rounds", "").is_err());
}

#[test]
fn validate_preset_value() {
    match validate_set_value("work", "30m") {
        Ok(ConfigUpdate::Preset { name, value }) => {
            assert_eq!(name, "pomodoro");
            assert_eq!(value, "30m");
        }
        other => panic!("unexpected: {:?}", other),
    }
}

#[test]
fn validate_preset_bad_duration_rejected() {
    assert!(validate_set_value("work", "soon").is_err());
    assert!(validate_set_value("break", "0s").is_err());
}

#[test]
fn validate_unknown_key_rejected() {
    assert!(validate_set_value("colour", "25m").is_err());
}

#[test]
fn resolve_input_prefers_session() {
    let config = Config::builtin();
    match resolve_input(&config, "pomodoro") {
        InputResolution::Session(sc) => assert_eq!(sc.rounds, 4),
        other => panic!("unexpected: {:?}", other),
    }
}

#[test]
fn resolve_input_parses_duration() {
    let config = Config::builtin();
    match resolve_input(&config, "25m") {
        InputResolution::Timer { name, duration } => {
            assert_eq!(name, "25m");
            assert_eq!(duration, Duration { total_secs: 1500 });
        }
        other => panic!("unexpected: {:?}", other),
    }
}

#[test]
fn resolve_input_falls_back_to_preset() {
    let config = Config {
        presets: Config::defaults(),
        sessions: Vec::new(),
    };
    match resolve_input(&config, "pomodoro") {
        InputResolution::Timer { name, duration } => {
            assert_eq!(name, "pomodoro");
            assert_eq!(duration.total_secs, 1500);
        }
        other => panic!("unexpected: {:?}", other),
    }
}

#[test]
fn resolve_input_unknown() {
    let config = Config::builtin();
    match resolve_input(&config, "definitely-not-a-thing") {
        InputResolution::Unknown => {}
        other => panic!("unexpected: {:?}", other),
    }
}

#[test]
fn resolve_input_reports_bad_preset_duration() {
    let mut config = Config::default();
    config
        .presets
        .push(("focus".to_string(), "soon".to_string()));
    match resolve_input(&config, "focus") {
        InputResolution::InvalidPresetDuration(e) => {
            assert_eq!(e, "Invalid duration format: 'soon'");
        }
        other => panic!("unexpected: {:?}", other),
    }
}
