use balance_overlay::config::{Config, Mode};

#[test]
fn defaults_are_as_documented() {
    let c = Config::default();
    assert_eq!(c.deepseek_token, "");
    assert_eq!(c.openrouter_token, "");
    assert_eq!(c.proxyapi_token, "");
    assert!(c.show_system);
    assert_eq!(c.start_mode, "system");
    assert_eq!(c.refresh_interval_secs, 60);
    assert_eq!(c.font_name, "Consolas");
    assert_eq!(c.font_size, 18);
    assert!(c.font_bold);
    assert_eq!(c.text_color, "FFFFFF");
    assert_eq!(c.outline_color, "000000");
    assert_eq!(c.outline_width, 1);
    assert_eq!(c.meter_color, "FFFFFF");
    assert_eq!(c.meter_width, 120);
    assert_eq!(c.opacity, 200);
    assert_eq!((c.pos_x, c.pos_y), (10, 10));
}

#[test]
fn a_missing_file_is_created_from_defaults() {
    let loaded = Config::load_or_create(None);
    assert!(loaded.save);
    assert_eq!(loaded.warning, None);
    assert_eq!(loaded.config.font_size, 18);
}

#[test]
fn an_existing_file_is_never_written() {
    let mut mine = Config::default();
    mine.deepseek_token = "sk-mine".to_string();
    let loaded = Config::load_or_create(Some(Ok(mine)));
    assert!(!loaded.save);
    assert_eq!(loaded.warning, None);
    assert_eq!(loaded.config.deepseek_token, "sk-mine");

    let loaded = Config::load_or_create(Some(Err("bad TOML".to_string())));
    assert!(!loaded.save);
    assert_eq!(
        loaded.warning,
        Some("Config unusable: bad TOML. Running on defaults, file kept.".to_string())
    );
    assert_eq!(loaded.config.opacity, 200);
    assert_eq!(Config::save_warning("read-only"), "Failed to save default config: read-only");
}

#[test]
fn anything_but_balances_reads_as_system() {
    assert_eq!(Mode::from_key("balances"), Mode::Balances);
    for key in ["system", "", "Balances", " balances", "both"] {
        assert_eq!(Mode::from_key(key), Mode::System);
    }
    assert_eq!(Mode::System.switched(), Mode::Balances);
    assert_eq!(Mode::System.switched().switched(), Mode::System);
}
