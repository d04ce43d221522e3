use keymapper::Action;
use keymapper::Config;
use keymapper::ConfigError;
use keymapper::GlobalSettings;
use keymapper::Rule;
use keymapper::RuleType;

fn settings() -> GlobalSettings {
    GlobalSettings {
        long_press_threshold_ms: 800,
        short_press_threshold_ms: 300,
        double_tap_interval_ms: 300,
        combination_timeout_ms: 200,
        enable_haptic: true,
        enable_wakelock: true,
        log_level: "info".to_string(),
        rule_timeout_ms: 5000,
    }
}

fn config_with(rules: Vec<Rule>) -> Config {
    Config {
        device_name: "gpio-keys".to_string(),
        hardware_map: vec![(115, "VOL_UP".to_string()), (114, "VOL_DOWN".to_string())],
        rules,
        settings: settings(),
    }
}

fn rule(id: &str, trigger: &str, rule_type: RuleType) -> Rule {
    Rule {
        id: id.to_string(),
        trigger: trigger.to_string(),
        rule_type,
        action: Action::Intercept,
        enabled: true,
        description: String::new(),
    }
}

#[test]
fn default_configuration_validates() {
    assert!(Config::default().validate().is_ok());
}

#[test]
fn valid_rules_validate() {
    let cfg = config_with(vec![
        rule("a", "115", RuleType::Click),
        rule("b", "VOL_UP", RuleType::LongPress),
        rule("c", "115+114", RuleType::ComboClick),
        rule("d", "VOL_UP + VOL_DOWN", RuleType::ComboShortPress),
    ]);
    assert!(cfg.validate().is_ok());
}

#[test]
fn empty_device_name_is_rejected() {
    let mut cfg = config_with(Vec::new());
    cfg.device_name = "   ".to_string();
    assert!(matches!(cfg.validate(), Err(ConfigError::EmptyDeviceName)));
}

#[test]
fn zero_short_press_is_rejected() {
    let mut cfg = config_with(Vec::new());
    cfg.settings.short_press_threshold_ms = 0;
    assert!(matches!(cfg.validate(), Err(ConfigError::ShortPressZero)));
}

#[test]
fn long_press_below_short_press_is_rejected() {
    let mut cfg = config_with(Vec::new());
    cfg.settings.long_press_threshold_ms = 100;
    assert!(matches!(cfg.validate(), Err(ConfigError::LongPressBelowShortPress)));
}

#[test]
fn zero_double_tap_is_rejected() {
    let mut cfg = config_with(Vec::new());
    cfg.settings.double_tap_interval_ms = 0;
    assert!(matches!(cfg.validate(), Err(ConfigError::DoubleTapZero)));
}

#[test]
fn zero_combination_timeout_is_rejected() {
    let mut cfg = config_with(Vec::new());
    cfg.settings.combination_timeout_ms = 0;
    assert!(matches!(cfg.validate(), Err(ConfigError::CombinationTimeoutZero)));
}

#[test]
fn blank_rule_id_is_rejected() {
    let cfg = config_with(vec![rule(" ", "115", RuleType::Click)]);
    assert!(matches!(cfg.validate(), Err(ConfigError::EmptyRuleId)));
}

#[test]
fn blank_trigger_is_rejected() {
    let cfg = config_with(vec![rule("a", "  ", RuleType::Click)]);
    assert!(matches!(cfg.validate(), Err(ConfigError::EmptyTrigger { .. })));
}

#[test]
fn duplicate_rule_id_is_rejected() {
    let cfg = config_with(vec![
        rule("a", "115", RuleType::Click),
        rule("a", "114", RuleType::Click),
    ]);
    assert!(matches!(cfg.validate(), Err(ConfigError::DuplicateRuleId { .. })));
}

#[test]
fn combo_trigger_with_arrow_is_rejected() {
    let cfg = config_with(vec![rule("a", "115->114", RuleType::ComboClick)]);
    assert!(matches!(cfg.validate(), Err(ConfigError::ComboTriggerArrow { .. })));
}

#[test]
fn combo_trigger_needs_two_keys() {
    let cfg = config_with(vec![rule("a", "115", RuleType::ComboClick)]);
    assert!(matches!(cfg.validate(), Err(ConfigError::ComboTriggerNotTwoKeys { .. })));
    let three = config_with(vec![rule("a", "1+2+3", RuleType::ComboClick)]);
    assert!(matches!(three.validate(), Err(ConfigError::ComboTriggerNotTwoKeys { .. })));
}

#[test]
fn unknown_combo_token_is_rejected() {
    let cfg = config_with(vec![rule("a", "115+POWER", RuleType::ComboClick)]);
    match cfg.validate() {
        Err(ConfigError::UnknownComboToken { id, token }) => {
            assert_eq!(id, "a");
            assert_eq!(token, "POWER");
        }
        other => panic!("expected unknown combo token, got {:?}", other),
    }
}

#[test]
fn identical_combo_keys_are_rejected() {
    let cfg = config_with(vec![rule("a", "115+VOL_UP", RuleType::ComboClick)]);
    assert!(matches!(cfg.validate(), Err(ConfigError::IdenticalComboKeys { .. })));
}

#[test]
fn non_combo_trigger_with_arrow_is_rejected() {
    let cfg = config_with(vec![rule("a", "115->114", RuleType::Click)]);
    assert!(matches!(cfg.validate(), Err(ConfigError::NonComboTriggerArrow { .. })));
}

#[test]
fn non_combo_trigger_with_plus_is_rejected() {
    let cfg = config_with(vec![rule("a", "115+114", RuleType::Click)]);
    assert!(matches!(cfg.validate(), Err(ConfigError::NonComboTriggerPlus { .. })));
}

#[test]
fn unknown_single_token_is_rejected() {
    let cfg = config_with(vec![rule("a", "POWER", RuleType::Click)]);
    match cfg.validate() {
        Err(ConfigError::UnknownTriggerToken { id, token }) => {
            assert_eq!(id, "a");
            assert_eq!(token, "POWER");
        }
        other => panic!("expected unknown trigger token, got {:?}", other),
    }
}

#[test]
fn defaults_match_documented_values() {
    assert_eq!(keymapper::default_long_press_threshold(), 800);
    assert_eq!(keymapper::default_short_press_threshold(), 300);
    assert_eq!(keymapper::default_double_tap_interval(), 300);
    assert_eq!(keymapper::default_combination_timeout(), 200);
    assert_eq!(keymapper::default_tap_interval(), 50);
    assert_eq!(keymapper::default_rule_timeout(), 5000);
    assert!(keymapper::default_true());
    assert_eq!(keymapper::default_log_level(), "info");
    assert_eq!(keymapper::default_multitap_interval_ms(), 50);
    assert_eq!(keymapper::default_combination_timeout_ms(), 200);
    assert_eq!(keymapper::default_rule_timeout_ms(), 5000);
    assert_eq!(keymapper::default_condition_logic(), "and");
    assert!(keymapper::default_true_bool());
}
