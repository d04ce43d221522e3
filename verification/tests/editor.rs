use keymapper::Action;
use keymapper::Config;
use keymapper::RuleType;
use keymapper::SaveError;
use keymapper::WebUiActionDto;
use keymapper::WebUiConditionDto;
use keymapper::WebUiConfigDto;
use keymapper::WebUiRuleDto;
use keymapper::action_to_dto_list;
use keymapper::apply_webui_dto;
use keymapper::condition_from_rule;
use keymapper::condition_to_trigger;
use keymapper::config_to_webui_dto;
use keymapper::dto_list_to_action;

fn name_map() -> Vec<(u16, String)> {
    vec![(115, "VOL_UP".to_string()), (114, "VOL_DOWN".to_string())]
}

#[test]
fn condition_conversion_combo_roundtrip() {
    let map = name_map();

    let trigger = "115+114";
    let rule_type = RuleType::ComboShortPress;
    let dto = condition_from_rule(trigger, rule_type, &map);

    match dto {
        WebUiConditionDto::KeyEvent { key_code, combo_key_code, behavior } => {
            assert_eq!(key_code, Some(115));
            assert_eq!(combo_key_code, Some(114));
            assert!(behavior.is_combo());
        }
    }

    let (out_trigger, out_type) = condition_to_trigger(&dto).expect("conversion failed");
    assert_eq!(out_trigger, "115+114");
    assert_eq!(out_type, RuleType::ComboShortPress);
}

#[test]
fn condition_conversion_single_roundtrip() {
    let map: Vec<(u16, String)> = Vec::new();
    let trigger = "115";
    let rule_type = RuleType::LongPress;
    let dto = condition_from_rule(trigger, rule_type, &map);

    match dto {
        WebUiConditionDto::KeyEvent { key_code, combo_key_code, behavior } => {
            assert_eq!(key_code, Some(115));
            assert_eq!(combo_key_code, None);
            assert!(!behavior.is_combo());
        }
    }

    let (out_trigger, out_type) = condition_to_trigger(&dto).expect("conversion failed");
    assert_eq!(out_trigger, "115");
    assert_eq!(out_type, RuleType::LongPress);
}

#[test]
fn action_list_macro_roundtrip() {
    let original = Action::Macro {
        actions: vec![
            Box::new(Action::SendKey { key_code: 1 }),
            Box::new(Action::SendKey { key_code: 2 }),
        ],
    };

    let dtos = action_to_dto_list(&original);
    assert_eq!(dtos.len(), 2);

    let restored = dto_list_to_action(dtos).expect("conversion failed");
    match restored {
        Action::Macro { actions } => {
            assert_eq!(actions.len(), 2);
            match &*actions[0] {
                Action::SendKey { key_code } => assert_eq!(*key_code, 1),
                _ => panic!("wrong action type"),
            }
        }
        _ => panic!("expected macro"),
    }
}

#[test]
fn action_list_single_unwrap() {
    let original = Action::SendKey { key_code: 42 };
    let dtos = action_to_dto_list(&original);
    assert_eq!(dtos.len(), 1);

    let restored = dto_list_to_action(dtos).expect("conversion failed");
    match restored {
        Action::SendKey { key_code } => assert_eq!(key_code, 42),
        _ => panic!("should unwrap to single action"),
    }
}

#[test]
fn symbolic_condition_resolves_names() {
    let map = name_map();
    let dto = condition_from_rule("VOL_UP + VOL_DOWN", RuleType::ComboClick, &map);
    match dto {
        WebUiConditionDto::KeyEvent { key_code, combo_key_code, .. } => {
            assert_eq!(key_code, Some(115));
            assert_eq!(combo_key_code, Some(114));
        }
    }
}

fn dto_rule(id: Option<&str>, cond: WebUiConditionDto, actions: Vec<WebUiActionDto>) -> WebUiRuleDto {
    WebUiRuleDto {
        id: id.map(|s| s.to_string()),
        enabled: true,
        description: String::new(),
        condition_logic: "and".to_string(),
        conditions: vec![cond],
        actions,
    }
}

fn base_dto(rules: Vec<WebUiRuleDto>) -> WebUiConfigDto {
    WebUiConfigDto {
        version: 1,
        device_name: "gpio-keys".to_string(),
        hardware_map: name_map(),
        double_press_interval_ms: 300,
        long_press_min_ms: 800,
        short_press_min_ms: 300,
        combination_timeout_ms: 200,
        rule_timeout_ms: 5000,
        rules,
    }
}

fn key_cond(code: u16) -> WebUiConditionDto {
    WebUiConditionDto::KeyEvent {
        key_code: Some(code),
        combo_key_code: None,
        behavior: keymapper::WebUiBehaviorDto::Click,
    }
}

#[test]
fn apply_accepts_valid_document() {
    let base = Config::default();
    let dto = base_dto(vec![dto_rule(
        Some("r1"),
        key_cond(115),
        vec![WebUiActionDto::SendKey { key_code: 99 }],
    )]);
    let cfg = apply_webui_dto(&base, dto).expect("should apply");
    assert_eq!(cfg.rules.len(), 1);
    assert_eq!(cfg.rules[0].id, "r1");
    assert_eq!(cfg.rules[0].trigger, "115");
    assert_eq!(cfg.rules[0].rule_type, RuleType::Click);
    assert!(matches!(cfg.rules[0].action, Action::SendKey { key_code: 99 }));
    assert_eq!(cfg.settings.long_press_threshold_ms, 800);
}

#[test]
fn apply_generates_id_when_blank() {
    let base = Config::default();
    let dto = base_dto(vec![dto_rule(
        Some("   "),
        key_cond(115),
        vec![WebUiActionDto::SendKey { key_code: 99 }],
    )]);
    let cfg = apply_webui_dto(&base, dto).expect("should apply");
    // a fresh 36-character id plus the separator and the trigger text
    assert_eq!(cfg.rules[0].id.len(), 36 + 1 + 3);
    assert!(cfg.rules[0].id.ends_with("_115"));
}

#[test]
fn apply_rejects_wrong_version() {
    let base = Config::default();
    let mut dto = base_dto(Vec::new());
    dto.version = 2;
    match apply_webui_dto(&base, dto) {
        Err(SaveError::UnsupportedVersion { version }) => assert_eq!(version, 2),
        _ => panic!("expected version rejection"),
    }
}

#[test]
fn apply_rejects_missing_key_code() {
    let base = Config::default();
    let cond = WebUiConditionDto::KeyEvent {
        key_code: None,
        combo_key_code: None,
        behavior: keymapper::WebUiBehaviorDto::Click,
    };
    let dto = base_dto(vec![dto_rule(
        Some("r1"),
        cond,
        vec![WebUiActionDto::SendKey { key_code: 99 }],
    )]);
    assert!(matches!(
        apply_webui_dto(&base, dto),
        Err(SaveError::BadCondition { rule: 0, .. })
    ));
}

#[test]
fn apply_rejects_empty_action_list() {
    let base = Config::default();
    let dto = base_dto(vec![dto_rule(Some("r1"), key_cond(115), Vec::new())]);
    assert!(matches!(apply_webui_dto(&base, dto), Err(SaveError::NoActions { rule: 0 })));
}

#[test]
fn apply_rejects_document_that_fails_validation() {
    let base = Config::default();
    let mut dto = base_dto(vec![dto_rule(
        Some("r1"),
        key_cond(115),
        vec![WebUiActionDto::SendKey { key_code: 99 }],
    )]);
    dto.short_press_min_ms = 0;
    assert!(matches!(apply_webui_dto(&base, dto), Err(SaveError::Invalid { .. })));
}

#[test]
fn document_reflects_configuration() {
    let mut cfg = Config::default();
    cfg.rules.push(keymapper::Rule {
        id: "r1".to_string(),
        trigger: "VOL_UP".to_string(),
        rule_type: RuleType::Click,
        action: Action::SendKey { key_code: 99 },
        enabled: true,
        description: "d".to_string(),
    });
    let dto = config_to_webui_dto(&cfg);
    assert_eq!(dto.version, 1);
    assert_eq!(dto.device_name, "gpio-keys");
    assert_eq!(dto.long_press_min_ms, 800);
    assert_eq!(dto.rules.len(), 1);
    assert_eq!(dto.rules[0].id.as_deref(), Some("r1"));
    match dto.rules[0].conditions[0] {
        WebUiConditionDto::KeyEvent { key_code, .. } => assert_eq!(key_code, Some(115)),
    }
    assert_eq!(dto.rules[0].actions.len(), 1);
}
