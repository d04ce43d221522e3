use keymapper::Action;
use keymapper::BrightnessDirection;
use keymapper::Config;
use keymapper::IntentSpec;
use keymapper::RuleType;
use keymapper::VolumeDirection;
use keymapper::build_intent_args;
use keymapper::click_emissions;
use keymapper::emit_key_code;
use keymapper::toggle_rule_in_config;

#[test]
fn build_intent_args_should_infer_types() {
    let mut extras = Vec::new();
    extras.push(("my_bool".to_string(), "true".to_string()));
    extras.push(("my_int".to_string(), "123".to_string()));
    extras.push(("my_string".to_string(), "hello".to_string()));

    let intent = IntentSpec {
        action: Some("android.intent.action.VIEW".to_string()),
        package: None,
        class_name: None,
        data: None,
        category: vec![],
        extras: Some(extras),
    };

    let args = build_intent_args(&intent).expect("should return args");

    let check_arg = |flag: &str, key: &str, val: &str| {
        let found = args.windows(3).any(|w| w[0] == flag && w[1] == key && w[2] == val);
        assert!(found, "Expected sequence [{}, {}, {}] not found in args: {:?}", flag, key, val, args);
    };

    check_arg("--ez", "my_bool", "true");
    check_arg("--ei", "my_int", "123");
    check_arg("--es", "my_string", "hello");
}

#[test]
fn intent_with_package_and_class_builds_component() {
    let intent = IntentSpec {
        action: None,
        package: Some("com.example".to_string()),
        class_name: Some(".Main".to_string()),
        data: None,
        category: vec!["android.intent.category.LAUNCHER".to_string()],
        extras: None,
    };
    let args = build_intent_args(&intent).expect("should return args");
    assert_eq!(args[0], "start");
    assert!(args.windows(2).any(|w| w[0] == "-n" && w[1] == "com.example/.Main"));
    assert!(args.windows(2).any(|w| w[0] == "-c" && w[1] == "android.intent.category.LAUNCHER"));
}

#[test]
fn empty_intent_builds_nothing() {
    let intent = IntentSpec {
        action: None,
        package: None,
        class_name: None,
        data: None,
        category: vec![],
        extras: Some(Vec::new()),
    };
    assert!(build_intent_args(&intent).is_none());
}

#[test]
fn direct_emission_codes() {
    assert_eq!(emit_key_code(&Action::SendKey { key_code: 7 }), Some(7));
    assert_eq!(
        emit_key_code(&Action::VolumeControl { direction: VolumeDirection::Up }),
        Some(115)
    );
    assert_eq!(
        emit_key_code(&Action::VolumeControl { direction: VolumeDirection::Down }),
        Some(114)
    );
    assert_eq!(
        emit_key_code(&Action::BrightnessControl { direction: BrightnessDirection::Up }),
        Some(225)
    );
    assert_eq!(
        emit_key_code(&Action::BrightnessControl { direction: BrightnessDirection::Down }),
        Some(224)
    );
    assert_eq!(emit_key_code(&Action::ToggleScreen), Some(223));
    assert_eq!(emit_key_code(&Action::Intercept), None);
    assert_eq!(emit_key_code(&Action::Shell { cmd: "x".to_string() }), None);
}

#[test]
fn multi_tap_plan_balances_presses_and_releases() {
    let plan = click_emissions(&Action::MultiTap { codes: vec![5, 6], interval_ms: 50 });
    assert_eq!(plan, vec![(5, 1), (5, 0), (6, 1), (6, 0)]);
    for code in [5u16, 6u16] {
        let presses = plan.iter().filter(|e| e.0 == code && e.1 == 1).count();
        let releases = plan.iter().filter(|e| e.0 == code && e.1 == 0).count();
        assert_eq!(presses, releases);
    }
}

#[test]
fn compound_plan_skips_nested_compound() {
    let plan = click_emissions(&Action::Macro {
        actions: vec![
            Box::new(Action::SendKey { key_code: 7 }),
            Box::new(Action::Macro {
                actions: vec![Box::new(Action::SendKey { key_code: 8 })],
            }),
            Box::new(Action::ToggleScreen),
        ],
    });
    assert_eq!(plan, vec![(7, 1), (7, 0), (223, 1), (223, 0)]);
}

#[test]
fn intercept_emits_nothing() {
    assert!(click_emissions(&Action::Intercept).is_empty());
    assert!(click_emissions(&Action::Shell { cmd: "ls".to_string() }).is_empty());
}

#[test]
fn toggle_rule_twice_is_a_no_op() {
    let mut cfg = Config::default();
    cfg.rules.push(keymapper::Rule {
        id: "r1".to_string(),
        trigger: "115".to_string(),
        rule_type: RuleType::Click,
        action: Action::SendKey { key_code: 99 },
        enabled: true,
        description: String::new(),
    });
    assert!(toggle_rule_in_config(&mut cfg, "r1"));
    assert!(!cfg.rules[0].enabled);
    assert!(toggle_rule_in_config(&mut cfg, "r1"));
    assert!(cfg.rules[0].enabled);
}

#[test]
fn toggle_missing_rule_reports_not_found() {
    let mut cfg = Config::default();
    assert!(!toggle_rule_in_config(&mut cfg, "nope"));
    assert!(cfg.rules.is_empty());
}
