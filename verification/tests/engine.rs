use keymapper::Action;
use keymapper::Rule;
use keymapper::RuleType;
use keymapper::StateMachine;

fn hw_map() -> Vec<(u16, String)> {
    vec![(114, "VOL_DOWN".to_string()), (115, "VOL_UP".to_string())]
}

fn rule(id: &str, trigger: &str, rule_type: RuleType, action: Action) -> Rule {
    Rule {
        id: id.to_string(),
        trigger: trigger.to_string(),
        rule_type,
        action,
        enabled: true,
        description: String::new(),
    }
}

fn machine(rules: Vec<Rule>) -> StateMachine {
    StateMachine::new(rules, hw_map(), 800, 300, 300, 200)
}

#[test]
fn click_rule_fires_once_on_quick_release() {
    let rules = vec![rule("a", "115", RuleType::Click, Action::SendKey { key_code: 100 })];
    let mut sm = machine(rules);
    assert!(sm.handle_key_at(115, 1, 0).is_empty());
    let acts = sm.handle_key_at(115, 0, 50);
    assert_eq!(acts.len(), 1);
    assert!(matches!(acts[0], Action::SendKey { key_code: 100 }));
}

#[test]
fn double_click_suppresses_single_click() {
    let rules = vec![
        rule("a", "115", RuleType::Click, Action::SendKey { key_code: 100 }),
        rule("b", "115", RuleType::DoubleClick, Action::SendKey { key_code: 200 }),
    ];
    let mut sm = machine(rules);
    assert!(sm.handle_key_at(115, 1, 0).is_empty());
    assert!(sm.handle_key_at(115, 0, 50).is_empty());
    assert!(sm.handle_key_at(115, 1, 100).is_empty());
    let acts = sm.handle_key_at(115, 0, 150);
    assert_eq!(acts.len(), 1);
    assert!(matches!(acts[0], Action::SendKey { key_code: 200 }));
    // the deferred click was discarded
    assert!(sm.tick_at(1000).is_empty());
}

#[test]
fn isolated_click_fires_after_double_tap_window() {
    let rules = vec![
        rule("a", "115", RuleType::Click, Action::SendKey { key_code: 100 }),
        rule("b", "115", RuleType::DoubleClick, Action::SendKey { key_code: 200 }),
    ];
    let mut sm = machine(rules);
    assert!(sm.handle_key_at(115, 1, 0).is_empty());
    assert!(sm.handle_key_at(115, 0, 50).is_empty());
    assert!(sm.tick_at(300).is_empty());
    let acts = sm.tick_at(350);
    assert_eq!(acts.len(), 1);
    assert!(matches!(acts[0], Action::SendKey { key_code: 100 }));
}

#[test]
fn long_press_fires_on_hold_and_not_on_release() {
    let rules = vec![
        rule("c", "116", RuleType::LongPress, Action::Shell { cmd: "x".to_string() }),
    ];
    let mut sm = machine(rules);
    assert!(sm.handle_key_at(116, 1, 0).is_empty());
    assert!(sm.tick_at(750).is_empty());
    let acts = sm.tick_at(800);
    assert_eq!(acts.len(), 1);
    assert!(matches!(&acts[0], Action::Shell { cmd } if cmd == "x"));
    // a second tick does not repeat it, and the release emits nothing
    assert!(sm.tick_at(850).is_empty());
    assert!(sm.handle_key_at(116, 0, 900).is_empty());
}

#[test]
fn combo_click_fires_on_release_of_second_key() {
    let rules = vec![
        rule("d", "115+114", RuleType::ComboClick, Action::SendKey { key_code: 300 }),
    ];
    let mut sm = machine(rules);
    assert!(sm.handle_key_at(115, 1, 0).is_empty());
    assert!(sm.handle_key_at(114, 1, 50).is_empty());
    let acts = sm.handle_key_at(114, 0, 150);
    assert_eq!(acts.len(), 1);
    assert!(matches!(acts[0], Action::SendKey { key_code: 300 }));
    assert!(sm.handle_key_at(115, 0, 160).is_empty());
}

#[test]
fn combo_long_press_fires_while_both_held() {
    let rules = vec![
        rule("e", "115+114", RuleType::ComboLongPress, Action::SendKey { key_code: 400 }),
    ];
    let mut sm = machine(rules);
    assert!(sm.handle_key_at(115, 1, 0).is_empty());
    assert!(sm.handle_key_at(114, 1, 50).is_empty());
    assert!(sm.tick_at(800).is_empty());
    let acts = sm.tick_at(850);
    assert_eq!(acts.len(), 1);
    assert!(matches!(acts[0], Action::SendKey { key_code: 400 }));
    assert!(sm.tick_at(900).is_empty());
    assert!(sm.handle_key_at(115, 0, 900).is_empty());
    assert!(sm.handle_key_at(114, 0, 910).is_empty());
}

#[test]
fn click_versus_short_press_boundary() {
    // held for threshold - 1: a click; held to the threshold: a short press
    let rules = vec![
        rule("a", "115", RuleType::Click, Action::SendKey { key_code: 100 }),
        rule("s", "115", RuleType::ShortPress, Action::SendKey { key_code: 101 }),
    ];
    let mut sm = machine(rules);
    assert!(sm.handle_key_at(115, 1, 0).is_empty());
    let acts = sm.handle_key_at(115, 0, 299);
    assert_eq!(acts.len(), 1);
    assert!(matches!(acts[0], Action::SendKey { key_code: 100 }));

    assert!(sm.handle_key_at(115, 1, 1000).is_empty());
    let held = sm.tick_at(1300);
    assert_eq!(held.len(), 1);
    assert!(matches!(held[0], Action::SendKey { key_code: 101 }));
    // the release after a consumed hold produces no click
    assert!(sm.handle_key_at(115, 0, 1300).is_empty());
}

#[test]
fn pending_click_fires_exactly_when_window_expires() {
    // a zero-length tap at t=0 becomes firable exactly at the double-tap
    // interval, not one tick earlier
    let rules = vec![
        rule("a", "115", RuleType::Click, Action::SendKey { key_code: 100 }),
        rule("b", "115", RuleType::DoubleClick, Action::SendKey { key_code: 200 }),
    ];
    let mut sm = machine(rules);
    assert!(sm.handle_key_at(115, 1, 0).is_empty());
    assert!(sm.handle_key_at(115, 0, 0).is_empty());
    assert!(sm.tick_at(299).is_empty());
    let acts = sm.tick_at(300);
    assert_eq!(acts.len(), 1);
    assert!(matches!(acts[0], Action::SendKey { key_code: 100 }));
}

#[test]
fn combo_window_boundary() {
    // presses one past the combination window never fire; at the window
    // boundary they do
    let rules = vec![
        rule("e", "115+114", RuleType::ComboShortPress, Action::SendKey { key_code: 400 }),
    ];
    let mut sm = machine(rules);
    assert!(sm.handle_key_at(115, 1, 0).is_empty());
    assert!(sm.handle_key_at(114, 1, 201).is_empty());
    assert!(sm.tick_at(501).is_empty());
    assert!(sm.tick_at(1000).is_empty());

    let rules2 = vec![
        rule("e", "115+114", RuleType::ComboShortPress, Action::SendKey { key_code: 400 }),
    ];
    let mut sm2 = machine(rules2);
    assert!(sm2.handle_key_at(115, 1, 0).is_empty());
    assert!(sm2.handle_key_at(114, 1, 200).is_empty());
    let acts = sm2.tick_at(500);
    assert_eq!(acts.len(), 1);
    assert!(matches!(acts[0], Action::SendKey { key_code: 400 }));
}

#[test]
fn disabled_rule_never_fires() {
    let mut r = rule("a", "115", RuleType::Click, Action::SendKey { key_code: 100 });
    r.enabled = false;
    let mut sm = machine(vec![r]);
    assert!(sm.handle_key_at(115, 1, 0).is_empty());
    assert!(sm.handle_key_at(115, 0, 50).is_empty());
    // disabled rules still reserve their keys
    assert!(sm.is_mapped(115));
}

#[test]
fn symbolic_trigger_resolves_through_hardware_map() {
    let rules = vec![
        rule("a", " VOL_UP ", RuleType::Click, Action::SendKey { key_code: 100 }),
    ];
    let mut sm = machine(rules);
    assert!(sm.is_mapped(115));
    assert!(!sm.is_mapped(116));
    let _ = sm.handle_key_at(115, 1, 0);
    let acts = sm.handle_key_at(115, 0, 10);
    assert_eq!(acts.len(), 1);
}

#[test]
fn malformed_combo_trigger_is_inert() {
    // a combo rule whose trigger holds only one token parses to no keys
    let rules = vec![
        rule("d", "115", RuleType::ComboClick, Action::SendKey { key_code: 300 }),
    ];
    let mut sm = machine(rules);
    assert!(!sm.is_mapped(115));
    assert!(sm.handle_key_at(115, 1, 0).is_empty());
    assert!(sm.handle_key_at(115, 0, 50).is_empty());
    assert!(sm.tick_at(1000).is_empty());
}

#[test]
fn update_rules_clears_runtime_state() {
    let rules = vec![
        rule("a", "115", RuleType::Click, Action::SendKey { key_code: 100 }),
        rule("b", "115", RuleType::DoubleClick, Action::SendKey { key_code: 200 }),
    ];
    let mut sm = machine(rules);
    // leave a deferred click pending
    assert!(sm.handle_key_at(115, 1, 0).is_empty());
    assert!(sm.handle_key_at(115, 0, 50).is_empty());
    // a changed rule list drops the pending click
    let new_rules = vec![rule("a", "114", RuleType::Click, Action::SendKey { key_code: 100 })];
    sm.update_rules(new_rules, hw_map());
    assert!(sm.tick_at(10_000).is_empty());
    assert!(!sm.is_mapped(115));
    assert!(sm.is_mapped(114));
}

#[test]
fn update_rules_with_equal_list_keeps_state() {
    let rules = vec![
        rule("a", "115", RuleType::Click, Action::SendKey { key_code: 100 }),
        rule("b", "115", RuleType::DoubleClick, Action::SendKey { key_code: 200 }),
    ];
    let mut sm = machine(rules);
    assert!(sm.handle_key_at(115, 1, 0).is_empty());
    assert!(sm.handle_key_at(115, 0, 50).is_empty());
    // re-parsing an identical list keeps the pending click alive
    let same = vec![
        rule("a", "115", RuleType::Click, Action::SendKey { key_code: 100 }),
        rule("b", "115", RuleType::DoubleClick, Action::SendKey { key_code: 200 }),
    ];
    sm.update_rules(same, hw_map());
    let acts = sm.tick_at(350);
    assert_eq!(acts.len(), 1);
}

#[test]
fn update_settings_changes_thresholds() {
    let rules = vec![
        rule("s", "115", RuleType::ShortPress, Action::SendKey { key_code: 101 }),
    ];
    let mut sm = machine(rules);
    let settings = keymapper::GlobalSettings {
        long_press_threshold_ms: 900,
        short_press_threshold_ms: 100,
        double_tap_interval_ms: 300,
        combination_timeout_ms: 200,
        enable_haptic: true,
        enable_wakelock: true,
        log_level: "info".to_string(),
        rule_timeout_ms: 5000,
    };
    sm.update_settings(&settings);
    assert!(sm.handle_key_at(115, 1, 0).is_empty());
    let acts = sm.tick_at(100);
    assert_eq!(acts.len(), 1);
}

#[test]
fn rules_fire_in_definition_order() {
    let rules = vec![
        rule("first", "115", RuleType::Click, Action::SendKey { key_code: 1 }),
        rule("second", "115", RuleType::Click, Action::SendKey { key_code: 2 }),
    ];
    let mut sm = machine(rules);
    assert!(sm.handle_key_at(115, 1, 0).is_empty());
    let acts = sm.handle_key_at(115, 0, 50);
    assert_eq!(acts.len(), 2);
    assert!(matches!(acts[0], Action::SendKey { key_code: 1 }));
    assert!(matches!(acts[1], Action::SendKey { key_code: 2 }));
}

#[test]
fn combo_click_window_boundary_on_release() {
    // press instants τc apart fire; τc+1 apart fall through to taps
    let rules = vec![
        rule("d", "115+114", RuleType::ComboClick, Action::SendKey { key_code: 300 }),
    ];
    let mut sm = machine(rules);
    assert!(sm.handle_key_at(115, 1, 0).is_empty());
    assert!(sm.handle_key_at(114, 1, 200).is_empty());
    let acts = sm.handle_key_at(114, 0, 290);
    assert_eq!(acts.len(), 1);

    let rules2 = vec![
        rule("d", "115+114", RuleType::ComboClick, Action::SendKey { key_code: 300 }),
    ];
    let mut sm2 = machine(rules2);
    assert!(sm2.handle_key_at(115, 1, 0).is_empty());
    assert!(sm2.handle_key_at(114, 1, 201).is_empty());
    // the spread of press instants is past the window: no combo, and no
    // click rules exist on the key, so nothing fires
    assert!(sm2.handle_key_at(114, 0, 290).is_empty());
}

#[test]
fn auto_repeat_is_ignored_by_the_engine() {
    let rules = vec![rule("a", "115", RuleType::Click, Action::SendKey { key_code: 100 })];
    let mut sm = machine(rules);
    assert!(sm.handle_key_at(115, 1, 0).is_empty());
    assert!(sm.handle_key_at(115, 2, 20).is_empty());
    assert!(sm.handle_key_at(115, 2, 40).is_empty());
    let acts = sm.handle_key_at(115, 0, 50);
    assert_eq!(acts.len(), 1);
}

#[test]
fn short_press_fires_once_per_hold() {
    let rules = vec![
        rule("s", "115", RuleType::ShortPress, Action::SendKey { key_code: 101 }),
    ];
    let mut sm = machine(rules);
    assert!(sm.handle_key_at(115, 1, 0).is_empty());
    assert_eq!(sm.tick_at(300).len(), 1);
    assert!(sm.tick_at(350).is_empty());
    assert!(sm.handle_key_at(115, 0, 400).is_empty());
    // a fresh press can fire the rule again
    assert!(sm.handle_key_at(115, 1, 1000).is_empty());
    assert_eq!(sm.tick_at(1300).len(), 1);
}
