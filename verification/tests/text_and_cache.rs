use keymapper::AppCache;
use keymapper::KeyEventDecision;
use keymapper::LearnState;
use keymapper::StateMachine;
use keymapper::format_timestamp;
use keymapper::is_bool_literal;
use keymapper::is_i32_literal;
use keymapper::is_yaml_extension;
use keymapper::parse_u16;
use keymapper::process_key_event;
use keymapper::process_tick;
use keymapper::trim_str;
use keymapper::u16_to_dec_string;
use keymapper::u64_to_dec_string;

#[test]
fn decimal_parse_matches_std_behaviour() {
    assert_eq!(parse_u16("115"), Some(115));
    assert_eq!(parse_u16("+7"), Some(7));
    assert_eq!(parse_u16("0"), Some(0));
    assert_eq!(parse_u16("65535"), Some(65535));
    assert_eq!(parse_u16("65536"), None);
    assert_eq!(parse_u16(""), None);
    assert_eq!(parse_u16("+"), None);
    assert_eq!(parse_u16("12a"), None);
    assert_eq!(parse_u16("-1"), None);
    assert_eq!(parse_u16(" 5"), None);
    // the verified parser answers exactly as the standard library does
    for s in ["115", "+7", "65536", "", "007", "99999999999999999999"] {
        assert_eq!(parse_u16(s), s.parse::<u16>().ok());
    }
}

#[test]
fn integer_literal_detection_matches_std() {
    for s in ["123", "-123", "+5", "2147483647", "2147483648", "-2147483648", "-2147483649", "x", "", "1.5", "true"] {
        assert_eq!(is_i32_literal(s), s.parse::<i32>().is_ok(), "case {:?}", s);
    }
    assert!(is_bool_literal("true"));
    assert!(is_bool_literal("false"));
    assert!(!is_bool_literal("True"));
    assert!(!is_bool_literal("1"));
}

#[test]
fn trimming_matches_std() {
    for s in ["  a b  ", "\t x\n", "", "   ", "no-space"] {
        assert_eq!(trim_str(s), s.trim(), "case {:?}", s);
    }
}

#[test]
fn decimal_formatting() {
    assert_eq!(u16_to_dec_string(0), "0");
    assert_eq!(u16_to_dec_string(115), "115");
    assert_eq!(u16_to_dec_string(65535), "65535");
    assert_eq!(u64_to_dec_string(1000000), "1000000");
}

#[test]
fn timestamp_formatting() {
    assert_eq!(format_timestamp(0), "D0_00:00:00");
    assert_eq!(format_timestamp(90061), "D1_01:01:01");
    assert_eq!(format_timestamp(86399), "D0_23:59:59");
}

#[test]
fn yaml_extension_check_ignores_case() {
    assert!(is_yaml_extension("yaml"));
    assert!(is_yaml_extension("YAML"));
    assert!(is_yaml_extension("Yml"));
    assert!(!is_yaml_extension("json"));
    assert!(!is_yaml_extension("yamls"));
}

#[test]
fn cache_insert_get_sorted() {
    let mut cache = AppCache::new();
    cache.insert_app("com.zeta".to_string(), "Zeta".to_string());
    cache.insert_app("com.alpha".to_string(), "Alpha".to_string());
    cache.insert_app("com.mid".to_string(), "Mid".to_string());
    let apps = cache.get_apps();
    assert_eq!(apps.len(), 3);
    assert_eq!(apps[0].0, "com.alpha");
    assert_eq!(apps[1].0, "com.mid");
    assert_eq!(apps[2].0, "com.zeta");
}

#[test]
fn cache_insert_replaces_label() {
    let mut cache = AppCache::new();
    cache.insert_app("com.a".to_string(), "Old".to_string());
    cache.insert_app("com.a".to_string(), "New".to_string());
    assert!(cache.contains_package("com.a"));
    let apps = cache.get_apps();
    assert_eq!(apps.len(), 1);
    assert_eq!(apps[0].1, "New");
}

#[test]
fn cache_retains_only_current_packages() {
    let mut cache = AppCache::new();
    cache.insert_app("com.keep".to_string(), "Keep".to_string());
    cache.insert_app("com.gone".to_string(), "Gone".to_string());
    cache.retain_packages(&vec!["com.keep".to_string()]);
    assert!(cache.contains_package("com.keep"));
    assert!(!cache.contains_package("com.gone"));
    assert_eq!(cache.get_apps().len(), 1);
}

fn engine_with_click_on(code: u16) -> StateMachine {
    let rules = vec![keymapper::Rule {
        id: "a".to_string(),
        trigger: code.to_string(),
        rule_type: keymapper::RuleType::Click,
        action: keymapper::Action::SendKey { key_code: 99 },
        enabled: true,
        description: String::new(),
    }];
    StateMachine::new(rules, Vec::new(), 800, 300, 300, 200)
}

#[test]
fn processor_forwards_unmapped_keys() {
    let mut sm = engine_with_click_on(115);
    let mut learn = LearnState::default();
    // an unmapped key passes straight through, press, release and repeat
    for value in [1, 0, 2] {
        match process_key_event(&mut sm, &mut learn, 42, value, 0) {
            KeyEventDecision::Forward => {}
            _ => panic!("expected forwarding"),
        }
    }
}

#[test]
fn processor_dispatches_mapped_keys() {
    let mut sm = engine_with_click_on(115);
    let mut learn = LearnState::default();
    match process_key_event(&mut sm, &mut learn, 115, 1, 0) {
        KeyEventDecision::Engine(acts) => assert!(acts.is_empty()),
        _ => panic!("expected engine ownership"),
    }
    match process_key_event(&mut sm, &mut learn, 115, 0, 50) {
        KeyEventDecision::Engine(acts) => {
            assert_eq!(acts.len(), 1);
            assert!(matches!(acts[0], keymapper::Action::SendKey { key_code: 99 }));
        }
        _ => panic!("expected engine ownership"),
    }
}

#[test]
fn processor_lets_learn_filter_consume() {
    let mut sm = engine_with_click_on(115);
    let mut learn = LearnState::default();
    learn.start_at(0);
    match process_key_event(&mut sm, &mut learn, 115, 1, 10) {
        KeyEventDecision::Consumed => {}
        _ => panic!("expected the learn filter to swallow the press"),
    }
    // the engine saw nothing, so the release falls through to it
    match process_key_event(&mut sm, &mut learn, 115, 0, 20) {
        KeyEventDecision::Consumed => {}
        _ => panic!("expected the paired release to be swallowed"),
    }
    assert!(process_tick(&mut sm, &mut learn, 100).is_empty());
}

#[test]
fn package_listing_parses_to_unique_names() {
    let out = "package:com.b\npackage:com.a\r\njunk line\npackage:com.a\npackage:   \n";
    let names = keymapper::parse_package_list(out);
    assert_eq!(names, vec!["com.b".to_string(), "com.a".to_string()]);
}

#[test]
fn dump_label_is_extracted() {
    let out = "header\n  application-label:'My App'\nrest\n";
    assert_eq!(keymapper::parse_app_label(out), Some("My App".to_string()));
    // a label line without a colon ends the search
    assert_eq!(keymapper::parse_app_label("application-label\n"), None);
    // an empty label keeps looking
    let multi = "application-label:''\napplication-label:'Real'\n";
    assert_eq!(keymapper::parse_app_label(multi), Some("Real".to_string()));
    assert_eq!(keymapper::parse_app_label("nothing here\n"), None);
}

#[test]
fn line_splitting_matches_std() {
    for s in ["a\nb", "a\r\nb\n", "", "\n", "a\r", "x"] {
        let mine = keymapper::split_lines(s);
        let std_lines: Vec<&str> = s.lines().collect();
        assert_eq!(mine.len(), std_lines.len(), "case {:?}", s);
        for (m, t) in mine.iter().zip(std_lines.iter()) {
            assert_eq!(m, t, "case {:?}", s);
        }
    }
}
