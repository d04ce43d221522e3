//! What dispatching an action means, as far as it is computation: which
//! key code a direct emission uses, the press/release plan an action
//! sends to the virtual sink, the rule toggle, and the argument vector of
//! an intent launch.  The side effects themselves (writing to the sink,
//! spawning processes) stay outside the library; they follow these plans.

use vstd::prelude::*;
use crate::config::Action;
use crate::config::ActionModel;
use crate::config::BuiltinCommand;
use crate::config::BrightnessDirection;
use crate::config::Config;
use crate::config::IntentModel;
use crate::config::IntentSpec;
use crate::config::Rule;
use crate::config::VolumeDirection;
use crate::config::action_model;
use crate::config::intent_model;
use crate::strutil::is_bool_literal;
use crate::strutil::is_i32_literal;
use crate::strutil::is_i32_seq;
use crate::strutil::str_eq_str;

verus! {

/// The key code a direct key emission uses, when the action is one:
/// its own code for emit-key, and the fixed system codes for mute (113),
/// display toggle (223), volume (115/114) and brightness (225/224).
pub open spec fn emit_code_spec(a: ActionModel) -> Option<u16> {
    match a {
        ActionModel::SendKey { key_code } => Some(key_code),
        ActionModel::BuiltinCommand { command } => if command == BuiltinCommand::MuteToggle {
            Some(113u16)
        } else {
            None
        },
        ActionModel::ToggleScreen => Some(223u16),
        ActionModel::VolumeControl { direction } => if direction == VolumeDirection::Up {
            Some(115u16)
        } else {
            Some(114u16)
        },
        ActionModel::BrightnessControl { direction } => if direction == BrightnessDirection::Up {
            Some(225u16)
        } else {
            Some(224u16)
        },
        _ => None,
    }
}

/// The key code to click for an action that emits one key directly.
pub fn emit_key_code(action: &Action) -> (r: Option<u16>)
    ensures
        r == emit_code_spec(action_model(*action)),
{
    match action {
        Action::SendKey { key_code } => Some(*key_code),
        Action::BuiltinCommand { command } => match command {
            BuiltinCommand::MuteToggle => Some(113),
            _ => None,
        },
        Action::ToggleScreen => Some(223),
        Action::VolumeControl { direction } => match direction {
            VolumeDirection::Up => Some(115),
            VolumeDirection::Down => Some(114),
        },
        Action::BrightnessControl { direction } => match direction {
            BrightnessDirection::Up => Some(225),
            BrightnessDirection::Down => Some(224),
        },
        _ => None,
    }
}

/// The press/release pairs of one click per code, in order.
pub open spec fn click_pairs(codes: Seq<u16>) -> Seq<(u16, i32)>
    decreases codes.len(),
{
    if codes.len() == 0 {
        Seq::empty()
    } else {
        click_pairs(codes.drop_last()) + seq![(codes.last(), 1i32), (codes.last(), 0i32)]
    }
}

/// The key events an action sends to the virtual sink: a press and a
/// release for a direct emission, one click per code of a multi-tap, and
/// the flattened plans of a compound action's direct members (a nested
/// compound is skipped).  Actions that spawn processes or mutate the
/// configuration emit nothing.
pub open spec fn emissions_spec(a: ActionModel) -> Seq<(u16, i32)>
    decreases a,
{
    match a {
        ActionModel::MultiTap { codes, interval_ms } => click_pairs(codes),
        ActionModel::Macro { actions } => macro_emissions(actions),
        _ => match emit_code_spec(a) {
            Some(c) => seq![(c, 1i32), (c, 0i32)],
            None => Seq::empty(),
        },
    }
}

pub open spec fn macro_emissions(s: Seq<ActionModel>) -> Seq<(u16, i32)>
    decreases s,
{
    if s.len() == 0 {
        Seq::empty()
    } else {
        macro_emissions(s.drop_last()) + (if s.last() is Macro {
            Seq::empty()
        } else {
            emissions_spec(s.last())
        })
    }
}

/// How many events in the plan press (`v == 1`) or release (`v == 0`)
/// the given code.
pub open spec fn count_emits(s: Seq<(u16, i32)>, code: u16, v: i32) -> int
    decreases s.len(),
{
    if s.len() == 0 {
        0
    } else {
        count_emits(s.drop_last(), code, v) + if s.last().0 == code && s.last().1 == v {
            1int
        } else {
            0int
        }
    }
}

proof fn lemma_count_concat(a: Seq<(u16, i32)>, b: Seq<(u16, i32)>, code: u16, v: i32)
    ensures
        count_emits(a + b, code, v) == count_emits(a, code, v) + count_emits(b, code, v),
    decreases b.len(),
{
    if b.len() == 0 {
        assert(a + b =~= a);
    } else {
        assert((a + b).drop_last() =~= a + b.drop_last());
        assert((a + b).last() == b.last());
        lemma_count_concat(a, b.drop_last(), code, v);
    }
}

proof fn lemma_count_pair(c: u16, code: u16)
    ensures
        count_emits(seq![(c, 1i32), (c, 0i32)], code, 1) == count_emits(
            seq![(c, 1i32), (c, 0i32)],
            code,
            0,
        ),
{
    let pair = seq![(c, 1i32), (c, 0i32)];
    let first = seq![(c, 1i32)];
    assert(pair.drop_last() =~= first);
    assert(first.drop_last() =~= Seq::<(u16, i32)>::empty());
    assert(count_emits(first.drop_last(), code, 1) == 0);
    assert(count_emits(first.drop_last(), code, 0) == 0);
    assert(count_emits(first, code, 1) == if c == code {
        1int
    } else {
        0int
    });
    assert(count_emits(first, code, 0) == 0);
    assert(count_emits(pair, code, 1) == count_emits(first, code, 1));
    assert(count_emits(pair, code, 0) == count_emits(first, code, 0) + if c == code {
        1int
    } else {
        0int
    });
}

proof fn lemma_click_pairs_balanced(codes: Seq<u16>, code: u16)
    ensures
        count_emits(click_pairs(codes), code, 1) == count_emits(click_pairs(codes), code, 0),
    decreases codes.len(),
{
    if codes.len() > 0 {
        lemma_click_pairs_balanced(codes.drop_last(), code);
        let pair = seq![(codes.last(), 1i32), (codes.last(), 0i32)];
        lemma_count_concat(click_pairs(codes.drop_last()), pair, code, 1);
        lemma_count_concat(click_pairs(codes.drop_last()), pair, code, 0);
        lemma_count_pair(codes.last(), code);
    }
}

/// Law: every key pressed by an action's emission plan is also released,
/// code by code.  Whatever an action does at the virtual sink, presses
/// and releases balance.
pub proof fn lemma_emissions_balanced(a: ActionModel, code: u16)
    ensures
        count_emits(emissions_spec(a), code, 1) == count_emits(emissions_spec(a), code, 0),
    decreases a,
{
    match a {
        ActionModel::MultiTap { codes, interval_ms } => {
            lemma_click_pairs_balanced(codes, code);
        },
        ActionModel::Macro { actions } => {
            lemma_macro_emissions_balanced(actions, code);
        },
        _ => {
            match emit_code_spec(a) {
                Some(c) => {
                    lemma_count_pair(c, code);
                },
                None => {},
            }
        },
    }
}

proof fn lemma_macro_emissions_balanced(s: Seq<ActionModel>, code: u16)
    ensures
        count_emits(macro_emissions(s), code, 1) == count_emits(macro_emissions(s), code, 0),
    decreases s,
{
    if s.len() > 0 {
        lemma_macro_emissions_balanced(s.drop_last(), code);
        let tail = if s.last() is Macro {
            Seq::<(u16, i32)>::empty()
        } else {
            emissions_spec(s.last())
        };
        if !(s.last() is Macro) {
            lemma_emissions_balanced(s.last(), code);
        }
        lemma_count_concat(macro_emissions(s.drop_last()), tail, code, 1);
        lemma_count_concat(macro_emissions(s.drop_last()), tail, code, 0);
    }
}

/// The emission plan of an action, executable: the caller performs each
/// press or release at the virtual sink, with a sync after each event.
pub fn click_emissions(action: &Action) -> (r: Vec<(u16, i32)>)
    ensures
        r@ == emissions_spec(action_model(*action)),
    decreases action,
{
    let mut r: Vec<(u16, i32)> = Vec::new();
    match action {
        Action::MultiTap { codes, interval_ms } => {
            let n = codes.len();
            let mut i: usize = 0;
            while i < n
                invariant
                    0 <= i <= n,
                    n == codes@.len(),
                    r@ == click_pairs(codes@.subrange(0, i as int)),
                decreases n - i,
            {
                r.push((codes[i], 1));
                r.push((codes[i], 0));
                proof {
                    assert(codes@.subrange(0, i + 1).drop_last() =~= codes@.subrange(0, i as int));
                    assert(r@ =~= click_pairs(codes@.subrange(0, i + 1)));
                }
                i = i + 1;
            }
            proof {
                assert(codes@.subrange(0, n as int) =~= codes@);
            }
            r
        },
        Action::Macro { actions } => {
            let n = actions.len();
            let mut i: usize = 0;
            while i < n
                invariant
                    0 <= i <= n,
                    n == actions@.len(),
                    r@ == macro_emissions(
                        crate::config::actions_model(actions@.subrange(0, i as int)),
                    ),
                decreases n - i,
            {
                let sub: &Action = &actions[i];
                let ghost pre = crate::config::actions_model(actions@.subrange(0, i as int));
                proof {
                    crate::config::lemma_actions_model_len(actions@.subrange(0, i + 1));
                    crate::config::lemma_actions_model_len(actions@.subrange(0, i as int));
                    assert(actions@.subrange(0, i + 1).drop_last() =~= actions@.subrange(
                        0,
                        i as int,
                    ));
                    assert(crate::config::actions_model(actions@.subrange(0, i + 1)) =~= pre.push(
                        action_model(*actions@[i as int]),
                    ));
                }
                let is_nested = match sub {
                    Action::Macro { actions: _ } => true,
                    _ => false,
                };
                if !is_nested {
                    let mut inner = click_emissions(sub);
                    r.append(&mut inner);
                }
                proof {
                    let cur = crate::config::actions_model(actions@.subrange(0, i + 1));
                    assert(cur.drop_last() =~= pre);
                    assert(cur.last() == action_model(*actions@[i as int]));
                    if is_nested {
                        assert(r@ =~= macro_emissions(cur));
                    } else {
                        assert(r@ =~= macro_emissions(cur));
                    }
                }
                i = i + 1;
            }
            proof {
                assert(actions@.subrange(0, n as int) =~= actions@);
            }
            r
        },
        _ => {
            match emit_key_code(action) {
                Some(c) => {
                    r.push((c, 1));
                    r.push((c, 0));
                    proof {
                        assert(r@ =~= seq![(c, 1i32), (c, 0i32)]);
                    }
                    r
                },
                None => {
                    proof {
                        assert(r@ =~= Seq::<(u16, i32)>::empty());
                    }
                    r
                },
            }
        },
    }
}

// ---------------------------------------------------------------------------
// Rule toggling.
// ---------------------------------------------------------------------------

/// Index of the first rule with this id, or -1.
pub open spec fn find_rule_by_id(rules: Seq<Rule>, id: Seq<char>) -> int
    decreases rules.len(),
{
    if rules.len() == 0 {
        -1
    } else if rules[0].id@ == id {
        0
    } else if find_rule_by_id(rules.drop_first(), id) == -1 {
        -1
    } else {
        find_rule_by_id(rules.drop_first(), id) + 1
    }
}

/// `find_rule_by_id` is the first matching index.
pub proof fn lemma_find_rule_at(rules: Seq<Rule>, id: Seq<char>, i: int)
    requires
        0 <= i <= rules.len(),
        forall|k: int| 0 <= k < i ==> (#[trigger] rules[k]).id@ != id,
        i < rules.len() ==> rules[i].id@ == id,
    ensures
        find_rule_by_id(rules, id) == if i == rules.len() {
            -1int
        } else {
            i
        },
    decreases i,
{
    if i > 0 {
        let t = rules.drop_first();
        assert(forall|k: int| 0 <= k < i - 1 ==> (#[trigger] t[k]).id@ != id);
        lemma_find_rule_at(t, id, i - 1);
    }
}

/// The rule list after one toggle of the first rule with the given id.
pub open spec fn toggle_rule_spec(rules: Seq<Rule>, id: Seq<char>) -> Seq<Rule> {
    let i = find_rule_by_id(rules, id);
    if i >= 0 {
        rules.update(i, Rule { enabled: !rules[i].enabled, ..rules[i] })
    } else {
        rules
    }
}

/// Flips the `enabled` flag of the first rule carrying the id, as the
/// toggle-rule action does under the configuration write hold.  Returns
/// whether a rule matched, which decides whether persistence is owed.
pub fn toggle_rule_in_config(config: &mut Config, rule_id: &str) -> (found: bool)
    ensures
        found == (find_rule_by_id(old(config).rules@, rule_id@) >= 0),
        final(config).rules@ == toggle_rule_spec(old(config).rules@, rule_id@),
        final(config).device_name == old(config).device_name,
        final(config).hardware_map == old(config).hardware_map,
        final(config).settings == old(config).settings,
{
    let n = config.rules.len();
    let mut i: usize = 0;
    while i < n
        invariant
            0 <= i <= n,
            n == config.rules@.len(),
            *config == *old(config),
            forall|k: int| 0 <= k < i ==> (#[trigger] config.rules@[k]).id@ != rule_id@,
        decreases n - i,
    {
        if str_eq_str(config.rules[i].id.as_str(), rule_id) {
            proof {
                lemma_find_rule_at(config.rules@, rule_id@, i as int);
            }
            let r = config.rules.remove(i);
            let flipped = Rule {
                id: r.id,
                trigger: r.trigger,
                rule_type: r.rule_type,
                action: r.action,
                enabled: !r.enabled,
                description: r.description,
            };
            config.rules.insert(i, flipped);
            proof {
                assert(config.rules@ =~= toggle_rule_spec(old(config).rules@, rule_id@));
            }
            return true;
        }
        i = i + 1;
    }
    proof {
        lemma_find_rule_at(config.rules@, rule_id@, n as int);
    }
    false
}

/// Law: toggling the same rule twice restores the rule list.  The first
/// toggle flips one rule's `enabled` flag in place and changes nothing
/// else, so the second toggle finds the same rule and flips it back.
pub proof fn lemma_toggle_rule_twice(rules: Seq<Rule>, id: Seq<char>)
    ensures
        toggle_rule_spec(toggle_rule_spec(rules, id), id) == rules,
{
    let i = find_rule_by_id(rules, id);
    lemma_find_rule_props(rules, id);
    if i >= 0 {
        let once = toggle_rule_spec(rules, id);
        assert(once[i].id@ == id);
        assert(forall|k: int| 0 <= k < i ==> (#[trigger] once[k]).id@ != id);
        lemma_find_rule_at(once, id, i);
        assert(toggle_rule_spec(once, id) =~= rules);
    }
}

/// What `find_rule_by_id` returning an index means.
pub proof fn lemma_find_rule_props(rules: Seq<Rule>, id: Seq<char>)
    ensures
        find_rule_by_id(rules, id) == -1 ==> forall|k: int|
            0 <= k < rules.len() ==> (#[trigger] rules[k]).id@ != id,
        find_rule_by_id(rules, id) != -1 ==> 0 <= find_rule_by_id(rules, id) < rules.len()
            && rules[find_rule_by_id(rules, id)].id@ == id && forall|k: int|
            0 <= k < find_rule_by_id(rules, id) ==> (#[trigger] rules[k]).id@ != id,
    decreases rules.len(),
{
    if rules.len() > 0 && rules[0].id@ != id {
        let t = rules.drop_first();
        lemma_find_rule_props(t, id);
        assert(forall|k: int| 1 <= k < rules.len() ==> (#[trigger] rules[k]) == t[k - 1]);
    }
}

// ---------------------------------------------------------------------------
// Intent argument building.
// ---------------------------------------------------------------------------

/// The `-c` arguments for the categories, in order.
pub open spec fn category_args(cs: Seq<Seq<char>>) -> Seq<Seq<char>>
    decreases cs.len(),
{
    if cs.len() == 0 {
        Seq::empty()
    } else {
        category_args(cs.drop_last()) + seq!["-c"@, cs.last()]
    }
}

/// The typed extra flag for one value: boolean text takes `--ez`,
/// integer text `--ei`, anything else `--es`.
pub open spec fn extra_flag(v: Seq<char>) -> Seq<char> {
    if v == "true"@ || v == "false"@ {
        "--ez"@
    } else if is_i32_seq(v) {
        "--ei"@
    } else {
        "--es"@
    }
}

/// The flag-key-value triplets for the extras, in order.
pub open spec fn extras_args(es: Seq<(Seq<char>, Seq<char>)>) -> Seq<Seq<char>>
    decreases es.len(),
{
    if es.len() == 0 {
        Seq::empty()
    } else {
        extras_args(es.drop_last()) + seq![extra_flag(es.last().1), es.last().0, es.last().1]
    }
}

/// The full argument vector an intent launch passes to the activity
/// manager, or `None` when the intent carries no payload at all.
pub open spec fn intent_args_spec(m: IntentModel) -> Option<Seq<Seq<char>>> {
    let a0 = seq!["start"@];
    let a1 = a0 + match m.action {
        Some(a) => seq!["-a"@, a],
        None => Seq::empty(),
    };
    let a2 = a1 + match m.data {
        Some(d) => seq!["-d"@, d],
        None => Seq::empty(),
    };
    let a3 = a2 + match m.package {
        Some(p) => match m.class_name {
            Some(c) => seq!["-n"@, p + "/"@ + c],
            None => seq!["-p"@, p],
        },
        None => Seq::empty(),
    };
    let a4 = a3 + category_args(m.category);
    let a5 = a4 + match m.extras {
        Some(es) => extras_args(es),
        None => Seq::empty(),
    };
    let has_payload = m.action is Some || m.data is Some || m.package is Some || m.category.len()
        > 0 || (m.extras matches Some(es) && es.len() > 0);
    if has_payload {
        Some(a5)
    } else {
        None
    }
}

/// Serialises an intent into the argument vector handed to the activity
/// manager; `None` when the intent has no payload.
pub fn build_intent_args(intent: &IntentSpec) -> (r: Option<Vec<String>>)
    ensures
        match r {
            Some(args) => intent_args_spec(intent_model(*intent)) == Some(
                args@.map_values(|s: String| s@),
            ),
            None => intent_args_spec(intent_model(*intent)) is None,
        },
{
    let ghost m = intent_model(*intent);
    let mut args: Vec<String> = Vec::new();
    let mut has_payload: bool = false;
    args.push("start".to_owned());
    proof {
        assert(args@.map_values(|s: String| s@) =~= seq!["start"@]);
    }
    match &intent.action {
        Some(a) => {
            args.push("-a".to_owned());
            args.push(a.clone());
            has_payload = true;
        },
        None => {},
    }
    proof {
        assert(args@.map_values(|s: String| s@) =~= seq!["start"@] + match m.action {
            Some(a) => seq!["-a"@, a],
            None => Seq::<Seq<char>>::empty(),
        });
    }
    let ghost a1 = args@.map_values(|s: String| s@);
    match &intent.data {
        Some(d) => {
            args.push("-d".to_owned());
            args.push(d.clone());
            has_payload = true;
        },
        None => {},
    }
    proof {
        assert(args@.map_values(|s: String| s@) =~= a1 + match m.data {
            Some(d) => seq!["-d"@, d],
            None => Seq::<Seq<char>>::empty(),
        });
    }
    let ghost a2 = args@.map_values(|s: String| s@);
    match &intent.package {
        Some(p) => {
            has_payload = true;
            match &intent.class_name {
                Some(c) => {
                    args.push("-n".to_owned());
                    args.push(p.clone().concat("/").concat(c.as_str()));
                },
                None => {
                    args.push("-p".to_owned());
                    args.push(p.clone());
                },
            }
        },
        None => {},
    }
    proof {
        assert(args@.map_values(|s: String| s@) =~= a2 + match m.package {
            Some(p) => match m.class_name {
                Some(c) => seq!["-n"@, p + "/"@ + c],
                None => seq!["-p"@, p],
            },
            None => Seq::<Seq<char>>::empty(),
        });
    }
    let ghost a3 = args@.map_values(|s: String| s@);
    let cn = intent.category.len();
    let mut ci: usize = 0;
    while ci < cn
        invariant
            0 <= ci <= cn,
            cn == intent.category@.len(),
            m == intent_model(*intent),
            args@.map_values(|s: String| s@) == a3 + category_args(
                m.category.subrange(0, ci as int),
            ),
            has_payload == (m.action is Some || m.data is Some || m.package is Some || ci > 0),
        decreases cn - ci,
    {
        let ghost before = args@.map_values(|s: String| s@);
        args.push("-c".to_owned());
        args.push(intent.category[ci].clone());
        has_payload = true;
        proof {
            assert(m.category[ci as int] == intent.category@[ci as int]@);
            assert(args@.map_values(|s: String| s@) =~= before.push("-c"@).push(
                m.category[ci as int],
            ));
            let cat_prev = category_args(m.category.subrange(0, ci as int));
            assert(m.category.subrange(0, ci + 1).drop_last() =~= m.category.subrange(
                0,
                ci as int,
            ));
            assert(m.category.subrange(0, ci + 1).last() == m.category[ci as int]);
            assert(category_args(m.category.subrange(0, ci + 1)) == cat_prev + seq![
                "-c"@,
                m.category[ci as int],
            ]);
            assert(args@.map_values(|s: String| s@) =~= a3 + category_args(
                m.category.subrange(0, ci + 1),
            ));
        }
        ci = ci + 1;
    }
    proof {
        assert(m.category.subrange(0, cn as int) =~= m.category);
    }
    let ghost a4 = args@.map_values(|s: String| s@);
    match &intent.extras {
        Some(es) => {
            let en = es.len();
            let mut ei: usize = 0;
            while ei < en
                invariant
                    0 <= ei <= en,
                    en == es@.len(),
                    m == intent_model(*intent),
                    m.extras == Some(crate::config::pairs_view(es@)),
                    args@.map_values(|s: String| s@) == a4 + extras_args(
                        crate::config::pairs_view(es@).subrange(0, ei as int),
                    ),
                    has_payload == (m.action is Some || m.data is Some || m.package is Some
                        || m.category.len() > 0 || ei > 0),
                decreases en - ei,
            {
                let v = &es[ei].1;
                let flag: &str = if is_bool_literal(v.as_str()) {
                    "--ez"
                } else if is_i32_literal(v.as_str()) {
                    "--ei"
                } else {
                    "--es"
                };
                proof {
                    assert(flag@ == extra_flag(es@[ei as int].1@));
                }
                let ghost before = args@.map_values(|s: String| s@);
                args.push(flag.to_owned());
                args.push(es[ei].0.clone());
                args.push(es[ei].1.clone());
                has_payload = true;
                proof {
                    let pv = crate::config::pairs_view(es@);
                    assert(pv[ei as int] == (es@[ei as int].0@, es@[ei as int].1@));
                    assert(args@.map_values(|s: String| s@) =~= before.push(flag@).push(
                        es@[ei as int].0@,
                    ).push(es@[ei as int].1@));
                    let ex_prev = extras_args(pv.subrange(0, ei as int));
                    assert(pv.subrange(0, ei + 1).drop_last() =~= pv.subrange(0, ei as int));
                    assert(pv.subrange(0, ei + 1).last() == pv[ei as int]);
                    assert(extras_args(pv.subrange(0, ei + 1)) == ex_prev + seq![
                        extra_flag(pv[ei as int].1),
                        pv[ei as int].0,
                        pv[ei as int].1,
                    ]);
                    assert(args@.map_values(|s: String| s@) =~= a4 + extras_args(
                        pv.subrange(0, ei + 1),
                    ));
                }
                ei = ei + 1;
            }
            proof {
                assert(crate::config::pairs_view(es@).subrange(0, en as int)
                    =~= crate::config::pairs_view(es@));
            }
        },
        None => {},
    }
    if has_payload {
        Some(args)
    } else {
        None
    }
}

} // verus!
