//! The gesture recognition engine.  It classifies a stream of key presses
//! and releases, together with wall-clock ticks, against the parsed rule
//! list, and emits the actions of the rules that fire.
//!
//! Every public operation is specified against a mathematical model of
//! the machine (`MachineModel`): an ordered per-key state list, the parsed
//! rules, the pending deferred clicks, tap history, and the set of rule
//! ids already fired for their current hold.

use vstd::prelude::*;
use crate::assoc::assoc_codes;
use crate::assoc::assoc_find;
use crate::assoc::assoc_get;
use crate::assoc::assoc_has;
use crate::assoc::assoc_set;
use crate::assoc::assoc_unique;
use crate::assoc::assoc_vec_codes;
use crate::assoc::assoc_vec_get;
use crate::assoc::assoc_vec_remove;
use crate::assoc::assoc_vec_set;
use crate::assoc::assoc_without;
use crate::assoc::ids_contains;
use crate::assoc::ids_insert;
use crate::assoc::ids_remove;
use crate::assoc::ids_unique;
use crate::assoc::ids_view;
use crate::assoc::lemma_assoc_find_props;
use crate::config::Action;
use crate::config::ActionModel;
use crate::config::action_model;
use crate::config::GlobalSettings;
use crate::config::Rule;
use crate::config::RuleModel;
use crate::config::RuleType;
use crate::config::rule_eq;
use crate::config::rule_model;
use crate::sys::elapsed_millis;
use crate::sys::elapsed_ms;
use crate::sys::sat_add_u64;
use crate::sys::saturating_add_u64;
use crate::sys::now_millis;
use crate::trigger::map_view;
use crate::trigger::parse_trigger;
use crate::trigger::parse_trigger_spec;

verus! {

/// Runtime state of one held key: when it was pressed, and whether a
/// short- or long-press rule has already fired for this press.
#[derive(Debug, Clone, Copy, PartialEq, Eq, Structural)]
pub struct KeyState {
    pub pressed_at: u64,
    pub triggered_short_press: bool,
    pub triggered_long_press: bool,
}

/// One entry of the tap history: how many taps in the current run, and
/// the instant of the last release.
#[derive(Debug, Clone, Copy, PartialEq, Eq, Structural)]
pub struct TapEntry {
    pub count: u32,
    pub last: u64,
}

/// A rule with its trigger resolved to key codes.
struct ParsedRule {
    original: Rule,
    trigger_keys: Vec<u16>,
}

/// A deferred click: the action of rule `rule_index` will fire at
/// `available_at` unless a second tap cancels it.
#[derive(Clone, Copy)]
struct PendingClick {
    key_code: u16,
    rule_index: usize,
    available_at: u64,
}

pub ghost struct ParsedRuleModel {
    pub rule: RuleModel,
    pub keys: Seq<u16>,
}

pub ghost struct PendingModel {
    pub key_code: u16,
    pub rule: int,
    pub available_at: u64,
}

/// The abstract state of the machine.
pub ghost struct MachineModel {
    pub keys: Seq<(u16, KeyState)>,
    pub rules: Seq<ParsedRuleModel>,
    pub pending: Seq<PendingModel>,
    pub long_ms: u64,
    pub short_ms: u64,
    pub double_ms: u64,
    pub combo_ms: u64,
    pub taps: Seq<(u16, TapEntry)>,
    pub triggered: Set<Seq<char>>,
}

spec fn parsed_rules_model(s: Seq<ParsedRule>) -> Seq<ParsedRuleModel> {
    s.map_values(
        |p: ParsedRule| ParsedRuleModel { rule: rule_model(p.original), keys: p.trigger_keys@ },
    )
}

spec fn pendings_model(s: Seq<PendingClick>) -> Seq<PendingModel> {
    s.map_values(
        |p: PendingClick| PendingModel {
            key_code: p.key_code,
            rule: p.rule_index as int,
            available_at: p.available_at,
        },
    )
}

/// Well-formedness of the model: key and tap codes unique, and every
/// pending click points at an enabled single-key Click rule on its key.
pub open spec fn m_wf(m: MachineModel) -> bool {
    &&& assoc_unique(m.keys)
    &&& assoc_unique(m.taps)
    &&& forall|p: int| 0 <= p < m.pending.len() ==> m_pending_ok(m, #[trigger] m.pending[p])
}

pub open spec fn m_pending_ok(m: MachineModel, p: PendingModel) -> bool {
    &&& 0 <= p.rule < m.rules.len()
    &&& m.rules[p.rule].rule.enabled
    &&& m.rules[p.rule].rule.rule_type == RuleType::Click
    &&& m.rules[p.rule].keys == seq![p.key_code]
}

/// The rules that parse from the given rule list and hardware map.
pub open spec fn parse_rules_spec(rules: Seq<Rule>, map: Seq<(u16, Seq<char>)>) -> Seq<
    ParsedRuleModel,
> {
    rules.map_values(
        |r: Rule| ParsedRuleModel {
            rule: rule_model(r),
            keys: parse_trigger_spec(r.trigger@, map, r.rule_type),
        },
    )
}

/// A key press: (re)creates the key's runtime state.
pub open spec fn m_press(m: MachineModel, code: u16, now: u64) -> MachineModel {
    MachineModel {
        keys: assoc_set(
            m.keys,
            code,
            KeyState { pressed_at: now, triggered_short_press: false, triggered_long_press: false },
        ),
        ..m
    }
}

/// Clears the triggered-set entries of every rule from `i` on whose
/// trigger contains the released key.
pub open spec fn m_clear_triggered(
    triggered: Set<Seq<char>>,
    rules: Seq<ParsedRuleModel>,
    code: u16,
    i: int,
    n: int,
) -> Set<Seq<char>>
    decreases n - i,
{
    if i < 0 || i >= n || i >= rules.len() {
        triggered
    } else {
        let t = if rules[i].keys.contains(code) {
            triggered.remove(rules[i].rule.id)
        } else {
            triggered
        };
        m_clear_triggered(t, rules, code, i + 1, n)
    }
}

/// The press instant a combo participant contributes on release: the
/// released key uses the instant it had been pressed at; a still-held key
/// uses its current state.
pub open spec fn combo_time(m: MachineModel, code: u16, pressed_at: u64, k: u16) -> u64 {
    if k == code {
        pressed_at
    } else {
        assoc_get(m.keys, k).pressed_at
    }
}

/// Whether a combo participant is (or was, for the released key) held
/// for less than the short-press threshold.
pub open spec fn combo_key_ok(m: MachineModel, code: u16, pressed_at: u64, now: u64, k: u16) -> bool {
    if k == code {
        elapsed_ms(now, pressed_at) < m.short_ms
    } else {
        assoc_has(m.keys, k) && elapsed_ms(now, assoc_get(m.keys, k).pressed_at) < m.short_ms
    }
}

/// Distance between two instants.
pub open spec fn spread_ms(a: u64, b: u64) -> u64 {
    if a >= b {
        (a - b) as u64
    } else {
        (b - a) as u64
    }
}

/// Whether the ComboClick rule at index `i` fires when `code` is
/// released: both participants short-held, press instants within the
/// combination window.
pub open spec fn combo_click_matches(
    m: MachineModel,
    i: int,
    code: u16,
    pressed_at: u64,
    now: u64,
) -> bool {
    let pr = m.rules[i];
    &&& pr.rule.enabled
    &&& pr.rule.rule_type == RuleType::ComboClick
    &&& pr.keys.len() == 2
    &&& pr.keys.contains(code)
    &&& combo_key_ok(m, code, pressed_at, now, pr.keys[0])
    &&& combo_key_ok(m, code, pressed_at, now, pr.keys[1])
    &&& spread_ms(
        combo_time(m, code, pressed_at, pr.keys[0]),
        combo_time(m, code, pressed_at, pr.keys[1]),
    ) <= m.combo_ms
}

/// Indices of the ComboClick rules that fire on this release, in rule
/// order.
pub open spec fn combo_release_fired(
    m: MachineModel,
    code: u16,
    pressed_at: u64,
    now: u64,
    i: int,
    n: int,
) -> Seq<int>
    decreases n - i,
{
    if i < 0 || i >= n || i >= m.rules.len() {
        Seq::empty()
    } else {
        let rest = combo_release_fired(m, code, pressed_at, now, i + 1, n);
        if combo_click_matches(m, i, code, pressed_at, now) {
            seq![i] + rest
        } else {
            rest
        }
    }
}

/// Index of the first enabled DoubleClick rule on this key, or -1.
pub open spec fn first_dc_rule(rules: Seq<ParsedRuleModel>, code: u16, i: int, n: int) -> int
    decreases n - i,
{
    if i < 0 || i >= n || i >= rules.len() {
        -1
    } else if rules[i].rule.enabled && rules[i].keys == seq![code] && rules[i].rule.rule_type
        == RuleType::DoubleClick {
        i
    } else {
        first_dc_rule(rules, code, i + 1, n)
    }
}

/// Whether the rule at `i` is an enabled single-key Click rule on `code`.
pub open spec fn is_click_rule(rules: Seq<ParsedRuleModel>, i: int, code: u16) -> bool {
    rules[i].rule.enabled && rules[i].keys == seq![code] && rules[i].rule.rule_type
        == RuleType::Click
}

/// Indices of the enabled Click rules on this key, in rule order.
pub open spec fn click_rule_idxs(rules: Seq<ParsedRuleModel>, code: u16, i: int, n: int) -> Seq<int>
    decreases n - i,
{
    if i < 0 || i >= n || i >= rules.len() {
        Seq::empty()
    } else {
        let rest = click_rule_idxs(rules, code, i + 1, n);
        if is_click_rule(rules, i, code) {
            seq![i] + rest
        } else {
            rest
        }
    }
}

/// The deferred clicks enqueued for this key, one per Click rule, all
/// firable at `at`.
pub open spec fn click_pendings(idxs: Seq<int>, code: u16, at: u64) -> Seq<PendingModel> {
    idxs.map_values(|i: int| PendingModel { key_code: code, rule: i, available_at: at })
}

/// Tap handling after a short release: counts the tap, and either fires
/// a DoubleClick rule, defers the Click rules, or fires them at once.
pub open spec fn m_tap(m: MachineModel, code: u16, now: u64) -> (MachineModel, Seq<int>) {
    let prior = if assoc_has(m.taps, code) {
        assoc_get(m.taps, code)
    } else {
        TapEntry { count: 0, last: now }
    };
    let new_count: u32 = if elapsed_ms(now, prior.last) < m.double_ms {
        if prior.count < 0xFFFF_FFFFu32 {
            (prior.count + 1) as u32
        } else {
            prior.count
        }
    } else {
        1u32
    };
    let m1 = MachineModel {
        taps: assoc_set(m.taps, code, TapEntry { count: new_count, last: now }),
        ..m
    };
    let dc = first_dc_rule(m.rules, code, 0, m.rules.len() as int);
    if dc >= 0 {
        if new_count == 2 {
            (
                MachineModel {
                    pending: m1.pending.filter(|p: PendingModel| p.key_code != code),
                    taps: assoc_without(m1.taps, code),
                    ..m1
                },
                seq![dc],
            )
        } else {
            let idxs = click_rule_idxs(m.rules, code, 0, m.rules.len() as int);
            (
                MachineModel {
                    pending: m1.pending + click_pendings(idxs, code, sat_add_u64(now, m.double_ms)),
                    ..m1
                },
                Seq::empty(),
            )
        }
    } else {
        (m1, click_rule_idxs(m.rules, code, 0, m.rules.len() as int))
    }
}

/// A key release: removes the key's state, clears the triggered entries
/// of rules on this key, and classifies short releases as combo clicks or
/// taps.
pub open spec fn m_release(m: MachineModel, code: u16, now: u64) -> (MachineModel, Seq<int>) {
    let f = assoc_find(m.keys, code);
    if f == -1 {
        (m, Seq::empty())
    } else {
        let st = m.keys[f].1;
        let m1 = MachineModel {
            keys: m.keys.remove(f),
            triggered: m_clear_triggered(m.triggered, m.rules, code, 0, m.rules.len() as int),
            ..m
        };
        let handled = st.triggered_short_press || st.triggered_long_press;
        if !handled && elapsed_ms(now, st.pressed_at) < m.short_ms {
            let combo = combo_release_fired(m1, code, st.pressed_at, now, 0, m1.rules.len() as int);
            if combo.len() > 0 {
                (m1, combo)
            } else {
                m_tap(m1, code, now)
            }
        } else {
            (m1, Seq::empty())
        }
    }
}

/// One key event: press (1) creates state, release (0) classifies, and
/// auto-repeat (2) is ignored.
pub open spec fn m_handle_key(m: MachineModel, code: u16, value: i32, now: u64) -> (
    MachineModel,
    Seq<int>,
) {
    if value == 1 {
        (m_press(m, code, now), Seq::empty())
    } else if value == 0 {
        m_release(m, code, now)
    } else {
        (m, Seq::empty())
    }
}

/// The actions of the fired rules, in firing order.
pub open spec fn fired_actions(m: MachineModel, fired: Seq<int>) -> Seq<ActionModel> {
    fired.map_values(|i: int| m.rules[i].rule.action)
}

/// Whether any parsed rule's key list contains the code.
pub open spec fn m_is_mapped(m: MachineModel, code: u16) -> bool {
    exists|i: int| 0 <= i < m.rules.len() && (#[trigger] m.rules[i]).keys.contains(code)
}

/// The machine after a rule refresh: when the parsed list changed, all
/// runtime state is cleared; otherwise nothing happens.
pub open spec fn m_update_rules(m: MachineModel, parsed: Seq<ParsedRuleModel>) -> MachineModel {
    if parsed != m.rules {
        MachineModel {
            keys: Seq::empty(),
            rules: parsed,
            pending: Seq::empty(),
            taps: Seq::empty(),
            triggered: Set::empty(),
            ..m
        }
    } else {
        m
    }
}

/// Pending-click well-formedness depends only on the pending list and
/// the rules, so it carries over between models that share them.
pub proof fn lemma_pending_ok_same_rules(m0: MachineModel, m1: MachineModel)
    requires
        m1.pending == m0.pending,
        m1.rules == m0.rules,
        forall|p: int| 0 <= p < m0.pending.len() ==> m_pending_ok(m0, #[trigger] m0.pending[p]),
    ensures
        forall|p: int| 0 <= p < m1.pending.len() ==> m_pending_ok(m1, #[trigger] m1.pending[p]),
{
    assert forall|p: int| 0 <= p < m1.pending.len() implies m_pending_ok(
        m1,
        #[trigger] m1.pending[p],
    ) by {
        assert(m_pending_ok(m0, m0.pending[p]));
    }
}

/// Which actions a list of fired rules yields depends only on the rules,
/// which both models share.
pub proof fn lemma_fired_actions_same_rules(a: MachineModel, b: MachineModel, idxs: Seq<int>)
    requires
        a.rules == b.rules,
    ensures
        fired_actions(a, idxs) == fired_actions(b, idxs),
{
    assert(fired_actions(a, idxs) =~= fired_actions(b, idxs));
}

/// The machine after a settings refresh: thresholds replaced, runtime
/// state untouched.
pub open spec fn m_update_settings(m: MachineModel, s: GlobalSettings) -> MachineModel {
    MachineModel {
        long_ms: s.long_press_threshold_ms as u64,
        short_ms: s.short_press_threshold_ms as u64,
        double_ms: s.double_tap_interval_ms as u64,
        combo_ms: s.combination_timeout_ms as u64,
        ..m
    }
}

/// Whether a key code list contains a code.
fn keys_contain(v: &Vec<u16>, code: u16) -> (r: bool)
    ensures
        r == v@.contains(code),
{
    let n = v.len();
    let mut i: usize = 0;
    while i < n
        invariant
            0 <= i <= n,
            n == v@.len(),
            forall|k: int| 0 <= k < i ==> v@[k] != code,
        decreases n - i,
    {
        if v[i] == code {
            assert(v@.contains(code));
            return true;
        }
        i = i + 1;
    }
    proof {
        if v@.contains(code) {
            let w = choose|k: int| 0 <= k < v@.len() && v@[k] == code;
            assert(false);
        }
    }
    false
}

/// Whether rule `i` is an enabled single-key Click rule on `code`,
/// decided on the executable representation.
fn click_rule_at(rules: &Vec<ParsedRule>, i: usize, code: u16) -> (r: bool)
    requires
        i < rules@.len(),
    ensures
        r == is_click_rule(parsed_rules_model(rules@), i as int, code),
{
    let pr = &rules[i];
    let single = pr.trigger_keys.len() == 1 && pr.trigger_keys[0] == code;
    proof {
        assert(parsed_rules_model(rules@)[i as int].keys == pr.trigger_keys@);
        if single {
            assert(pr.trigger_keys@ =~= seq![code]);
        }
        if parsed_rules_model(rules@)[i as int].keys == seq![code] {
            assert(pr.trigger_keys@.len() == 1 && pr.trigger_keys@[0] == code);
        }
    }
    pr.original.enabled && single && pr.original.rule_type == RuleType::Click
}

/// Index of the first enabled DoubleClick rule on `code`.
fn find_dc(rules: &Vec<ParsedRule>, code: u16) -> (r: Option<usize>)
    ensures
        ({
            let f = first_dc_rule(parsed_rules_model(rules@), code, 0, rules@.len() as int);
            match r {
                Some(i) => f == i as int && i < rules@.len(),
                None => f == -1,
            }
        }),
{
    let ghost rm = parsed_rules_model(rules@);
    let n = rules.len();
    let mut i: usize = 0;
    while i < n
        invariant
            0 <= i <= n,
            n == rules@.len(),
            rm == parsed_rules_model(rules@),
            first_dc_rule(rm, code, 0, n as int) == first_dc_rule(rm, code, i as int, n as int),
        decreases n - i,
    {
        let pr = &rules[i];
        let single = pr.trigger_keys.len() == 1 && pr.trigger_keys[0] == code;
        proof {
            assert(rm[i as int].keys == pr.trigger_keys@);
            if single {
                assert(pr.trigger_keys@ =~= seq![code]);
            }
            if rm[i as int].keys == seq![code] {
                assert(pr.trigger_keys@.len() == 1 && pr.trigger_keys@[0] == code);
            }
        }
        if pr.original.enabled && single && pr.original.rule_type == RuleType::DoubleClick {
            return Some(i);
        }
        i = i + 1;
    }
    None
}

/// Removes the triggered-set entries of every rule whose trigger
/// contains the released key.
fn clear_triggered(trig: &mut Vec<String>, rules: &Vec<ParsedRule>, code: u16)
    requires
        ids_unique(old(trig)@),
    ensures
        ids_unique(final(trig)@),
        ids_view(final(trig)@) == m_clear_triggered(
            ids_view(old(trig)@),
            parsed_rules_model(rules@),
            code,
            0,
            rules@.len() as int,
        ),
{
    let ghost rm = parsed_rules_model(rules@);
    let ghost t0 = ids_view(old(trig)@);
    let n = rules.len();
    let mut i: usize = 0;
    while i < n
        invariant
            0 <= i <= n,
            n == rules@.len(),
            rm == parsed_rules_model(rules@),
            ids_unique(trig@),
            m_clear_triggered(t0, rm, code, 0, n as int) == m_clear_triggered(
                ids_view(trig@),
                rm,
                code,
                i as int,
                n as int,
            ),
        decreases n - i,
    {
        let ghost tv = ids_view(trig@);
        let has = keys_contain(&rules[i].trigger_keys, code);
        proof {
            assert(rm[i as int].keys == rules@[i as int].trigger_keys@);
            assert(rm[i as int].rule.id == rules@[i as int].original.id@);
        }
        if has {
            ids_remove(trig, rules[i].original.id.as_str());
        }
        proof {
            assert(m_clear_triggered(tv, rm, code, i as int, n as int) == m_clear_triggered(
                ids_view(trig@),
                rm,
                code,
                i + 1,
                n as int,
            ));
        }
        i = i + 1;
    }
}

/// Every index yielded by `click_rule_idxs` names an enabled single-key
/// Click rule.
proof fn lemma_click_idxs_ok(rules: Seq<ParsedRuleModel>, code: u16, i: int, n: int)
    ensures
        forall|k: int|
            0 <= k < click_rule_idxs(rules, code, i, n).len() ==> {
                let j = #[trigger] click_rule_idxs(rules, code, i, n)[k];
                0 <= j < rules.len() && is_click_rule(rules, j, code)
            },
    decreases n - i,
{
    if !(i < 0 || i >= n || i >= rules.len()) {
        lemma_click_idxs_ok(rules, code, i + 1, n);
        let rest = click_rule_idxs(rules, code, i + 1, n);
        let cur = click_rule_idxs(rules, code, i, n);
        if is_click_rule(rules, i, code) {
            assert(cur == seq![i] + rest);
            assert forall|k: int|
                0 <= k < cur.len() implies {
                let j = #[trigger] cur[k];
                0 <= j < rules.len() && is_click_rule(rules, j, code)
            } by {
                if k == 0 {
                    assert(cur[0] == i);
                } else {
                    assert(cur[k] == rest[k - 1]);
                }
            }
        } else {
            assert(cur == rest);
        }
    }
}

/// Enqueues one deferred click per enabled Click rule on `code`.
fn enqueue_clicks(pending: &mut Vec<PendingClick>, rules: &Vec<ParsedRule>, code: u16, at: u64)
    ensures
        pendings_model(final(pending)@) == pendings_model(old(pending)@) + click_pendings(
            click_rule_idxs(parsed_rules_model(rules@), code, 0, rules@.len() as int),
            code,
            at,
        ),
{
    let ghost rm = parsed_rules_model(rules@);
    let ghost p0 = pendings_model(old(pending)@);
    let n = rules.len();
    let mut i: usize = 0;
    while i < n
        invariant
            0 <= i <= n,
            n == rules@.len(),
            rm == parsed_rules_model(rules@),
            pendings_model(pending@) + click_pendings(
                click_rule_idxs(rm, code, i as int, n as int),
                code,
                at,
            ) =~= p0 + click_pendings(click_rule_idxs(rm, code, 0, n as int), code, at),
        decreases n - i,
    {
        let ghost pv = pendings_model(pending@);
        let is_click = click_rule_at(rules, i, code);
        if is_click {
            pending.push(PendingClick { key_code: code, rule_index: i, available_at: at });
            proof {
                assert(pendings_model(pending@) =~= pv.push(
                    PendingModel { key_code: code, rule: i as int, available_at: at },
                ));
                assert(click_rule_idxs(rm, code, i as int, n as int) == seq![i as int]
                    + click_rule_idxs(rm, code, i + 1, n as int));
                assert(click_pendings(click_rule_idxs(rm, code, i as int, n as int), code, at)
                    =~= seq![PendingModel { key_code: code, rule: i as int, available_at: at }]
                    + click_pendings(click_rule_idxs(rm, code, i + 1, n as int), code, at));
                assert(pendings_model(pending@) + click_pendings(
                    click_rule_idxs(rm, code, i + 1, n as int),
                    code,
                    at,
                ) =~= pv + click_pendings(click_rule_idxs(rm, code, i as int, n as int), code, at));
            }
        } else {
            proof {
                assert(click_rule_idxs(rm, code, i as int, n as int) == click_rule_idxs(
                    rm,
                    code,
                    i + 1,
                    n as int,
                ));
            }
        }
        i = i + 1;
    }
    proof {
        assert(click_rule_idxs(rm, code, n as int, n as int) == Seq::<int>::empty());
        assert(click_pendings(Seq::<int>::empty(), code, at) =~= Seq::<PendingModel>::empty());
        assert(pendings_model(pending@) =~= p0 + click_pendings(
            click_rule_idxs(rm, code, 0, n as int),
            code,
            at,
        ));
    }
}

/// The actions of the enabled Click rules on `code`, in rule order.
fn click_actions(rules: &Vec<ParsedRule>, code: u16) -> (acts: Vec<Action>)
    ensures
        acts@.map_values(|a: Action| action_model(a)) == click_rule_idxs(
            parsed_rules_model(rules@),
            code,
            0,
            rules@.len() as int,
        ).map_values(|i: int| parsed_rules_model(rules@)[i].rule.action),
{
    let ghost rm = parsed_rules_model(rules@);
    let ghost target = click_rule_idxs(rm, code, 0, rules@.len() as int).map_values(
        |i: int| rm[i].rule.action,
    );
    let n = rules.len();
    let mut acts: Vec<Action> = Vec::new();
    let mut i: usize = 0;
    while i < n
        invariant
            0 <= i <= n,
            n == rules@.len(),
            rm == parsed_rules_model(rules@),
            target == click_rule_idxs(rm, code, 0, n as int).map_values(|j: int| rm[j].rule.action),
            acts@.map_values(|a: Action| action_model(a)) + click_rule_idxs(
                rm,
                code,
                i as int,
                n as int,
            ).map_values(|j: int| rm[j].rule.action) =~= target,
        decreases n - i,
    {
        let ghost av = acts@.map_values(|a: Action| action_model(a));
        let is_click = click_rule_at(rules, i, code);
        if is_click {
            acts.push(rules[i].original.action.clone());
            proof {
                assert(acts@.map_values(|a: Action| action_model(a)) =~= av.push(
                    rm[i as int].rule.action,
                ));
                assert(click_rule_idxs(rm, code, i as int, n as int) == seq![i as int]
                    + click_rule_idxs(rm, code, i + 1, n as int));
                assert(click_rule_idxs(rm, code, i as int, n as int).map_values(
                    |j: int| rm[j].rule.action,
                ) =~= seq![rm[i as int].rule.action] + click_rule_idxs(
                    rm,
                    code,
                    i + 1,
                    n as int,
                ).map_values(|j: int| rm[j].rule.action));
                assert(acts@.map_values(|a: Action| action_model(a)) + click_rule_idxs(
                    rm,
                    code,
                    i + 1,
                    n as int,
                ).map_values(|j: int| rm[j].rule.action) =~= target);
            }
        } else {
            proof {
                assert(click_rule_idxs(rm, code, i as int, n as int) == click_rule_idxs(
                    rm,
                    code,
                    i + 1,
                    n as int,
                ));
            }
        }
        i = i + 1;
    }
    proof {
        assert(click_rule_idxs(rm, code, n as int, n as int) == Seq::<int>::empty());
        assert(click_rule_idxs(rm, code, n as int, n as int).map_values(|j: int| rm[j].rule.action)
            =~= Seq::<ActionModel>::empty());
        assert(acts@.map_values(|a: Action| action_model(a)) =~= target);
    }
    acts
}

/// Keeps only the deferred clicks on other keys.
fn retain_pending(pending: &mut Vec<PendingClick>, code: u16)
    ensures
        pendings_model(final(pending)@) == pendings_model(old(pending)@).filter(
            |p: PendingModel| p.key_code != code,
        ),
        forall|k: int|
            0 <= k < pendings_model(final(pending)@).len() ==> pendings_model(
                old(pending)@,
            ).contains(#[trigger] pendings_model(final(pending)@)[k]),
{
    let ghost pred = |p: PendingModel| p.key_code != code;
    let ghost p0 = pendings_model(old(pending)@);
    let n = pending.len();
    let mut kept: Vec<PendingClick> = Vec::new();
    let mut j: usize = 0;
    while j < n
        invariant
            0 <= j <= n,
            n == pending@.len(),
            pending@ == old(pending)@,
            p0 == pendings_model(old(pending)@),
            pred == (|p: PendingModel| p.key_code != code),
            pendings_model(kept@) == pendings_model(pending@.subrange(0, j as int)).filter(pred),
            forall|k: int|
                0 <= k < pendings_model(kept@).len() ==> pendings_model(pending@).contains(
                    #[trigger] pendings_model(kept@)[k],
                ),
        decreases n - j,
    {
        let ghost prefix = pendings_model(pending@.subrange(0, j as int));
        proof {
            assert(pendings_model(pending@.subrange(0, j + 1)) =~= prefix.push(
                pendings_model(pending@)[j as int],
            ));
            prefix.lemma_filter_push(pendings_model(pending@)[j as int], pred);
        }
        let e = pending[j];
        if e.key_code != code {
            kept.push(e);
            proof {
                assert(pendings_model(kept@) =~= prefix.filter(pred).push(
                    pendings_model(pending@)[j as int],
                ));
                assert(pendings_model(pending@).contains(pendings_model(pending@)[j as int]));
            }
        }
        j = j + 1;
    }
    proof {
        assert(pending@.subrange(0, n as int) =~= pending@);
    }
    *pending = kept;
}

/// A key's state with the short- or long-press flag set.
pub open spec fn m_set_key_flag(keys: Seq<(u16, KeyState)>, code: u16, long_flag: bool) -> Seq<
    (u16, KeyState),
> {
    if assoc_has(keys, code) {
        let st = assoc_get(keys, code);
        let st2 = if long_flag {
            KeyState { triggered_long_press: true, ..st }
        } else {
            KeyState { triggered_short_press: true, ..st }
        };
        assoc_set(keys, code, st2)
    } else {
        keys
    }
}

/// Whether the single-key hold rule at `i` fires for the held key: it is
/// enabled, of the given kind, on this key, not yet triggered, and the
/// key has been held past the threshold.
pub open spec fn m_single_fires(
    m: MachineModel,
    code: u16,
    now: u64,
    rt: RuleType,
    threshold: u64,
    i: int,
) -> bool {
    let pr = m.rules[i];
    &&& pr.rule.enabled
    &&& pr.keys == seq![code]
    &&& pr.rule.rule_type == rt
    &&& !m.triggered.contains(pr.rule.id)
    &&& assoc_has(m.keys, code)
    &&& elapsed_ms(now, assoc_get(m.keys, code).pressed_at) >= threshold
}

/// One pass over the rules for one held key and one hold kind: every
/// rule that fires emits, joins the triggered set, and marks the key.
pub open spec fn m_single_pass(
    m: MachineModel,
    code: u16,
    now: u64,
    rt: RuleType,
    threshold: u64,
    long_flag: bool,
    i: int,
    n: int,
) -> (MachineModel, Seq<int>)
    decreases n - i,
{
    if i < 0 || i >= n || i >= m.rules.len() {
        (m, Seq::empty())
    } else if m_single_fires(m, code, now, rt, threshold, i) {
        let m2 = MachineModel {
            triggered: m.triggered.insert(m.rules[i].rule.id),
            keys: m_set_key_flag(m.keys, code, long_flag),
            ..m
        };
        let rec = m_single_pass(m2, code, now, rt, threshold, long_flag, i + 1, n);
        (rec.0, seq![i] + rec.1)
    } else {
        m_single_pass(m, code, now, rt, threshold, long_flag, i + 1, n)
    }
}

/// The short-press and long-press passes for every held key, in key
/// order.
pub open spec fn m_tick_keys(m: MachineModel, codes: Seq<u16>, now: u64, k: int) -> (
    MachineModel,
    Seq<int>,
)
    decreases codes.len() - k,
{
    if k < 0 || k >= codes.len() {
        (m, Seq::empty())
    } else {
        let code = codes[k];
        let sp = m_single_pass(
            m,
            code,
            now,
            RuleType::ShortPress,
            m.short_ms,
            false,
            0,
            m.rules.len() as int,
        );
        let lp = m_single_pass(
            sp.0,
            code,
            now,
            RuleType::LongPress,
            sp.0.long_ms,
            true,
            0,
            sp.0.rules.len() as int,
        );
        let rec = m_tick_keys(lp.0, codes, now, k + 1);
        (rec.0, sp.1 + lp.1 + rec.1)
    }
}

/// Whether a combo participant is held past the threshold.
pub open spec fn combo_held(m: MachineModel, k: u16, threshold: u64, now: u64) -> bool {
    assoc_has(m.keys, k) && elapsed_ms(now, assoc_get(m.keys, k).pressed_at) >= threshold
}

/// Whether the combo hold rule at `i` fires: enabled, of the given kind,
/// not yet triggered, both keys held past the threshold, and their press
/// instants within the combination window.
pub open spec fn m_combo_fires(
    m: MachineModel,
    i: int,
    rt: RuleType,
    threshold: u64,
    now: u64,
) -> bool {
    let pr = m.rules[i];
    &&& pr.rule.enabled
    &&& pr.rule.rule_type == rt
    &&& pr.keys.len() == 2
    &&& !m.triggered.contains(pr.rule.id)
    &&& combo_held(m, pr.keys[0], threshold, now)
    &&& combo_held(m, pr.keys[1], threshold, now)
    &&& spread_ms(
        assoc_get(m.keys, pr.keys[0]).pressed_at,
        assoc_get(m.keys, pr.keys[1]).pressed_at,
    ) <= m.combo_ms
}

/// One pass over the rules for one combo hold kind: every rule that
/// fires emits, joins the triggered set, and marks both keys.
pub open spec fn m_combo_pass(
    m: MachineModel,
    rt: RuleType,
    threshold: u64,
    now: u64,
    i: int,
    n: int,
) -> (MachineModel, Seq<int>)
    decreases n - i,
{
    if i < 0 || i >= n || i >= m.rules.len() {
        (m, Seq::empty())
    } else if m_combo_fires(m, i, rt, threshold, now) {
        let pr = m.rules[i];
        let long_flag = rt == RuleType::ComboLongPress;
        let m2 = MachineModel {
            triggered: m.triggered.insert(pr.rule.id),
            keys: m_set_key_flag(m_set_key_flag(m.keys, pr.keys[0], long_flag), pr.keys[1], long_flag),
            ..m
        };
        let rec = m_combo_pass(m2, rt, threshold, now, i + 1, n);
        (rec.0, seq![i] + rec.1)
    } else {
        m_combo_pass(m, rt, threshold, now, i + 1, n)
    }
}

/// Drains the deferred clicks whose instant has come, in queue order;
/// the rest stay queued.
pub open spec fn m_drain(m: MachineModel, now: u64) -> (MachineModel, Seq<int>) {
    let fired = m.pending.filter(|p: PendingModel| now >= p.available_at).map_values(
        |p: PendingModel| p.rule,
    );
    let kept = m.pending.filter(|p: PendingModel| !(now >= p.available_at));
    (MachineModel { pending: kept, ..m }, fired)
}

/// One clock tick: hold classification for every held key, then the two
/// combo kinds, then the deferred clicks that became available.
pub open spec fn m_tick(m: MachineModel, now: u64) -> (MachineModel, Seq<int>) {
    let codes = assoc_codes(m.keys);
    let kp = m_tick_keys(m, codes, now, 0);
    let cs = m_combo_pass(
        kp.0,
        RuleType::ComboShortPress,
        kp.0.short_ms,
        now,
        0,
        kp.0.rules.len() as int,
    );
    let cl = m_combo_pass(
        cs.0,
        RuleType::ComboLongPress,
        cs.0.long_ms,
        now,
        0,
        cs.0.rules.len() as int,
    );
    let dr = m_drain(cl.0, now);
    (dr.0, kp.1 + cs.1 + cl.1 + dr.1)
}

/// Mapping a fired list distributes over concatenation.
pub proof fn lemma_fired_actions_concat(m: MachineModel, a: Seq<int>, b: Seq<int>)
    ensures
        fired_actions(m, a + b) == fired_actions(m, a) + fired_actions(m, b),
{
    assert(fired_actions(m, a + b) =~= fired_actions(m, a) + fired_actions(m, b));
}

/// A single-key pass changes only the key flags and the triggered set.
pub proof fn lemma_single_pass_frame(
    m: MachineModel,
    code: u16,
    now: u64,
    rt: RuleType,
    threshold: u64,
    long_flag: bool,
    i: int,
    n: int,
)
    ensures
        ({
            let r = m_single_pass(m, code, now, rt, threshold, long_flag, i, n).0;
            r.rules == m.rules && r.pending == m.pending && r.taps == m.taps && r.long_ms
                == m.long_ms && r.short_ms == m.short_ms && r.double_ms == m.double_ms && r.combo_ms
                == m.combo_ms
        }),
    decreases n - i,
{
    if !(i < 0 || i >= n || i >= m.rules.len()) {
        if m_single_fires(m, code, now, rt, threshold, i) {
            let m2 = MachineModel {
                triggered: m.triggered.insert(m.rules[i].rule.id),
                keys: m_set_key_flag(m.keys, code, long_flag),
                ..m
            };
            lemma_single_pass_frame(m2, code, now, rt, threshold, long_flag, i + 1, n);
        } else {
            lemma_single_pass_frame(m, code, now, rt, threshold, long_flag, i + 1, n);
        }
    }
}

/// A combo pass changes only the key flags and the triggered set.
pub proof fn lemma_combo_pass_frame(
    m: MachineModel,
    rt: RuleType,
    threshold: u64,
    now: u64,
    i: int,
    n: int,
)
    ensures
        ({
            let r = m_combo_pass(m, rt, threshold, now, i, n).0;
            r.rules == m.rules && r.pending == m.pending && r.taps == m.taps && r.long_ms
                == m.long_ms && r.short_ms == m.short_ms && r.double_ms == m.double_ms && r.combo_ms
                == m.combo_ms
        }),
    decreases n - i,
{
    if !(i < 0 || i >= n || i >= m.rules.len()) {
        if m_combo_fires(m, i, rt, threshold, now) {
            let pr = m.rules[i];
            let long_flag = rt == RuleType::ComboLongPress;
            let m2 = MachineModel {
                triggered: m.triggered.insert(pr.rule.id),
                keys: m_set_key_flag(
                    m_set_key_flag(m.keys, pr.keys[0], long_flag),
                    pr.keys[1],
                    long_flag,
                ),
                ..m
            };
            lemma_combo_pass_frame(m2, rt, threshold, now, i + 1, n);
        } else {
            lemma_combo_pass_frame(m, rt, threshold, now, i + 1, n);
        }
    }
}

/// Sets the short- or long-press flag of a held key.
fn set_key_flag(keys: &mut Vec<(u16, KeyState)>, code: u16, long_flag: bool)
    ensures
        final(keys)@ == m_set_key_flag(old(keys)@, code, long_flag),
        assoc_unique(old(keys)@) ==> assoc_unique(final(keys)@),
{
    match assoc_vec_get(keys, code) {
        Some(st) => {
            let st2 = if long_flag {
                KeyState {
                    pressed_at: st.pressed_at,
                    triggered_short_press: st.triggered_short_press,
                    triggered_long_press: true,
                }
            } else {
                KeyState {
                    pressed_at: st.pressed_at,
                    triggered_short_press: true,
                    triggered_long_press: st.triggered_long_press,
                }
            };
            assoc_vec_set(keys, code, st2);
        },
        None => {},
    }
}

/// The gesture engine.
pub struct StateMachine {
    key_states: Vec<(u16, KeyState)>,
    parsed_rules: Vec<ParsedRule>,
    pending_clicks: Vec<PendingClick>,
    long_press_threshold: u64,
    short_press_threshold: u64,
    double_tap_interval: u64,
    combination_timeout: u64,
    tap_history: Vec<(u16, TapEntry)>,
    triggered_rules: Vec<String>,
}

impl View for StateMachine {
    type V = MachineModel;

    closed spec fn view(&self) -> MachineModel {
        MachineModel {
            keys: self.key_states@,
            rules: parsed_rules_model(self.parsed_rules@),
            pending: pendings_model(self.pending_clicks@),
            long_ms: self.long_press_threshold,
            short_ms: self.short_press_threshold,
            double_ms: self.double_tap_interval,
            combo_ms: self.combination_timeout,
            taps: self.tap_history@,
            triggered: ids_view(self.triggered_rules@),
        }
    }
}

impl StateMachine {
    /// The machine's internal invariant: its model is well formed and its
    /// triggered-id list holds each id once.
    pub closed spec fn inv(&self) -> bool {
        &&& m_wf(self@)
        &&& ids_unique(self.triggered_rules@)
    }

    /// Builds a machine from a rule list, a hardware map, and the four
    /// millisecond thresholds.
    pub fn new(
        rules: Vec<Rule>,
        hardware_map: Vec<(u16, String)>,
        long_press_ms: u64,
        short_press_ms: u64,
        double_tap_ms: u64,
        combination_timeout_ms: u64,
    ) -> (r: Self)
        ensures
            r.inv(),
            r@ == (MachineModel {
                keys: Seq::empty(),
                rules: parse_rules_spec(rules@, map_view(hardware_map@)),
                pending: Seq::empty(),
                long_ms: long_press_ms,
                short_ms: short_press_ms,
                double_ms: double_tap_ms,
                combo_ms: combination_timeout_ms,
                taps: Seq::empty(),
                triggered: Set::empty(),
            }),
    {
        let mut sm = StateMachine {
            key_states: Vec::new(),
            parsed_rules: Vec::new(),
            pending_clicks: Vec::new(),
            long_press_threshold: long_press_ms,
            short_press_threshold: short_press_ms,
            double_tap_interval: double_tap_ms,
            combination_timeout: combination_timeout_ms,
            tap_history: Vec::new(),
            triggered_rules: Vec::new(),
        };
        proof {
            assert(ids_view(sm.triggered_rules@) =~= Set::<Seq<char>>::empty());
        }
        sm.update_rules(rules, hardware_map);
        proof {
            assert(parsed_rules_model(Seq::<ParsedRule>::empty()) =~= Seq::<
                ParsedRuleModel,
            >::empty());
            assert(pendings_model(Seq::<PendingClick>::empty()) =~= Seq::<PendingModel>::empty());
        }
        sm
    }

    /// Re-parses the rule set against the hardware map.  When the parsed
    /// list changed, every piece of runtime state is dropped: held keys,
    /// pending clicks, tap history, and the triggered-rule set.
    pub fn update_rules(&mut self, rules: Vec<Rule>, hardware_map: Vec<(u16, String)>)
        requires
            old(self).inv(),
        ensures
            final(self).inv(),
            final(self)@ == m_update_rules(
                old(self)@,
                parse_rules_spec(rules@, map_view(hardware_map@)),
            ),
    {
        let ghost target = parse_rules_spec(rules@, map_view(hardware_map@));
        let n = rules.len();
        let mut new_rules: Vec<ParsedRule> = Vec::new();
        let mut i: usize = 0;
        // move rules out one by one, parsing each trigger
        let mut rules = rules;
        let ghost rules0 = rules@;
        while i < n
            invariant
                0 <= i <= n,
                rules@.len() == n - i,
                forall|k: int| 0 <= k < n - i ==> rules@[k] == rules0[k + i],
                parsed_rules_model(new_rules@) =~= target.subrange(0, i as int),
                target == parse_rules_spec(rules0, map_view(hardware_map@)),
            decreases n - i,
        {
            let r = rules.remove(0);
            let keys = parse_trigger(r.trigger.as_str(), &hardware_map, r.rule_type);
            new_rules.push(ParsedRule { original: r, trigger_keys: keys });
            proof {
                assert(parsed_rules_model(new_rules@) =~= target.subrange(0, i + 1));
            }
            i = i + 1;
        }
        proof {
            assert(target.subrange(0, n as int) =~= target);
        }
        let same = self.rules_equal(&new_rules);
        if !same {
            self.parsed_rules = new_rules;
            self.key_states = Vec::new();
            self.pending_clicks = Vec::new();
            self.tap_history = Vec::new();
            self.triggered_rules = Vec::new();
            proof {
                assert(ids_view(self.triggered_rules@) =~= Set::<Seq<char>>::empty());
                assert(parsed_rules_model(self.parsed_rules@) =~= target);
                assert(pendings_model(self.pending_clicks@) =~= Seq::<PendingModel>::empty());
            }
        } else {
            proof {
                assert(parsed_rules_model(new_rules@) =~= target);
            }
        }
    }

    /// Whether the given parsed rules equal the current ones, model for
    /// model.
    fn rules_equal(&self, other: &Vec<ParsedRule>) -> (r: bool)
        ensures
            r == (parsed_rules_model(self.parsed_rules@) == parsed_rules_model(other@)),
    {
        let ghost a = parsed_rules_model(self.parsed_rules@);
        let ghost b = parsed_rules_model(other@);
        if self.parsed_rules.len() != other.len() {
            proof {
                assert(a.len() == self.parsed_rules@.len());
                assert(b.len() == other@.len());
            }
            return false;
        }
        let n = self.parsed_rules.len();
        let mut i: usize = 0;
        while i < n
            invariant
                0 <= i <= n,
                n == self.parsed_rules@.len(),
                n == other@.len(),
                a == parsed_rules_model(self.parsed_rules@),
                b == parsed_rules_model(other@),
                forall|k: int| 0 <= k < i ==> a[k] == b[k],
            decreases n - i,
        {
            let pa = &self.parsed_rules[i];
            let pb = &other[i];
            let rules_same = rule_eq(&pa.original, &pb.original);
            let mut keys_same = pa.trigger_keys.len() == pb.trigger_keys.len();
            if keys_same {
                let kn = pa.trigger_keys.len();
                let mut k: usize = 0;
                while k < kn
                    invariant
                        0 <= k <= kn,
                        kn == pa.trigger_keys@.len(),
                        kn == pb.trigger_keys@.len(),
                        keys_same == forall|j: int|
                            0 <= j < k ==> pa.trigger_keys@[j] == pb.trigger_keys@[j],
                    decreases kn - k,
                {
                    if pa.trigger_keys[k] != pb.trigger_keys[k] {
                        keys_same = false;
                    }
                    k = k + 1;
                }
                proof {
                    if keys_same {
                        assert(pa.trigger_keys@ =~= pb.trigger_keys@);
                    }
                }
            }
            if !(rules_same && keys_same) {
                proof {
                    assert(a[i as int] == ParsedRuleModel {
                        rule: rule_model(self.parsed_rules@[i as int].original),
                        keys: self.parsed_rules@[i as int].trigger_keys@,
                    });
                    assert(b[i as int] == ParsedRuleModel {
                        rule: rule_model(other@[i as int].original),
                        keys: other@[i as int].trigger_keys@,
                    });
                }
                return false;
            }
            proof {
                assert(a[i as int] == b[i as int]);
            }
            i = i + 1;
        }
        proof {
            assert(a =~= b);
        }
        true
    }

    /// Replaces the four thresholds; runtime state is untouched.
    pub fn update_settings(&mut self, settings: &GlobalSettings)
        requires
            old(self).inv(),
        ensures
            final(self).inv(),
            final(self)@ == m_update_settings(old(self)@, *settings),
    {
        self.long_press_threshold = settings.long_press_threshold_ms as u64;
        self.short_press_threshold = settings.short_press_threshold_ms as u64;
        self.double_tap_interval = settings.double_tap_interval_ms as u64;
        self.combination_timeout = settings.combination_timeout_ms as u64;
        proof {
            lemma_pending_ok_same_rules(old(self)@, self@);
        }
    }

    /// Whether any parsed rule's key list contains the code; such keys
    /// are owned by the engine and never forwarded raw.
    pub fn is_mapped(&self, key_code: u16) -> (r: bool)
        ensures
            r == m_is_mapped(self@, key_code),
    {
        let n = self.parsed_rules.len();
        let mut i: usize = 0;
        while i < n
            invariant
                0 <= i <= n,
                n == self.parsed_rules@.len(),
                forall|k: int|
                    0 <= k < i ==> !(#[trigger] parsed_rules_model(
                        self.parsed_rules@,
                    )[k]).keys.contains(key_code),
            decreases n - i,
        {
            let keys = &self.parsed_rules[i].trigger_keys;
            let kn = keys.len();
            let mut k: usize = 0;
            while k < kn
                invariant
                    0 <= k <= kn,
                    kn == keys@.len(),
                    forall|j: int| 0 <= j < k ==> keys@[j] != key_code,
                decreases kn - k,
            {
                if keys[k] == key_code {
                    proof {
                        assert(parsed_rules_model(self.parsed_rules@)[i as int].keys
                            == keys@);
                        assert(parsed_rules_model(self.parsed_rules@)[i as int].keys.contains(
                            key_code,
                        ));
                    }
                    return true;
                }
                k = k + 1;
            }
            proof {
                assert(parsed_rules_model(self.parsed_rules@)[i as int].keys == keys@);
                if parsed_rules_model(self.parsed_rules@)[i as int].keys.contains(key_code) {
                    let w = choose|j: int| 0 <= j < keys@.len() && keys@[j] == key_code;
                    assert(false);
                }
            }
            i = i + 1;
        }
        false
    }

    /// Whether combo participant `k` passes the short-hold test on this
    /// release.
    fn combo_key_ok_at(&self, code: u16, pressed_at: u64, now: u64, k: u16) -> (r: bool)
        ensures
            r == combo_key_ok(self@, code, pressed_at, now, k),
    {
        if k == code {
            elapsed_millis(now, pressed_at) < self.short_press_threshold
        } else {
            match assoc_vec_get(&self.key_states, k) {
                Some(st) => elapsed_millis(now, st.pressed_at) < self.short_press_threshold,
                None => false,
            }
        }
    }

    /// The press instant combo participant `k` contributes.
    fn combo_time_at(&self, code: u16, pressed_at: u64, k: u16) -> (r: u64)
        requires
            k == code || assoc_has(self@.keys, k),
        ensures
            r == combo_time(self@, code, pressed_at, k),
    {
        if k == code {
            pressed_at
        } else {
            let st = assoc_vec_get(&self.key_states, k);
            st.unwrap().pressed_at
        }
    }

    /// Whether the ComboClick rule at `i` fires on this release.
    fn combo_click_check(&self, i: usize, code: u16, pressed_at: u64, now: u64) -> (r: bool)
        requires
            i < self.parsed_rules@.len(),
        ensures
            r == combo_click_matches(self@, i as int, code, pressed_at, now),
    {
        let pr = &self.parsed_rules[i];
        proof {
            assert(self@.rules[i as int].keys == pr.trigger_keys@);
            assert(self@.rules[i as int].rule == rule_model(pr.original));
        }
        if !pr.original.enabled || !(pr.original.rule_type == RuleType::ComboClick)
            || pr.trigger_keys.len() != 2 {
            return false;
        }
        if !keys_contain(&pr.trigger_keys, code) {
            return false;
        }
        let k0 = pr.trigger_keys[0];
        let k1 = pr.trigger_keys[1];
        if !self.combo_key_ok_at(code, pressed_at, now, k0) {
            return false;
        }
        if !self.combo_key_ok_at(code, pressed_at, now, k1) {
            return false;
        }
        let t0 = self.combo_time_at(code, pressed_at, k0);
        let t1 = self.combo_time_at(code, pressed_at, k1);
        let spread = if t0 >= t1 {
            t0 - t1
        } else {
            t1 - t0
        };
        spread <= self.combination_timeout
    }

    /// The ComboClick actions fired by this release, in rule order.
    fn check_combo_release(&self, key_code: u16, released_pressed_at: u64, now: u64) -> (acts: Vec<
        Action,
    >)
        ensures
            acts@.map_values(|a: Action| action_model(a)) == fired_actions(
                self@,
                combo_release_fired(
                    self@,
                    key_code,
                    released_pressed_at,
                    now,
                    0,
                    self@.rules.len() as int,
                ),
            ),
    {
        let ghost m = self@;
        let n = self.parsed_rules.len();
        proof {
            assert(m.rules.len() == n);
        }
        let ghost target = fired_actions(
            m,
            combo_release_fired(m, key_code, released_pressed_at, now, 0, n as int),
        );
        let mut acts: Vec<Action> = Vec::new();
        let mut i: usize = 0;
        while i < n
            invariant
                0 <= i <= n,
                n == self.parsed_rules@.len(),
                m == self@,
                target == fired_actions(
                    m,
                    combo_release_fired(m, key_code, released_pressed_at, now, 0, n as int),
                ),
                acts@.map_values(|a: Action| action_model(a)) + fired_actions(
                    m,
                    combo_release_fired(m, key_code, released_pressed_at, now, i as int, n as int),
                ) =~= target,
            decreases n - i,
        {
            let ghost av = acts@.map_values(|a: Action| action_model(a));
            let fires = self.combo_click_check(i, key_code, released_pressed_at, now);
            if fires {
                acts.push(self.parsed_rules[i].original.action.clone());
                proof {
                    assert(acts@.map_values(|a: Action| action_model(a)) =~= av.push(
                        m.rules[i as int].rule.action,
                    ));
                    assert(combo_release_fired(
                        m,
                        key_code,
                        released_pressed_at,
                        now,
                        i as int,
                        n as int,
                    ) == seq![i as int] + combo_release_fired(
                        m,
                        key_code,
                        released_pressed_at,
                        now,
                        i + 1,
                        n as int,
                    ));
                    assert(fired_actions(
                        m,
                        combo_release_fired(
                            m,
                            key_code,
                            released_pressed_at,
                            now,
                            i as int,
                            n as int,
                        ),
                    ) =~= seq![m.rules[i as int].rule.action] + fired_actions(
                        m,
                        combo_release_fired(m, key_code, released_pressed_at, now, i + 1, n as int),
                    ));
                    assert(acts@.map_values(|a: Action| action_model(a)) + fired_actions(
                        m,
                        combo_release_fired(m, key_code, released_pressed_at, now, i + 1, n as int),
                    ) =~= target);
                }
            } else {
                proof {
                    assert(combo_release_fired(
                        m,
                        key_code,
                        released_pressed_at,
                        now,
                        i as int,
                        n as int,
                    ) == combo_release_fired(
                        m,
                        key_code,
                        released_pressed_at,
                        now,
                        i + 1,
                        n as int,
                    ));
                }
            }
            i = i + 1;
        }
        proof {
            assert(combo_release_fired(m, key_code, released_pressed_at, now, n as int, n as int)
                == Seq::<int>::empty());
            assert(fired_actions(m, Seq::<int>::empty()) =~= Seq::<ActionModel>::empty());
            assert(acts@.map_values(|a: Action| action_model(a)) =~= target);
        }
        acts
    }

    /// Tap handling for a short release: counts the tap against the
    /// double-tap window and fires, defers, or drops the Click rules.
    fn handle_tap(&mut self, key_code: u16, now: u64) -> (acts: Vec<Action>)
        requires
            old(self).inv(),
        ensures
            final(self).inv(),
            final(self)@ == m_tap(old(self)@, key_code, now).0,
            acts@.map_values(|a: Action| action_model(a)) == fired_actions(
                old(self)@,
                m_tap(old(self)@, key_code, now).1,
            ),
    {
        let ghost m0 = old(self)@;
        let prior = assoc_vec_get(&self.tap_history, key_code);
        let (count, last): (u32, u64) = match prior {
            Some(e) => (e.count, e.last),
            None => (0u32, now),
        };
        let el = elapsed_millis(now, last);
        let new_count: u32 = if el < self.double_tap_interval {
            if count < 0xFFFF_FFFFu32 {
                count + 1
            } else {
                count
            }
        } else {
            1
        };
        assoc_vec_set(&mut self.tap_history, key_code, TapEntry { count: new_count, last: now });
        let ghost m1 = MachineModel {
            taps: assoc_set(m0.taps, key_code, TapEntry { count: new_count, last: now }),
            ..m0
        };
        proof {
            assert(self@ == m1);
        }
        let dc = find_dc(&self.parsed_rules, key_code);
        let mut acts: Vec<Action> = Vec::new();
        match dc {
            Some(di) => {
                if new_count == 2 {
                    acts.push(self.parsed_rules[di].original.action.clone());
                    retain_pending(&mut self.pending_clicks, key_code);
                    assoc_vec_remove(&mut self.tap_history, key_code);
                    proof {
                        assert(self@ == m_tap(m0, key_code, now).0);
                        assert(m_tap(m0, key_code, now).1 == seq![di as int]);
                        assert(acts@.map_values(|a: Action| action_model(a)) =~= seq![
                            m0.rules[di as int].rule.action,
                        ]);
                        assert(fired_actions(m0, seq![di as int]) =~= seq![
                            m0.rules[di as int].rule.action,
                        ]);
                        // the retained pendings all come from the old list
                        assert forall|p: int|
                            0 <= p < self@.pending.len() implies m_pending_ok(
                            self@,
                            #[trigger] self@.pending[p],
                        ) by {
                            assert(m0.pending.contains(self@.pending[p]));
                            let q = choose|q: int|
                                0 <= q < m0.pending.len() && m0.pending[q] == self@.pending[p];
                            assert(m_pending_ok(m0, m0.pending[q]));
                        }
                    }
                } else {
                    let at = saturating_add_u64(now, self.double_tap_interval);
                    enqueue_clicks(&mut self.pending_clicks, &self.parsed_rules, key_code, at);
                    proof {
                        assert(self@ == m_tap(m0, key_code, now).0);
                        assert(m_tap(m0, key_code, now).1 == Seq::<int>::empty());
                        assert(acts@.map_values(|a: Action| action_model(a)) =~= Seq::<
                            ActionModel,
                        >::empty());
                        assert(fired_actions(m0, Seq::<int>::empty()) =~= Seq::<
                            ActionModel,
                        >::empty());
                        // the enqueued pendings point at Click rules
                        let idxs = click_rule_idxs(m0.rules, key_code, 0, m0.rules.len() as int);
                        lemma_click_idxs_ok(m0.rules, key_code, 0, m0.rules.len() as int);
                        assert forall|p: int|
                            0 <= p < self@.pending.len() implies m_pending_ok(
                            self@,
                            #[trigger] self@.pending[p],
                        ) by {
                            if p < m0.pending.len() {
                                assert(m_pending_ok(m0, m0.pending[p]));
                                assert(self@.pending[p] == m0.pending[p]);
                            } else {
                                let k = p - m0.pending.len();
                                assert(self@.pending[p] == click_pendings(idxs, key_code, at)[k]);
                                assert(click_pendings(idxs, key_code, at)[k] == (PendingModel {
                                    key_code,
                                    rule: idxs[k],
                                    available_at: at,
                                }));
                                assert(is_click_rule(m0.rules, idxs[k], key_code));
                            }
                        }
                    }
                }
            },
            None => {
                acts = click_actions(&self.parsed_rules, key_code);
                proof {
                    assert(self@ == m_tap(m0, key_code, now).0);
                    assert(m_tap(m0, key_code, now).1 == click_rule_idxs(
                        m0.rules,
                        key_code,
                        0,
                        m0.rules.len() as int,
                    ));
                    assert(acts@.map_values(|a: Action| action_model(a)) =~= fired_actions(
                        m0,
                        m_tap(m0, key_code, now).1,
                    ));
                    lemma_pending_ok_same_rules(m0, self@);
                }
            },
        }
        acts
    }

    /// One key event at a given instant: a press (1) records the key, a
    /// release (0) classifies the gesture, auto-repeat (2) does nothing.
    /// The returned actions are those of the rules that fired, in order.
    pub fn handle_key_at(&mut self, key_code: u16, value: i32, now: u64) -> (r: Vec<Action>)
        requires
            old(self).inv(),
        ensures
            final(self).inv(),
            final(self)@ == m_handle_key(old(self)@, key_code, value, now).0,
            r@.map_values(|a: Action| action_model(a)) == fired_actions(
                old(self)@,
                m_handle_key(old(self)@, key_code, value, now).1,
            ),
    {
        let ghost m0 = old(self)@;
        if value == 1 {
            assoc_vec_set(
                &mut self.key_states,
                key_code,
                KeyState {
                    pressed_at: now,
                    triggered_short_press: false,
                    triggered_long_press: false,
                },
            );
            let r: Vec<Action> = Vec::new();
            proof {
                lemma_pending_ok_same_rules(m0, self@);
                assert(self@ == m_press(m0, key_code, now));
                assert(r@.map_values(|a: Action| action_model(a)) =~= Seq::<ActionModel>::empty());
                assert(fired_actions(m0, Seq::<int>::empty()) =~= Seq::<ActionModel>::empty());
            }
            r
        } else if value == 0 {
            let removed = assoc_vec_remove(&mut self.key_states, key_code);
            match removed {
                None => {
                    let r: Vec<Action> = Vec::new();
                    proof {
                        lemma_assoc_find_props(m0.keys, key_code);
                        assert(assoc_find(m0.keys, key_code) == -1);
                        assert(self@ == m0);
                        assert(r@.map_values(|a: Action| action_model(a)) =~= Seq::<
                            ActionModel,
                        >::empty());
                        assert(fired_actions(m0, Seq::<int>::empty()) =~= Seq::<
                            ActionModel,
                        >::empty());
                    }
                    r
                },
                Some(st) => {
                    proof {
                        lemma_assoc_find_props(m0.keys, key_code);
                    }
                    clear_triggered(&mut self.triggered_rules, &self.parsed_rules, key_code);
                    let ghost f = assoc_find(m0.keys, key_code);
                    let ghost m1 = MachineModel {
                        keys: m0.keys.remove(f),
                        triggered: m_clear_triggered(
                            m0.triggered,
                            m0.rules,
                            key_code,
                            0,
                            m0.rules.len() as int,
                        ),
                        ..m0
                    };
                    proof {
                        assert(st == m0.keys[f].1);
                        assert(self@ == m1);
                        lemma_pending_ok_same_rules(m0, self@);
                        assert(self.inv());
                    }
                    let hold_handled = st.triggered_short_press || st.triggered_long_press;
                    let dur = elapsed_millis(now, st.pressed_at);
                    if !hold_handled && dur < self.short_press_threshold {
                        let ghost fired_combo = combo_release_fired(
                            m1,
                            key_code,
                            st.pressed_at,
                            now,
                            0,
                            m1.rules.len() as int,
                        );
                        let combo = self.check_combo_release(key_code, st.pressed_at, now);
                        if combo.len() > 0 {
                            proof {
                                assert(combo@.map_values(|a: Action| action_model(a)).len()
                                    == combo@.len());
                                assert(fired_combo.len() > 0);
                                assert(m_handle_key(m0, key_code, value, now).1 == fired_combo);
                                lemma_fired_actions_same_rules(m1, m0, fired_combo);
                            }
                            combo
                        } else {
                            proof {
                                assert(combo@.map_values(|a: Action| action_model(a)).len() == 0);
                                assert(fired_combo.len() == 0);
                            }
                            let tap_acts = self.handle_tap(key_code, now);
                            proof {
                                assert(final(self)@ == m_tap(m1, key_code, now).0);
                                lemma_fired_actions_same_rules(
                                    m1,
                                    m0,
                                    m_tap(m1, key_code, now).1,
                                );
                            }
                            tap_acts
                        }
                    } else {
                        let r: Vec<Action> = Vec::new();
                        proof {
                            assert(r@.map_values(|a: Action| action_model(a)) =~= Seq::<
                                ActionModel,
                            >::empty());
                            assert(fired_actions(m0, Seq::<int>::empty()) =~= Seq::<
                                ActionModel,
                            >::empty());
                        }
                        r
                    }
                },
            }
        } else {
            let r: Vec<Action> = Vec::new();
            proof {
                assert(self@ == m0);
                assert(r@.map_values(|a: Action| action_model(a)) =~= Seq::<ActionModel>::empty());
                assert(fired_actions(m0, Seq::<int>::empty()) =~= Seq::<ActionModel>::empty());
            }
            r
        }
    }

    /// One key event, reading the clock.
    pub fn handle_key(&mut self, key_code: u16, value: i32) -> (r: Vec<Action>)
        requires
            old(self).inv(),
        ensures
            final(self).inv(),
            exists|now: u64|
                final(self)@ == m_handle_key(old(self)@, key_code, value, now).0
                    && r@.map_values(|a: Action| action_model(a)) == fired_actions(
                    old(self)@,
                    m_handle_key(old(self)@, key_code, value, now).1,
                ),
    {
        let now = now_millis();
        self.handle_key_at(key_code, value, now)
    }

    /// Whether the single-key hold rule at `i` fires now.
    fn single_fires_at(&self, i: usize, code: u16, now: u64, rt: RuleType, threshold: u64) -> (r:
        bool)
        requires
            i < self.parsed_rules@.len(),
        ensures
            r == m_single_fires(self@, code, now, rt, threshold, i as int),
    {
        let pr = &self.parsed_rules[i];
        proof {
            assert(self@.rules[i as int].keys == pr.trigger_keys@);
            assert(self@.rules[i as int].rule == rule_model(pr.original));
        }
        let single = pr.trigger_keys.len() == 1 && pr.trigger_keys[0] == code;
        proof {
            if single {
                assert(pr.trigger_keys@ =~= seq![code]);
            }
            if self@.rules[i as int].keys == seq![code] {
                assert(pr.trigger_keys@.len() == 1 && pr.trigger_keys@[0] == code);
            }
        }
        if !(pr.original.enabled && single && pr.original.rule_type == rt) {
            return false;
        }
        if ids_contains(&self.triggered_rules, pr.original.id.as_str()) {
            return false;
        }
        match assoc_vec_get(&self.key_states, code) {
            Some(st) => elapsed_millis(now, st.pressed_at) >= threshold,
            None => false,
        }
    }

    /// Whether the combo hold rule at `i` fires now.
    fn combo_fires_at(&self, i: usize, rt: RuleType, threshold: u64, now: u64) -> (r: bool)
        requires
            i < self.parsed_rules@.len(),
        ensures
            r == m_combo_fires(self@, i as int, rt, threshold, now),
    {
        let pr = &self.parsed_rules[i];
        proof {
            assert(self@.rules[i as int].keys == pr.trigger_keys@);
            assert(self@.rules[i as int].rule == rule_model(pr.original));
        }
        if !(pr.original.enabled && pr.original.rule_type == rt && pr.trigger_keys.len() == 2) {
            return false;
        }
        if ids_contains(&self.triggered_rules, pr.original.id.as_str()) {
            return false;
        }
        let k0 = pr.trigger_keys[0];
        let k1 = pr.trigger_keys[1];
        let t0 = match assoc_vec_get(&self.key_states, k0) {
            Some(st) => {
                if elapsed_millis(now, st.pressed_at) >= threshold {
                    st.pressed_at
                } else {
                    return false;
                }
            },
            None => {
                return false;
            },
        };
        let t1 = match assoc_vec_get(&self.key_states, k1) {
            Some(st) => {
                if elapsed_millis(now, st.pressed_at) >= threshold {
                    st.pressed_at
                } else {
                    return false;
                }
            },
            None => {
                return false;
            },
        };
        let spread = if t0 >= t1 {
            t0 - t1
        } else {
            t1 - t0
        };
        spread <= self.combination_timeout
    }

    /// One pass over the rules for one held key and one hold kind.
    fn single_pass(
        &mut self,
        code: u16,
        now: u64,
        rt: RuleType,
        threshold: u64,
        long_flag: bool,
        acts: &mut Vec<Action>,
    )
        requires
            old(self).inv(),
        ensures
            final(self).inv(),
            final(self)@ == m_single_pass(
                old(self)@,
                code,
                now,
                rt,
                threshold,
                long_flag,
                0,
                old(self)@.rules.len() as int,
            ).0,
            final(acts)@.map_values(|a: Action| action_model(a)) == old(acts)@.map_values(
                |a: Action| action_model(a),
            ) + fired_actions(
                old(self)@,
                m_single_pass(
                    old(self)@,
                    code,
                    now,
                    rt,
                    threshold,
                    long_flag,
                    0,
                    old(self)@.rules.len() as int,
                ).1,
            ),
    {
        let ghost m0 = old(self)@;
        let n = self.parsed_rules.len();
        let ghost target = m_single_pass(m0, code, now, rt, threshold, long_flag, 0, n as int);
        let mut i: usize = 0;
        let ghost mut fired_acc: Seq<int> = Seq::empty();
        proof {
            assert(fired_actions(m0, fired_acc) =~= Seq::<ActionModel>::empty());
            assert(acts@.map_values(|a: Action| action_model(a)) =~= old(acts)@.map_values(
                |a: Action| action_model(a),
            ) + fired_actions(m0, fired_acc));
        }
        while i < n
            invariant
                0 <= i <= n,
                n == self.parsed_rules@.len(),
                self.inv(),
                self@.rules == m0.rules,
                target == m_single_pass(m0, code, now, rt, threshold, long_flag, 0, n as int),
                target.0 == m_single_pass(
                    self@,
                    code,
                    now,
                    rt,
                    threshold,
                    long_flag,
                    i as int,
                    n as int,
                ).0,
                target.1 == fired_acc + m_single_pass(
                    self@,
                    code,
                    now,
                    rt,
                    threshold,
                    long_flag,
                    i as int,
                    n as int,
                ).1,
                acts@.map_values(|a: Action| action_model(a)) == old(acts)@.map_values(
                    |a: Action| action_model(a),
                ) + fired_actions(m0, fired_acc),
            decreases n - i,
        {
            let ghost mcur = self@;
            let ghost av = acts@.map_values(|a: Action| action_model(a));
            let ghost facc0 = fired_acc;
            let fires = self.single_fires_at(i, code, now, rt, threshold);
            if fires {
                acts.push(self.parsed_rules[i].original.action.clone());
                ids_insert(&mut self.triggered_rules, self.parsed_rules[i].original.id.as_str());
                set_key_flag(&mut self.key_states, code, long_flag);
                proof {
                    let m2 = MachineModel {
                        triggered: mcur.triggered.insert(mcur.rules[i as int].rule.id),
                        keys: m_set_key_flag(mcur.keys, code, long_flag),
                        ..mcur
                    };
                    assert(self@ == m2);
                    lemma_pending_ok_same_rules(mcur, self@);
                    assert(m_single_pass(mcur, code, now, rt, threshold, long_flag, i as int, n as int).0
                        == m_single_pass(m2, code, now, rt, threshold, long_flag, i + 1, n as int).0);
                    assert(m_single_pass(mcur, code, now, rt, threshold, long_flag, i as int, n as int).1
                        == seq![i as int] + m_single_pass(
                        m2,
                        code,
                        now,
                        rt,
                        threshold,
                        long_flag,
                        i + 1,
                        n as int,
                    ).1);
                    fired_acc = fired_acc + seq![i as int];
                    assert(fired_actions(m0, fired_acc) =~= fired_actions(m0, facc0) + seq![
                        m0.rules[i as int].rule.action,
                    ]);
                    assert(acts@.map_values(|a: Action| action_model(a)) =~= av.push(
                        m0.rules[i as int].rule.action,
                    ));
                    assert(acts@.map_values(|a: Action| action_model(a)) =~= old(acts)@.map_values(
                        |a: Action| action_model(a),
                    ) + fired_actions(m0, fired_acc));
                    assert(target.1 =~= fired_acc + m_single_pass(
                        self@,
                        code,
                        now,
                        rt,
                        threshold,
                        long_flag,
                        i + 1,
                        n as int,
                    ).1);
                }
            } else {
                proof {
                    assert(m_single_pass(mcur, code, now, rt, threshold, long_flag, i as int, n as int)
                        == m_single_pass(mcur, code, now, rt, threshold, long_flag, i + 1, n as int));
                }
            }
            i = i + 1;
        }
        proof {
            assert(m_single_pass(self@, code, now, rt, threshold, long_flag, n as int, n as int).0
                == self@);
            assert(m_single_pass(self@, code, now, rt, threshold, long_flag, n as int, n as int).1
                == Seq::<int>::empty());
            assert(target.1 =~= fired_acc);
        }
    }

    /// One pass over the rules for one combo hold kind.
    fn check_combo_hold(
        &mut self,
        rt: RuleType,
        threshold: u64,
        now: u64,
        acts: &mut Vec<Action>,
    )
        requires
            old(self).inv(),
        ensures
            final(self).inv(),
            final(self)@ == m_combo_pass(
                old(self)@,
                rt,
                threshold,
                now,
                0,
                old(self)@.rules.len() as int,
            ).0,
            final(acts)@.map_values(|a: Action| action_model(a)) == old(acts)@.map_values(
                |a: Action| action_model(a),
            ) + fired_actions(
                old(self)@,
                m_combo_pass(old(self)@, rt, threshold, now, 0, old(self)@.rules.len() as int).1,
            ),
    {
        let ghost m0 = old(self)@;
        let n = self.parsed_rules.len();
        let ghost target = m_combo_pass(m0, rt, threshold, now, 0, n as int);
        let mut i: usize = 0;
        let ghost mut fired_acc: Seq<int> = Seq::empty();
        proof {
            assert(fired_actions(m0, fired_acc) =~= Seq::<ActionModel>::empty());
            assert(acts@.map_values(|a: Action| action_model(a)) =~= old(acts)@.map_values(
                |a: Action| action_model(a),
            ) + fired_actions(m0, fired_acc));
        }
        while i < n
            invariant
                0 <= i <= n,
                n == self.parsed_rules@.len(),
                self.inv(),
                self@.rules == m0.rules,
                target == m_combo_pass(m0, rt, threshold, now, 0, n as int),
                target.0 == m_combo_pass(self@, rt, threshold, now, i as int, n as int).0,
                target.1 == fired_acc + m_combo_pass(self@, rt, threshold, now, i as int, n as int).1,
                acts@.map_values(|a: Action| action_model(a)) == old(acts)@.map_values(
                    |a: Action| action_model(a),
                ) + fired_actions(m0, fired_acc),
            decreases n - i,
        {
            let ghost mcur = self@;
            let ghost av = acts@.map_values(|a: Action| action_model(a));
            let ghost facc0 = fired_acc;
            let fires = self.combo_fires_at(i, rt, threshold, now);
            if fires {
                acts.push(self.parsed_rules[i].original.action.clone());
                ids_insert(&mut self.triggered_rules, self.parsed_rules[i].original.id.as_str());
                let long_flag = rt == RuleType::ComboLongPress;
                let k0 = self.parsed_rules[i].trigger_keys[0];
                let k1 = self.parsed_rules[i].trigger_keys[1];
                set_key_flag(&mut self.key_states, k0, long_flag);
                set_key_flag(&mut self.key_states, k1, long_flag);
                proof {
                    let pr = mcur.rules[i as int];
                    let m2 = MachineModel {
                        triggered: mcur.triggered.insert(pr.rule.id),
                        keys: m_set_key_flag(
                            m_set_key_flag(mcur.keys, pr.keys[0], long_flag),
                            pr.keys[1],
                            long_flag,
                        ),
                        ..mcur
                    };
                    assert(self@ == m2);
                    lemma_pending_ok_same_rules(mcur, self@);
                    assert(m_combo_pass(mcur, rt, threshold, now, i as int, n as int).0
                        == m_combo_pass(m2, rt, threshold, now, i + 1, n as int).0);
                    assert(m_combo_pass(mcur, rt, threshold, now, i as int, n as int).1 == seq![
                        i as int,
                    ] + m_combo_pass(m2, rt, threshold, now, i + 1, n as int).1);
                    fired_acc = fired_acc + seq![i as int];
                    assert(fired_actions(m0, fired_acc) =~= fired_actions(m0, facc0) + seq![
                        m0.rules[i as int].rule.action,
                    ]);
                    assert(acts@.map_values(|a: Action| action_model(a)) =~= av.push(
                        m0.rules[i as int].rule.action,
                    ));
                    assert(acts@.map_values(|a: Action| action_model(a)) =~= old(acts)@.map_values(
                        |a: Action| action_model(a),
                    ) + fired_actions(m0, fired_acc));
                    assert(target.1 =~= fired_acc + m_combo_pass(
                        self@,
                        rt,
                        threshold,
                        now,
                        i + 1,
                        n as int,
                    ).1);
                }
            } else {
                proof {
                    assert(m_combo_pass(mcur, rt, threshold, now, i as int, n as int)
                        == m_combo_pass(mcur, rt, threshold, now, i + 1, n as int));
                }
            }
            i = i + 1;
        }
        proof {
            assert(m_combo_pass(self@, rt, threshold, now, n as int, n as int).0 == self@);
            assert(m_combo_pass(self@, rt, threshold, now, n as int, n as int).1 == Seq::<
                int,
            >::empty());
            assert(target.1 =~= fired_acc);
        }
    }

    /// Emits the deferred clicks whose instant has come and keeps the
    /// rest queued.
    fn drain_pending(&mut self, now: u64, acts: &mut Vec<Action>)
        requires
            old(self).inv(),
        ensures
            final(self).inv(),
            final(self)@ == m_drain(old(self)@, now).0,
            final(acts)@.map_values(|a: Action| action_model(a)) == old(acts)@.map_values(
                |a: Action| action_model(a),
            ) + fired_actions(old(self)@, m_drain(old(self)@, now).1),
    {
        let ghost m0 = old(self)@;
        let ghost fire_pred = |p: PendingModel| now >= p.available_at;
        let ghost keep_pred = |p: PendingModel| !(now >= p.available_at);
        let n = self.pending_clicks.len();
        let mut kept: Vec<PendingClick> = Vec::new();
        let mut j: usize = 0;
        proof {
            assert(pendings_model(self.pending_clicks@).len() == n);
        }
        while j < n
            invariant
                0 <= j <= n,
                n == self.pending_clicks@.len(),
                self.inv(),
                self@ == m0,
                fire_pred == (|p: PendingModel| now >= p.available_at),
                keep_pred == (|p: PendingModel| !(now >= p.available_at)),
                pendings_model(kept@) == pendings_model(
                    self.pending_clicks@.subrange(0, j as int),
                ).filter(keep_pred),
                forall|q: int|
                    0 <= q < pendings_model(kept@).len() ==> m0.pending.contains(
                        #[trigger] pendings_model(kept@)[q],
                    ),
                acts@.map_values(|a: Action| action_model(a)) == old(acts)@.map_values(
                    |a: Action| action_model(a),
                ) + fired_actions(
                    m0,
                    pendings_model(self.pending_clicks@.subrange(0, j as int)).filter(
                        fire_pred,
                    ).map_values(|p: PendingModel| p.rule),
                ),
            decreases n - j,
        {
            let ghost prefix = pendings_model(self.pending_clicks@.subrange(0, j as int));
            let ghost pj = pendings_model(self.pending_clicks@)[j as int];
            proof {
                assert(pendings_model(self.pending_clicks@.subrange(0, j + 1)) =~= prefix.push(pj));
                prefix.lemma_filter_push(pj, keep_pred);
                prefix.lemma_filter_push(pj, fire_pred);
                assert(m0.pending[j as int] == pj);
                assert(m_pending_ok(m0, pj));
            }
            let ghost av = acts@.map_values(|a: Action| action_model(a));
            let p = self.pending_clicks[j];
            proof {
                assert(pj == (PendingModel {
                    key_code: p.key_code,
                    rule: p.rule_index as int,
                    available_at: p.available_at,
                }));
            }
            if now >= p.available_at {
                acts.push(self.parsed_rules[p.rule_index].original.action.clone());
                proof {
                    assert(prefix.push(pj).filter(fire_pred) =~= prefix.filter(fire_pred).push(pj));
                    assert(prefix.push(pj).filter(fire_pred).map_values(|p2: PendingModel| p2.rule)
                        =~= prefix.filter(fire_pred).map_values(|p2: PendingModel| p2.rule).push(
                        pj.rule,
                    ));
                    assert(acts@.map_values(|a: Action| action_model(a)) =~= av.push(
                        m0.rules[pj.rule].rule.action,
                    ));
                    assert(fired_actions(
                        m0,
                        prefix.filter(fire_pred).map_values(|p2: PendingModel| p2.rule).push(
                            pj.rule,
                        ),
                    ) =~= fired_actions(
                        m0,
                        prefix.filter(fire_pred).map_values(|p2: PendingModel| p2.rule),
                    ).push(m0.rules[pj.rule].rule.action));
                    assert(acts@.map_values(|a: Action| action_model(a)) =~= old(
                        acts,
                    )@.map_values(|a: Action| action_model(a)) + fired_actions(
                        m0,
                        prefix.push(pj).filter(fire_pred).map_values(|p2: PendingModel| p2.rule),
                    ));
                }
            } else {
                kept.push(p);
                proof {
                    assert(pendings_model(kept@) =~= prefix.filter(keep_pred).push(pj));
                    assert(m0.pending.contains(pj));
                }
            }
            j = j + 1;
        }
        proof {
            assert(self.pending_clicks@.subrange(0, n as int) =~= self.pending_clicks@);
        }
        self.pending_clicks = kept;
        proof {
            assert(self@ == m_drain(m0, now).0);
            assert forall|p: int|
                0 <= p < self@.pending.len() implies m_pending_ok(self@, #[trigger] self@.pending[p]) by {
                assert(m0.pending.contains(self@.pending[p]));
                let q = choose|q: int|
                    0 <= q < m0.pending.len() && m0.pending[q] == self@.pending[p];
                assert(m_pending_ok(m0, m0.pending[q]));
            }
        }
    }

    /// One clock tick at a given instant: hold rules for every held key,
    /// combo hold rules, and the deferred clicks whose window expired.
    pub fn tick_at(&mut self, now: u64) -> (r: Vec<Action>)
        requires
            old(self).inv(),
        ensures
            final(self).inv(),
            final(self)@ == m_tick(old(self)@, now).0,
            r@.map_values(|a: Action| action_model(a)) == fired_actions(
                old(self)@,
                m_tick(old(self)@, now).1,
            ),
    {
        let ghost m0 = old(self)@;
        let mut acts: Vec<Action> = Vec::new();
        let codes = assoc_vec_codes(&self.key_states);
        let ghost target = m_tick_keys(m0, codes@, now, 0);
        let kn = codes.len();
        let mut k: usize = 0;
        let ghost mut fired_acc: Seq<int> = Seq::empty();
        proof {
            assert(fired_actions(m0, fired_acc) =~= Seq::<ActionModel>::empty());
            assert(acts@.map_values(|a: Action| action_model(a)) =~= fired_actions(m0, fired_acc));
        }
        while k < kn
            invariant
                0 <= k <= kn,
                kn == codes@.len(),
                self.inv(),
                self@.rules == m0.rules,
                target == m_tick_keys(m0, codes@, now, 0),
                target.0 == m_tick_keys(self@, codes@, now, k as int).0,
                target.1 == fired_acc + m_tick_keys(self@, codes@, now, k as int).1,
                acts@.map_values(|a: Action| action_model(a)) == fired_actions(m0, fired_acc),
            decreases kn - k,
        {
            let ghost mcur = self@;
            let ghost facc0 = fired_acc;
            let code = codes[k];
            let short_th = self.short_press_threshold;
            let ghost sp = m_single_pass(
                mcur,
                code,
                now,
                RuleType::ShortPress,
                mcur.short_ms,
                false,
                0,
                mcur.rules.len() as int,
            );
            self.single_pass(code, now, RuleType::ShortPress, short_th, false, &mut acts);
            let long_th = self.long_press_threshold;
            let ghost mid = self@;
            let ghost lp = m_single_pass(
                mid,
                code,
                now,
                RuleType::LongPress,
                mid.long_ms,
                true,
                0,
                mid.rules.len() as int,
            );
            self.single_pass(code, now, RuleType::LongPress, long_th, true, &mut acts);
            proof {
                lemma_single_pass_frame(
                    mcur,
                    code,
                    now,
                    RuleType::ShortPress,
                    mcur.short_ms,
                    false,
                    0,
                    mcur.rules.len() as int,
                );
                lemma_single_pass_frame(
                    mid,
                    code,
                    now,
                    RuleType::LongPress,
                    mid.long_ms,
                    true,
                    0,
                    mid.rules.len() as int,
                );
                lemma_fired_actions_same_rules(mcur, m0, sp.1);
                lemma_fired_actions_same_rules(mid, m0, lp.1);
                fired_acc = fired_acc + sp.1 + lp.1;
                assert(fired_actions(m0, fired_acc) =~= fired_actions(m0, facc0) + fired_actions(
                    m0,
                    sp.1,
                ) + fired_actions(m0, lp.1));
                assert(acts@.map_values(|a: Action| action_model(a)) =~= fired_actions(
                    m0,
                    fired_acc,
                ));
                assert(m_tick_keys(mcur, codes@, now, k as int).0 == m_tick_keys(
                    self@,
                    codes@,
                    now,
                    k + 1,
                ).0);
                assert(m_tick_keys(mcur, codes@, now, k as int).1 =~= sp.1 + lp.1 + m_tick_keys(
                    self@,
                    codes@,
                    now,
                    k + 1,
                ).1);
                assert(target.1 =~= fired_acc + m_tick_keys(self@, codes@, now, k + 1).1);
            }
            k = k + 1;
        }
        proof {
            assert(m_tick_keys(self@, codes@, now, kn as int).0 == self@);
            assert(m_tick_keys(self@, codes@, now, kn as int).1 == Seq::<int>::empty());
            assert(target.1 =~= fired_acc);
        }
        // combo passes
        let ghost mk = self@;
        let short_th = self.short_press_threshold;
        let ghost cs = m_combo_pass(
            mk,
            RuleType::ComboShortPress,
            mk.short_ms,
            now,
            0,
            mk.rules.len() as int,
        );
        self.check_combo_hold(RuleType::ComboShortPress, short_th, now, &mut acts);
        let ghost mcs = self@;
        let long_th = self.long_press_threshold;
        let ghost cl = m_combo_pass(
            mcs,
            RuleType::ComboLongPress,
            mcs.long_ms,
            now,
            0,
            mcs.rules.len() as int,
        );
        self.check_combo_hold(RuleType::ComboLongPress, long_th, now, &mut acts);
        let ghost mcl = self@;
        let ghost dr = m_drain(mcl, now);
        self.drain_pending(now, &mut acts);
        proof {
            lemma_combo_pass_frame(
                mk,
                RuleType::ComboShortPress,
                mk.short_ms,
                now,
                0,
                mk.rules.len() as int,
            );
            lemma_combo_pass_frame(
                mcs,
                RuleType::ComboLongPress,
                mcs.long_ms,
                now,
                0,
                mcs.rules.len() as int,
            );
            lemma_fired_actions_same_rules(mk, m0, cs.1);
            lemma_fired_actions_same_rules(mcs, m0, cl.1);
            lemma_fired_actions_same_rules(mcl, m0, dr.1);
            assert(m_tick(m0, now).0 == self@);
            assert(m_tick(m0, now).1 =~= target.1 + cs.1 + cl.1 + dr.1);
            lemma_fired_actions_concat(m0, target.1 + cs.1 + cl.1, dr.1);
            lemma_fired_actions_concat(m0, target.1 + cs.1, cl.1);
            lemma_fired_actions_concat(m0, target.1, cs.1);
            assert(acts@.map_values(|a: Action| action_model(a)) =~= fired_actions(
                m0,
                m_tick(m0, now).1,
            ));
        }
        acts
    }

    /// One clock tick, reading the clock.
    pub fn tick(&mut self) -> (r: Vec<Action>)
        requires
            old(self).inv(),
        ensures
            final(self).inv(),
            exists|now: u64|
                final(self)@ == m_tick(old(self)@, now).0 && r@.map_values(
                    |a: Action| action_model(a),
                ) == fired_actions(old(self)@, m_tick(old(self)@, now).1),
    {
        let now = now_millis();
        self.tick_at(now)
    }
}

} // verus!
