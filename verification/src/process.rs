//! The event processor's decisions, separated from the I/O loop that
//! carries them out.  The loop reads raw events, calls these functions,
//! and performs the returned decision: swallow the event, dispatch the
//! engine's actions, or forward the event verbatim to the virtual sink.

use vstd::prelude::*;
use crate::config::Action;
use crate::config::action_model;
use crate::learn::LearnState;
use crate::learn::learn_consume_spec;
use crate::learn::learn_refreshed;
use crate::state_machine::MachineModel;
use crate::config::RuleType;
use crate::state_machine::StateMachine;
use crate::state_machine::combo_click_matches;
use crate::state_machine::combo_release_fired;
use crate::state_machine::fired_actions;
use crate::state_machine::first_dc_rule;
use crate::state_machine::click_rule_idxs;
use crate::state_machine::is_click_rule;
use crate::state_machine::m_combo_fires;
use crate::state_machine::m_combo_pass;
use crate::state_machine::m_drain;
use crate::state_machine::m_handle_key;
use crate::state_machine::m_is_mapped;
use crate::state_machine::m_pending_ok;
use crate::state_machine::m_release;
use crate::state_machine::m_set_key_flag;
use crate::state_machine::m_single_fires;
use crate::state_machine::m_single_pass;
use crate::state_machine::m_tap;
use crate::state_machine::m_tick;
use crate::state_machine::m_tick_keys;
use crate::state_machine::m_wf;
use crate::trigger::spec_is_combo_type;

verus! {

/// What the processor does with one key event.
pub enum KeyEventDecision {
    /// The learn filter swallowed the event.
    Consumed,
    /// The key is owned by the engine; dispatch these actions.
    Engine(Vec<Action>),
    /// The key is unmapped; forward the raw event to the virtual sink.
    Forward,
}

/// Decides one key event: the learn filter is offered the event first;
/// a mapped key then goes through the gesture engine; anything else is
/// forwarded in source order.
pub fn process_key_event(
    sm: &mut StateMachine,
    learn: &mut LearnState,
    key_code: u16,
    value: i32,
    now: u64,
) -> (r: KeyEventDecision)
    requires
        old(sm).inv(),
    ensures
        final(sm).inv(),
        *final(learn) == learn_consume_spec(*old(learn), key_code, value, now).0,
        ({
            let consumed = learn_consume_spec(*old(learn), key_code, value, now).1;
            if consumed {
                r is Consumed && final(sm)@ == old(sm)@
            } else if m_is_mapped(old(sm)@, key_code) {
                &&& r is Engine
                &&& final(sm)@ == m_handle_key(old(sm)@, key_code, value, now).0
                &&& (r matches KeyEventDecision::Engine(acts) ==> acts@.map_values(
                    |a: Action| action_model(a),
                ) == fired_actions(old(sm)@, m_handle_key(old(sm)@, key_code, value, now).1))
            } else {
                r is Forward && final(sm)@ == old(sm)@
            }
        }),
{
    let consumed = learn.consume_event_at(key_code, value, now);
    if consumed {
        return KeyEventDecision::Consumed;
    }
    if sm.is_mapped(key_code) {
        let acts = sm.handle_key_at(key_code, value, now);
        KeyEventDecision::Engine(acts)
    } else {
        KeyEventDecision::Forward
    }
}

/// Decides one clock tick: the learn filter's timeout is polled, then
/// the engine's tick runs; the returned actions are dispatched.
pub fn process_tick(sm: &mut StateMachine, learn: &mut LearnState, now: u64) -> (r: Vec<Action>)
    requires
        old(sm).inv(),
    ensures
        final(sm).inv(),
        *final(learn) == learn_refreshed(*old(learn), now),
        final(sm)@ == m_tick(old(sm)@, now).0,
        r@.map_values(|a: Action| action_model(a)) == fired_actions(
            old(sm)@,
            m_tick(old(sm)@, now).1,
        ),
{
    learn.refresh_timeout_at(now);
    sm.tick_at(now)
}

/// Law: a key that no parsed rule's key list contains is never owned by
/// the engine.  When the learn filter is inactive (idle or timed out,
/// also after this instant's timeout poll), the processor forwards every
/// press, release, and repeat of such a key to the virtual sink.
pub proof fn lemma_unmapped_key_forwarded(
    m: MachineModel,
    l: LearnState,
    key_code: u16,
    value: i32,
    now: u64,
)
    requires
        forall|i: int|
            0 <= i < m.rules.len() ==> !(#[trigger] m.rules[i]).keys.contains(key_code),
        learn_refreshed(l, now).status is Idle || learn_refreshed(l, now).status is Timeout,
    ensures
        !learn_consume_spec(l, key_code, value, now).1,
        !m_is_mapped(m, key_code),
{
}

// ---------------------------------------------------------------------------
// Inertness of combo rules whose trigger did not parse.
// ---------------------------------------------------------------------------

proof fn lemma_concat_contains(a: Seq<int>, b: Seq<int>, x: int)
    ensures
        (a + b).contains(x) == (a.contains(x) || b.contains(x)),
{
    if (a + b).contains(x) {
        let k = choose|k: int| 0 <= k < (a + b).len() && (a + b)[k] == x;
        if k < a.len() {
            assert(a[k] == x);
        } else {
            assert(b[k - a.len()] == x);
        }
    }
    if a.contains(x) {
        let k = choose|k: int| 0 <= k < a.len() && a[k] == x;
        assert((a + b)[k] == x);
    }
    if b.contains(x) {
        let k = choose|k: int| 0 <= k < b.len() && b[k] == x;
        assert((a + b)[k + a.len()] == x);
    }
}

proof fn lemma_combo_release_fired_elems(
    m: MachineModel,
    code: u16,
    pressed_at: u64,
    now: u64,
    i: int,
    n: int,
    x: int,
)
    requires
        combo_release_fired(m, code, pressed_at, now, i, n).contains(x),
    ensures
        0 <= x < m.rules.len() && m.rules[x].rule.rule_type == RuleType::ComboClick
            && m.rules[x].keys.len() == 2,
    decreases n - i,
{
    let rest = combo_release_fired(m, code, pressed_at, now, i + 1, n);
    if !(i < 0 || i >= n || i >= m.rules.len()) {
        if combo_click_matches(m, i, code, pressed_at, now) {
            lemma_concat_contains(seq![i], rest, x);
            if x == i {
            } else {
                assert(rest.contains(x));
                lemma_combo_release_fired_elems(m, code, pressed_at, now, i + 1, n, x);
            }
        } else {
            lemma_combo_release_fired_elems(m, code, pressed_at, now, i + 1, n, x);
        }
    }
}

proof fn lemma_single_pass_fired_elems(
    m: MachineModel,
    code: u16,
    now: u64,
    rt: RuleType,
    threshold: u64,
    long_flag: bool,
    i: int,
    n: int,
    x: int,
)
    requires
        m_single_pass(m, code, now, rt, threshold, long_flag, i, n).1.contains(x),
    ensures
        0 <= x < m.rules.len() && m.rules[x].rule.rule_type == rt && m.rules[x].keys == seq![code],
    decreases n - i,
{
    if !(i < 0 || i >= n || i >= m.rules.len()) {
        if m_single_fires(m, code, now, rt, threshold, i) {
            let m2 = MachineModel {
                triggered: m.triggered.insert(m.rules[i].rule.id),
                keys: m_set_key_flag(m.keys, code, long_flag),
                ..m
            };
            let rest = m_single_pass(m2, code, now, rt, threshold, long_flag, i + 1, n).1;
            lemma_concat_contains(seq![i], rest, x);
            if x == i {
            } else {
                assert(rest.contains(x));
                lemma_single_pass_fired_elems(m2, code, now, rt, threshold, long_flag, i + 1, n, x);
            }
        } else {
            lemma_single_pass_fired_elems(m, code, now, rt, threshold, long_flag, i + 1, n, x);
        }
    }
}

proof fn lemma_tick_keys_fired_elems(
    m: MachineModel,
    codes: Seq<u16>,
    now: u64,
    k: int,
    x: int,
)
    requires
        m_tick_keys(m, codes, now, k).1.contains(x),
    ensures
        0 <= x < m.rules.len() && (m.rules[x].rule.rule_type == RuleType::ShortPress
            || m.rules[x].rule.rule_type == RuleType::LongPress),
    decreases codes.len() - k,
{
    if !(k < 0 || k >= codes.len()) {
        let code = codes[k];
        let sp = m_single_pass(
            m,
            code,
            now,
            RuleType::ShortPress,
            m.short_ms,
            false,
            0,
            m.rules.len() as int,
        );
        let lp = m_single_pass(
            sp.0,
            code,
            now,
            RuleType::LongPress,
            sp.0.long_ms,
            true,
            0,
            sp.0.rules.len() as int,
        );
        let rec = m_tick_keys(lp.0, codes, now, k + 1);
        crate::state_machine::lemma_single_pass_frame(
            m,
            code,
            now,
            RuleType::ShortPress,
            m.short_ms,
            false,
            0,
            m.rules.len() as int,
        );
        crate::state_machine::lemma_single_pass_frame(
            sp.0,
            code,
            now,
            RuleType::LongPress,
            sp.0.long_ms,
            true,
            0,
            sp.0.rules.len() as int,
        );
        lemma_concat_contains(sp.1 + lp.1, rec.1, x);
        lemma_concat_contains(sp.1, lp.1, x);
        if sp.1.contains(x) {
            lemma_single_pass_fired_elems(
                m,
                code,
                now,
                RuleType::ShortPress,
                m.short_ms,
                false,
                0,
                m.rules.len() as int,
                x,
            );
        } else if lp.1.contains(x) {
            lemma_single_pass_fired_elems(
                sp.0,
                code,
                now,
                RuleType::LongPress,
                sp.0.long_ms,
                true,
                0,
                sp.0.rules.len() as int,
                x,
            );
        } else {
            lemma_tick_keys_fired_elems(lp.0, codes, now, k + 1, x);
        }
    }
}

proof fn lemma_combo_pass_fired_elems(
    m: MachineModel,
    rt: RuleType,
    threshold: u64,
    now: u64,
    i: int,
    n: int,
    x: int,
)
    requires
        m_combo_pass(m, rt, threshold, now, i, n).1.contains(x),
    ensures
        0 <= x < m.rules.len() && m.rules[x].rule.rule_type == rt && m.rules[x].keys.len() == 2,
    decreases n - i,
{
    if !(i < 0 || i >= n || i >= m.rules.len()) {
        if m_combo_fires(m, i, rt, threshold, now) {
            let pr = m.rules[i];
            let long_flag = rt == RuleType::ComboLongPress;
            let m2 = MachineModel {
                triggered: m.triggered.insert(pr.rule.id),
                keys: m_set_key_flag(
                    m_set_key_flag(m.keys, pr.keys[0], long_flag),
                    pr.keys[1],
                    long_flag,
                ),
                ..m
            };
            let rest = m_combo_pass(m2, rt, threshold, now, i + 1, n).1;
            lemma_concat_contains(seq![i], rest, x);
            if x == i {
            } else {
                assert(rest.contains(x));
                lemma_combo_pass_fired_elems(m2, rt, threshold, now, i + 1, n, x);
            }
        } else {
            lemma_combo_pass_fired_elems(m, rt, threshold, now, i + 1, n, x);
        }
    }
}

proof fn lemma_first_dc_props(rules: Seq<crate::state_machine::ParsedRuleModel>, code: u16, i: int, n: int)
    ensures
        ({
            let f = first_dc_rule(rules, code, i, n);
            f != -1 ==> 0 <= f < rules.len() && rules[f].rule.rule_type == RuleType::DoubleClick
                && rules[f].keys == seq![code]
        }),
    decreases n - i,
{
    if !(i < 0 || i >= n || i >= rules.len()) {
        if !(rules[i].rule.enabled && rules[i].keys == seq![code] && rules[i].rule.rule_type
            == RuleType::DoubleClick) {
            lemma_first_dc_props(rules, code, i + 1, n);
        }
    }
}

proof fn lemma_click_idxs_elems(
    rules: Seq<crate::state_machine::ParsedRuleModel>,
    code: u16,
    i: int,
    n: int,
    x: int,
)
    requires
        click_rule_idxs(rules, code, i, n).contains(x),
    ensures
        0 <= x < rules.len() && is_click_rule(rules, x, code),
    decreases n - i,
{
    if !(i < 0 || i >= n || i >= rules.len()) {
        let rest = click_rule_idxs(rules, code, i + 1, n);
        if is_click_rule(rules, i, code) {
            lemma_concat_contains(seq![i], rest, x);
            if x != i {
                assert(rest.contains(x));
                lemma_click_idxs_elems(rules, code, i + 1, n, x);
            }
        } else {
            lemma_click_idxs_elems(rules, code, i + 1, n, x);
        }
    }
}

/// Law: a combo-typed rule whose trigger did not resolve into two
/// distinct key codes is inert.  Its parsed key list is not two long, so
/// neither a key event nor a tick ever fires it: every firing path for a
/// combo kind demands two parsed keys, and the single-key and deferred
/// paths demand other gesture kinds.
pub proof fn lemma_bad_combo_rule_inert(
    m: MachineModel,
    i: int,
    key_code: u16,
    value: i32,
    now: u64,
)
    requires
        m_wf(m),
        0 <= i < m.rules.len(),
        spec_is_combo_type(m.rules[i].rule.rule_type),
        m.rules[i].keys.len() != 2,
    ensures
        !m_handle_key(m, key_code, value, now).1.contains(i),
        !m_tick(m, now).1.contains(i),
{
    let rt = m.rules[i].rule.rule_type;
    // key events
    if m_handle_key(m, key_code, value, now).1.contains(i) {
        assert(value == 0);
        let f = crate::assoc::assoc_find(m.keys, key_code);
        assert(f != -1);
        let st = m.keys[f].1;
        let m1 = MachineModel {
            keys: m.keys.remove(f),
            triggered: crate::state_machine::m_clear_triggered(
                m.triggered,
                m.rules,
                key_code,
                0,
                m.rules.len() as int,
            ),
            ..m
        };
        let fired = m_handle_key(m, key_code, value, now).1;
        let combo = combo_release_fired(m1, key_code, st.pressed_at, now, 0, m1.rules.len() as int);
        if combo.len() > 0 && fired == combo {
            lemma_combo_release_fired_elems(
                m1,
                key_code,
                st.pressed_at,
                now,
                0,
                m1.rules.len() as int,
                i,
            );
        } else {
            let tap = m_tap(m1, key_code, now);
            assert(fired == tap.1);
            let dc = first_dc_rule(m1.rules, key_code, 0, m1.rules.len() as int);
            lemma_first_dc_props(m1.rules, key_code, 0, m1.rules.len() as int);
            if dc >= 0 && tap.1 == seq![dc] {
                assert(i == dc);
                assert(false);
            } else if tap.1 == click_rule_idxs(m1.rules, key_code, 0, m1.rules.len() as int) {
                lemma_click_idxs_elems(m1.rules, key_code, 0, m1.rules.len() as int, i);
            }
        }
    }
    // ticks
    if m_tick(m, now).1.contains(i) {
        let codes = crate::assoc::assoc_codes(m.keys);
        let kp = m_tick_keys(m, codes, now, 0);
        let cs = m_combo_pass(
            kp.0,
            RuleType::ComboShortPress,
            kp.0.short_ms,
            now,
            0,
            kp.0.rules.len() as int,
        );
        let cl = m_combo_pass(
            cs.0,
            RuleType::ComboLongPress,
            cs.0.long_ms,
            now,
            0,
            cs.0.rules.len() as int,
        );
        let dr = m_drain(cl.0, now);
        crate::state_machine::lemma_combo_pass_frame(
            kp.0,
            RuleType::ComboShortPress,
            kp.0.short_ms,
            now,
            0,
            kp.0.rules.len() as int,
        );
        crate::state_machine::lemma_combo_pass_frame(
            cs.0,
            RuleType::ComboLongPress,
            cs.0.long_ms,
            now,
            0,
            cs.0.rules.len() as int,
        );
        lemma_tick_keys_frame(m, codes, now, 0);
        lemma_concat_contains(kp.1 + cs.1 + cl.1, dr.1, i);
        lemma_concat_contains(kp.1 + cs.1, cl.1, i);
        lemma_concat_contains(kp.1, cs.1, i);
        if kp.1.contains(i) {
            lemma_tick_keys_fired_elems(m, codes, now, 0, i);
        } else if cs.1.contains(i) {
            lemma_combo_pass_fired_elems(
                kp.0,
                RuleType::ComboShortPress,
                kp.0.short_ms,
                now,
                0,
                kp.0.rules.len() as int,
                i,
            );
        } else if cl.1.contains(i) {
            lemma_combo_pass_fired_elems(
                cs.0,
                RuleType::ComboLongPress,
                cs.0.long_ms,
                now,
                0,
                cs.0.rules.len() as int,
                i,
            );
        } else {
            assert(dr.1.contains(i));
            let fire_pred = |p: crate::state_machine::PendingModel| now >= p.available_at;
            let fired_pends = cl.0.pending.filter(fire_pred);
            let rules_of = fired_pends.map_values(|p: crate::state_machine::PendingModel| p.rule);
            assert(dr.1 == rules_of);
            let k = choose|k: int| 0 <= k < rules_of.len() && #[trigger] rules_of[k] == i;
            assert(fired_pends[k].rule == i);
            cl.0.pending.filter_lemma(fire_pred);
            lemma_pending_contains(cl.0.pending, fire_pred, k);
            let q = choose|q: int|
                0 <= q < cl.0.pending.len() && cl.0.pending[q] == fired_pends[k];
            assert(cl.0.pending == m.pending);
            assert(m_pending_ok(m, m.pending[q]));
        }
    }
}

/// Elements of a filtered pending list come from the original.
proof fn lemma_pending_contains(
    s: Seq<crate::state_machine::PendingModel>,
    pred: spec_fn(crate::state_machine::PendingModel) -> bool,
    k: int,
)
    requires
        0 <= k < s.filter(pred).len(),
    ensures
        s.contains(s.filter(pred)[k]),
    decreases s.len(),
{
    reveal(Seq::filter);
    if s.len() > 0 {
        let last = s.last();
        if pred(last) && k == s.filter(pred).len() - 1 {
            assert(s.filter(pred)[k] == last);
            assert(s[s.len() - 1] == last);
        } else {
            lemma_pending_contains(s.drop_last(), pred, k);
            let e = s.drop_last().filter(pred)[k];
            let q = choose|q: int| 0 <= q < s.drop_last().len() && s.drop_last()[q] == e;
            assert(s[q] == e);
        }
    }
}

/// The per-key passes leave the rule list and pending clicks unchanged.
proof fn lemma_tick_keys_frame(m: MachineModel, codes: Seq<u16>, now: u64, k: int)
    ensures
        m_tick_keys(m, codes, now, k).0.rules == m.rules,
        m_tick_keys(m, codes, now, k).0.pending == m.pending,
        m_tick_keys(m, codes, now, k).0.short_ms == m.short_ms,
        m_tick_keys(m, codes, now, k).0.long_ms == m.long_ms,
        m_tick_keys(m, codes, now, k).0.combo_ms == m.combo_ms,
    decreases codes.len() - k,
{
    if !(k < 0 || k >= codes.len()) {
        let code = codes[k];
        let sp = m_single_pass(
            m,
            code,
            now,
            RuleType::ShortPress,
            m.short_ms,
            false,
            0,
            m.rules.len() as int,
        );
        crate::state_machine::lemma_single_pass_frame(
            m,
            code,
            now,
            RuleType::ShortPress,
            m.short_ms,
            false,
            0,
            m.rules.len() as int,
        );
        let lp = m_single_pass(
            sp.0,
            code,
            now,
            RuleType::LongPress,
            sp.0.long_ms,
            true,
            0,
            sp.0.rules.len() as int,
        );
        crate::state_machine::lemma_single_pass_frame(
            sp.0,
            code,
            now,
            RuleType::LongPress,
            sp.0.long_ms,
            true,
            0,
            sp.0.rules.len() as int,
        );
        lemma_tick_keys_frame(lp.0, codes, now, k + 1);
    }
}

// ---------------------------------------------------------------------------
// Hold classification at the threshold.
// ---------------------------------------------------------------------------

/// Setting a hold flag moves no key and keeps every press instant.
proof fn lemma_set_flag_lookup(keys: Seq<(u16, crate::state_machine::KeyState)>, c: u16, lf: bool, k2: u16)
    ensures
        crate::assoc::assoc_has(m_set_key_flag(keys, c, lf), k2) == crate::assoc::assoc_has(
            keys,
            k2,
        ),
        crate::assoc::assoc_has(keys, k2) ==> crate::assoc::assoc_get(
            m_set_key_flag(keys, c, lf),
            k2,
        ).pressed_at == crate::assoc::assoc_get(keys, k2).pressed_at,
{
    if crate::assoc::assoc_has(keys, c) {
        let f = crate::assoc::assoc_find(keys, c);
        crate::assoc::lemma_assoc_find_props(keys, c);
        let st = crate::assoc::assoc_get(keys, c);
        let st2 = if lf {
            crate::state_machine::KeyState { triggered_long_press: true, ..st }
        } else {
            crate::state_machine::KeyState { triggered_short_press: true, ..st }
        };
        crate::assoc::lemma_assoc_find_update(keys, f, st2, k2);
        crate::assoc::lemma_assoc_find_props(m_set_key_flag(keys, c, lf), k2);
    }
}

/// Law (hold classification): in the pass a tick runs for a held key,
/// an enabled single-key hold rule of the pass's kind fires whenever the
/// key has been held to the threshold and the rule has not fired for
/// this hold yet; no id clash can mask it when ids are unique.
pub proof fn lemma_hold_rule_fires(
    m: MachineModel,
    code: u16,
    now: u64,
    rt: RuleType,
    threshold: u64,
    long_flag: bool,
    j: int,
    i: int,
    n: int,
)
    requires
        0 <= j <= i < n,
        n <= m.rules.len(),
        m_single_fires(m, code, now, rt, threshold, i),
        forall|q: int|
            0 <= q < m.rules.len() && q != i ==> (#[trigger] m.rules[q]).rule.id
                != m.rules[i].rule.id,
    ensures
        m_single_pass(m, code, now, rt, threshold, long_flag, j, n).1.contains(i),
    decreases i - j,
{
    if j == i {
        let m2 = MachineModel {
            triggered: m.triggered.insert(m.rules[i].rule.id),
            keys: m_set_key_flag(m.keys, code, long_flag),
            ..m
        };
        let rest = m_single_pass(m2, code, now, rt, threshold, long_flag, i + 1, n).1;
        assert(m_single_pass(m, code, now, rt, threshold, long_flag, j, n).1 == seq![i] + rest);
        assert((seq![i] + rest)[0] == i);
    } else if m_single_fires(m, code, now, rt, threshold, j) {
        let m2 = MachineModel {
            triggered: m.triggered.insert(m.rules[j].rule.id),
            keys: m_set_key_flag(m.keys, code, long_flag),
            ..m
        };
        lemma_set_flag_lookup(m.keys, code, long_flag, code);
        assert(m_single_fires(m2, code, now, rt, threshold, i));
        lemma_hold_rule_fires(m2, code, now, rt, threshold, long_flag, j + 1, i, n);
        let rest = m_single_pass(m2, code, now, rt, threshold, long_flag, j + 1, n).1;
        let w = choose|w: int| 0 <= w < rest.len() && rest[w] == i;
        assert((seq![j] + rest)[w + 1] == i);
        assert(m_single_pass(m, code, now, rt, threshold, long_flag, j, n).1.contains(i));
    } else {
        lemma_hold_rule_fires(m, code, now, rt, threshold, long_flag, j + 1, i, n);
    }
}

/// Law (combination window): in the pass a tick runs for a combo hold
/// kind, an enabled two-key rule fires whenever both keys are held past
/// the threshold with press instants inside the combination window and
/// the rule has not fired for this hold; ids unique as the validator
/// guarantees.  A spread one past the window never fires, which is what
/// `m_combo_fires` demands.
pub proof fn lemma_combo_rule_fires(
    m: MachineModel,
    rt: RuleType,
    threshold: u64,
    now: u64,
    j: int,
    i: int,
    n: int,
)
    requires
        0 <= j <= i < n,
        n <= m.rules.len(),
        m_combo_fires(m, i, rt, threshold, now),
        forall|q: int|
            0 <= q < m.rules.len() && q != i ==> (#[trigger] m.rules[q]).rule.id
                != m.rules[i].rule.id,
    ensures
        m_combo_pass(m, rt, threshold, now, j, n).1.contains(i),
    decreases i - j,
{
    if j == i {
        let pr = m.rules[i];
        let long_flag = rt == RuleType::ComboLongPress;
        let m2 = MachineModel {
            triggered: m.triggered.insert(pr.rule.id),
            keys: m_set_key_flag(
                m_set_key_flag(m.keys, pr.keys[0], long_flag),
                pr.keys[1],
                long_flag,
            ),
            ..m
        };
        let rest = m_combo_pass(m2, rt, threshold, now, i + 1, n).1;
        assert(m_combo_pass(m, rt, threshold, now, j, n).1 == seq![i] + rest);
        assert((seq![i] + rest)[0] == i);
    } else if m_combo_fires(m, j, rt, threshold, now) {
        let pr = m.rules[j];
        let pi = m.rules[i];
        let long_flag = rt == RuleType::ComboLongPress;
        let k1 = m_set_key_flag(m.keys, pr.keys[0], long_flag);
        let m2 = MachineModel {
            triggered: m.triggered.insert(pr.rule.id),
            keys: m_set_key_flag(k1, pr.keys[1], long_flag),
            ..m
        };
        lemma_set_flag_lookup(m.keys, pr.keys[0], long_flag, pi.keys[0]);
        lemma_set_flag_lookup(m.keys, pr.keys[0], long_flag, pi.keys[1]);
        lemma_set_flag_lookup(k1, pr.keys[1], long_flag, pi.keys[0]);
        lemma_set_flag_lookup(k1, pr.keys[1], long_flag, pi.keys[1]);
        assert(m_combo_fires(m2, i, rt, threshold, now));
        lemma_combo_rule_fires(m2, rt, threshold, now, j + 1, i, n);
        let rest = m_combo_pass(m2, rt, threshold, now, j + 1, n).1;
        let w = choose|w: int| 0 <= w < rest.len() && rest[w] == i;
        assert((seq![j] + rest)[w + 1] == i);
        assert(m_combo_pass(m, rt, threshold, now, j, n).1.contains(i));
    } else {
        lemma_combo_rule_fires(m, rt, threshold, now, j + 1, i, n);
    }
}

/// With no enabled ComboClick rule on the key, nothing fires on the
/// combo-release path.
proof fn lemma_no_combo_click(m: MachineModel, code: u16, pressed_at: u64, now: u64, i: int, n: int)
    requires
        forall|q: int|
            0 <= q < m.rules.len() ==> !((#[trigger] m.rules[q]).rule.enabled
                && m.rules[q].rule.rule_type == RuleType::ComboClick && m.rules[q].keys.contains(
                code,
            )),
    ensures
        combo_release_fired(m, code, pressed_at, now, i, n) == Seq::<int>::empty(),
    decreases n - i,
{
    if !(i < 0 || i >= n || i >= m.rules.len()) {
        assert(!combo_click_matches(m, i, code, pressed_at, now));
        lemma_no_combo_click(m, code, pressed_at, now, i + 1, n);
    }
}

/// Law (release classification): a release whose hold was consumed by a
/// short- or long-press rule, or that comes at or past the short-press
/// threshold, emits nothing; a release below the threshold with no
/// ComboClick and no DoubleClick rule on the key fires exactly the
/// enabled Click rules, in rule order.
pub proof fn lemma_release_classification(m: MachineModel, code: u16, now: u64)
    requires
        m_wf(m),
        crate::assoc::assoc_find(m.keys, code) >= 0,
    ensures
        ({
            let st = m.keys[crate::assoc::assoc_find(m.keys, code)].1;
            let fired = m_release(m, code, now).1;
            &&& ((st.triggered_short_press || st.triggered_long_press) ==> fired == Seq::<
                int,
            >::empty())
            &&& ((!st.triggered_short_press && !st.triggered_long_press
                && crate::sys::elapsed_ms(now, st.pressed_at) >= m.short_ms) ==> fired == Seq::<
                int,
            >::empty())
            &&& ((!st.triggered_short_press && !st.triggered_long_press
                && crate::sys::elapsed_ms(now, st.pressed_at) < m.short_ms && (forall|q: int|
                0 <= q < m.rules.len() ==> !((#[trigger] m.rules[q]).rule.enabled
                    && m.rules[q].rule.rule_type == RuleType::ComboClick
                    && m.rules[q].keys.contains(code))) && first_dc_rule(
                m.rules,
                code,
                0,
                m.rules.len() as int,
            ) == -1) ==> fired == click_rule_idxs(m.rules, code, 0, m.rules.len() as int))
        }),
{
    let f = crate::assoc::assoc_find(m.keys, code);
    let st = m.keys[f].1;
    let m1 = MachineModel {
        keys: m.keys.remove(f),
        triggered: crate::state_machine::m_clear_triggered(
            m.triggered,
            m.rules,
            code,
            0,
            m.rules.len() as int,
        ),
        ..m
    };
    let handled = st.triggered_short_press || st.triggered_long_press;
    if !handled && crate::sys::elapsed_ms(now, st.pressed_at) < m.short_ms {
        if (forall|q: int|
            0 <= q < m.rules.len() ==> !((#[trigger] m.rules[q]).rule.enabled
                && m.rules[q].rule.rule_type == RuleType::ComboClick && m.rules[q].keys.contains(
                code,
            ))) && first_dc_rule(m.rules, code, 0, m.rules.len() as int) == -1 {
            lemma_no_combo_click(m1, code, st.pressed_at, now, 0, m1.rules.len() as int);
            assert(m_release(m, code, now) == m_tap(m1, code, now));
            assert(m_tap(m1, code, now).1 == click_rule_idxs(
                m1.rules,
                code,
                0,
                m1.rules.len() as int,
            ));
        }
    }
}

} // verus!
