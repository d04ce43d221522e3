//! The trigger grammar: a single-key trigger is one token, a decimal key
//! code or a symbolic name from the hardware map; a combo trigger is two
//! such tokens joined by `+`, resolving to two distinct codes.

use vstd::prelude::*;
use crate::config::RuleType;
use crate::strutil::parse_u16;
use crate::strutil::parse_u16_seq;
use crate::strutil::split_plus;
use crate::strutil::split_plus_seq;
use crate::strutil::str_eq_str;
use crate::strutil::trim_seq;
use crate::strutil::trim_str;

verus! {

/// Whether the gesture kind needs a two-key trigger.
pub open spec fn spec_is_combo_type(rt: RuleType) -> bool {
    rt == RuleType::ComboClick || rt == RuleType::ComboShortPress || rt == RuleType::ComboLongPress
}

#[verifier::when_used_as_spec(spec_is_combo_type)]
pub fn is_combo_type(rt: RuleType) -> (r: bool)
    ensures
        r == spec_is_combo_type(rt),
{
    match rt {
        RuleType::ComboClick => true,
        RuleType::ComboShortPress => true,
        RuleType::ComboLongPress => true,
        _ => false,
    }
}

/// The hardware map with its names as character sequences.
pub open spec fn map_view(m: Seq<(u16, String)>) -> Seq<(u16, Seq<char>)> {
    m.map_values(|p: (u16, String)| (p.0, p.1@))
}

/// The code of the first map entry carrying this name, if any.
pub open spec fn map_name_lookup(map: Seq<(u16, Seq<char>)>, name: Seq<char>) -> Option<u16>
    decreases map.len(),
{
    if map.len() == 0 {
        None
    } else if map[0].1 == name {
        Some(map[0].0)
    } else {
        map_name_lookup(map.drop_first(), name)
    }
}

proof fn lemma_map_name_lookup_at(map: Seq<(u16, Seq<char>)>, name: Seq<char>, i: int)
    requires
        0 <= i <= map.len(),
        forall|k: int| 0 <= k < i ==> (#[trigger] map[k]).1 != name,
        i < map.len() ==> map[i].1 == name,
    ensures
        map_name_lookup(map, name) == if i == map.len() {
            None::<u16>
        } else {
            Some(map[i].0)
        },
    decreases i,
{
    if i == 0 {
    } else {
        let t = map.drop_first();
        assert(forall|k: int| 0 <= k < i - 1 ==> (#[trigger] t[k]).1 != name);
        lemma_map_name_lookup_at(t, name, i - 1);
    }
}

/// Looks a symbolic name up in the hardware map.
pub fn map_lookup_by_name(map: &Vec<(u16, String)>, name: &str) -> (r: Option<u16>)
    ensures
        r == map_name_lookup(map_view(map@), name@),
{
    let ghost m = map_view(map@);
    let n = map.len();
    let mut i: usize = 0;
    while i < n
        invariant
            0 <= i <= n,
            n == map@.len(),
            m == map_view(map@),
            m.len() == n,
            forall|k: int| 0 <= k < n ==> (#[trigger] m[k]) == (map@[k].0, map@[k].1@),
            forall|k: int| 0 <= k < i ==> (#[trigger] m[k]).1 != name@,
        decreases n - i,
    {
        if str_eq_str(map[i].1.as_str(), name) {
            proof {
                lemma_map_name_lookup_at(m, name@, i as int);
            }
            return Some(map[i].0);
        }
        i = i + 1;
    }
    proof {
        lemma_map_name_lookup_at(m, name@, n as int);
    }
    None
}

/// A token resolves to a key code: after trimming, either a decimal code
/// or a name found in the hardware map.
pub open spec fn resolve_token_spec(map: Seq<(u16, Seq<char>)>, token: Seq<char>) -> Option<u16> {
    let t = trim_seq(token);
    if t.len() == 0 {
        None
    } else if parse_u16_seq(t) is Some {
        parse_u16_seq(t)
    } else {
        map_name_lookup(map, t)
    }
}

/// Resolves one trigger token against the hardware map.
pub fn resolve_token(map: &Vec<(u16, String)>, token: &str) -> (r: Option<u16>)
    ensures
        r == resolve_token_spec(map_view(map@), token@),
{
    let t = trim_str(token);
    if t.unicode_len() == 0 {
        return None;
    }
    match parse_u16(t) {
        Some(code) => Some(code),
        None => {
            let ghost m = map_view(map@);
            let n = map.len();
            let mut i: usize = 0;
            while i < n
                invariant
                    0 <= i <= n,
                    n == map@.len(),
                    m == map_view(map@),
                    m.len() == n,
                    forall|k: int| 0 <= k < n ==> (#[trigger] m[k]) == (map@[k].0, map@[k].1@),
                    forall|k: int| 0 <= k < i ==> (#[trigger] m[k]).1 != trim_seq(token@),
                decreases n - i,
            {
                if str_eq_str(map[i].1.as_str(), t) {
                    proof {
                        lemma_map_name_lookup_at(m, trim_seq(token@), i as int);
                    }
                    return Some(map[i].0);
                }
                i = i + 1;
            }
            proof {
                lemma_map_name_lookup_at(m, trim_seq(token@), n as int);
            }
            None
        },
    }
}

/// The trimmed, non-empty pieces of a trigger split on `+`.
pub open spec fn trigger_parts_spec(s: Seq<char>) -> Seq<Seq<char>> {
    split_plus_seq(s).map_values(|t: Seq<char>| trim_seq(t)).filter(|t: Seq<char>| t.len() > 0)
}

/// Splits a trigger on `+`, trims each piece, and keeps the non-empty
/// ones.
pub fn trigger_parts(s: &str) -> (r: Vec<String>)
    ensures
        r@.map_values(|t: String| t@) == trigger_parts_spec(s@),
{
    let raw = split_plus(s);
    let ghost segs = split_plus_seq(s@);
    let mut out: Vec<String> = Vec::new();
    let n = raw.len();
    let mut i: usize = 0;
    while i < n
        invariant
            0 <= i <= n,
            n == raw@.len(),
            segs == split_plus_seq(s@),
            raw@.map_values(|t: String| t@) == segs,
            out@.map_values(|t: String| t@) == segs.subrange(0, i as int).map_values(
                |t: Seq<char>| trim_seq(t),
            ).filter(|t: Seq<char>| t.len() > 0),
        decreases n - i,
    {
        let t = trim_str(raw[i].as_str());
        proof {
            assert(raw@.map_values(|t2: String| t2@)[i as int] == segs[i as int]);
            let pre = segs.subrange(0, i as int).map_values(|t2: Seq<char>| trim_seq(t2));
            let nxt = segs.subrange(0, i + 1).map_values(|t2: Seq<char>| trim_seq(t2));
            assert(segs.subrange(0, i + 1) =~= segs.subrange(0, i as int).push(segs[i as int]));
            assert(nxt =~= pre.push(trim_seq(segs[i as int])));
            pre.lemma_filter_push(trim_seq(segs[i as int]), |t2: Seq<char>| t2.len() > 0);
        }
        if t.unicode_len() > 0 {
            out.push(t.to_owned());
        }
        proof {
            let pre = segs.subrange(0, i as int).map_values(|t2: Seq<char>| trim_seq(t2));
            let pred = |t2: Seq<char>| t2.len() > 0;
            assert(pre.push(trim_seq(segs[i as int])).filter(pred) == if pred(
                trim_seq(segs[i as int]),
            ) {
                pre.filter(pred).push(trim_seq(segs[i as int]))
            } else {
                pre.filter(pred)
            });
            assert(out@.map_values(|t2: String| t2@) =~= segs.subrange(0, i + 1).map_values(
                |t2: Seq<char>| trim_seq(t2),
            ).filter(pred));
        }
        i = i + 1;
    }
    proof {
        assert(segs.subrange(0, n as int) =~= segs);
    }
    out
}

/// The ordered key codes a trigger resolves to under its gesture kind:
/// two distinct codes for a combo, one code for a single key, and the
/// empty sequence when the trigger does not parse.
pub open spec fn parse_trigger_spec(
    trigger: Seq<char>,
    map: Seq<(u16, Seq<char>)>,
    rt: RuleType,
) -> Seq<u16> {
    if spec_is_combo_type(rt) {
        let parts = trigger_parts_spec(trigger);
        if parts.len() != 2 {
            Seq::empty()
        } else {
            match (resolve_token_spec(map, parts[0]), resolve_token_spec(map, parts[1])) {
                (Some(a), Some(b)) => if a != b {
                    seq![a, b]
                } else {
                    Seq::empty()
                },
                _ => Seq::empty(),
            }
        }
    } else {
        match resolve_token_spec(map, trigger) {
            Some(c) => seq![c],
            None => Seq::empty(),
        }
    }
}

/// Parses a trigger into its key codes; a trigger that does not parse
/// under its gesture kind yields no codes and the rule never fires.
pub fn parse_trigger(trigger: &str, map: &Vec<(u16, String)>, rule_type: RuleType) -> (r: Vec<u16>)
    ensures
        r@ == parse_trigger_spec(trigger@, map_view(map@), rule_type),
{
    let mut r: Vec<u16> = Vec::new();
    if is_combo_type(rule_type) {
        let parts = trigger_parts(trigger);
        if parts.len() != 2 {
            proof {
                assert(r@ =~= parse_trigger_spec(trigger@, map_view(map@), rule_type));
            }
            return r;
        }
        proof {
            assert(parts@.map_values(|t: String| t@)[0] == parts@[0]@);
            assert(parts@.map_values(|t: String| t@)[1] == parts@[1]@);
        }
        let a = resolve_token(map, parts[0].as_str());
        let b = resolve_token(map, parts[1].as_str());
        match (a, b) {
            (Some(x), Some(y)) => {
                if x != y {
                    r.push(x);
                    r.push(y);
                }
            },
            _ => {},
        }
        proof {
            assert(r@ =~= parse_trigger_spec(trigger@, map_view(map@), rule_type));
        }
        r
    } else {
        match resolve_token(map, trigger) {
            Some(c) => {
                r.push(c);
            },
            None => {},
        }
        proof {
            assert(r@ =~= parse_trigger_spec(trigger@, map_view(map@), rule_type));
        }
        r
    }
}

} // verus!
