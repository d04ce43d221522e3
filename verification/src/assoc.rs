//! Association lists keyed by key code, and a set of rule ids, with their
//! mathematical views.  These hold the state machine's per-key state, tap
//! history, and triggered-rule book-keeping with deterministic iteration
//! order.

use vstd::prelude::*;

verus! {

/// Index of the first entry with this code, or -1.
pub open spec fn assoc_find<V>(s: Seq<(u16, V)>, code: u16) -> int
    decreases s.len(),
{
    if s.len() == 0 {
        -1
    } else if s[0].0 == code {
        0
    } else if assoc_find(s.drop_first(), code) == -1 {
        -1
    } else {
        assoc_find(s.drop_first(), code) + 1
    }
}

pub open spec fn assoc_has<V>(s: Seq<(u16, V)>, code: u16) -> bool {
    assoc_find(s, code) >= 0
}

/// The value stored under a code that is present.
pub open spec fn assoc_get<V>(s: Seq<(u16, V)>, code: u16) -> V {
    s[assoc_find(s, code)].1
}

/// The list with `code` bound to `val`: updated in place when present,
/// appended otherwise.
pub open spec fn assoc_set<V>(s: Seq<(u16, V)>, code: u16, val: V) -> Seq<(u16, V)> {
    if assoc_has(s, code) {
        s.update(assoc_find(s, code), (code, val))
    } else {
        s.push((code, val))
    }
}

/// The list without the entry for `code`, if it was present.
pub open spec fn assoc_without<V>(s: Seq<(u16, V)>, code: u16) -> Seq<(u16, V)> {
    if assoc_has(s, code) {
        s.remove(assoc_find(s, code))
    } else {
        s
    }
}

/// No code appears twice.
pub open spec fn assoc_unique<V>(s: Seq<(u16, V)>) -> bool {
    forall|i: int, j: int| 0 <= i < j < s.len() ==> (#[trigger] s[i]).0 != (#[trigger] s[j]).0
}

/// `assoc_find` is the first matching index.
pub proof fn lemma_assoc_find_at<V>(s: Seq<(u16, V)>, code: u16, i: int)
    requires
        0 <= i <= s.len(),
        forall|k: int| 0 <= k < i ==> (#[trigger] s[k]).0 != code,
        i < s.len() ==> s[i].0 == code,
    ensures
        assoc_find(s, code) == if i == s.len() {
            -1int
        } else {
            i
        },
    decreases i,
{
    if i == 0 {
    } else {
        let t = s.drop_first();
        assert(forall|k: int| 0 <= k < i - 1 ==> (#[trigger] t[k]).0 != code);
        lemma_assoc_find_at(t, code, i - 1);
    }
}

/// What `assoc_find` returning an index means.
pub proof fn lemma_assoc_find_props<V>(s: Seq<(u16, V)>, code: u16)
    ensures
        assoc_find(s, code) == -1 ==> forall|k: int|
            0 <= k < s.len() ==> (#[trigger] s[k]).0 != code,
        assoc_find(s, code) != -1 ==> 0 <= assoc_find(s, code) < s.len() && s[assoc_find(
            s,
            code,
        )].0 == code && forall|k: int|
            0 <= k < assoc_find(s, code) ==> (#[trigger] s[k]).0 != code,
    decreases s.len(),
{
    if s.len() > 0 && s[0].0 != code {
        let t = s.drop_first();
        lemma_assoc_find_props(t, code);
        assert(forall|k: int| 1 <= k < s.len() ==> (#[trigger] s[k]) == t[k - 1]);
    }
}


/// Updating the value bound to one code changes no lookup structure:
/// every code is found at the same place.
pub proof fn lemma_assoc_find_update<V>(s: Seq<(u16, V)>, f: int, v: V, key: u16)
    requires
        0 <= f < s.len(),
    ensures
        assoc_find(s.update(f, (s[f].0, v)), key) == assoc_find(s, key),
    decreases s.len(),
{
    let t = s.update(f, (s[f].0, v));
    assert(t.len() == s.len());
    assert(t[0].0 == s[0].0);
    if s.len() > 0 && s[0].0 != key {
        if f == 0 {
            assert(t.drop_first() =~= s.drop_first());
        } else {
            assert(t.drop_first() =~= s.drop_first().update(f - 1, (s[f].0, v)));
            assert(s.drop_first()[f - 1] == s[f]);
            lemma_assoc_find_update(s.drop_first(), f - 1, v, key);
        }
    }
}

/// Looks a code up in an association vector.
pub fn assoc_vec_get<V: Copy>(v: &Vec<(u16, V)>, code: u16) -> (r: Option<V>)
    ensures
        r == if assoc_has(v@, code) {
            Some(assoc_get(v@, code))
        } else {
            None::<V>
        },
{
    let n = v.len();
    let mut i: usize = 0;
    while i < n
        invariant
            0 <= i <= n,
            n == v@.len(),
            forall|k: int| 0 <= k < i ==> (#[trigger] v@[k]).0 != code,
        decreases n - i,
    {
        if v[i].0 == code {
            proof {
                lemma_assoc_find_at(v@, code, i as int);
            }
            return Some(v[i].1);
        }
        i = i + 1;
    }
    proof {
        lemma_assoc_find_at(v@, code, n as int);
    }
    None
}

/// Binds a code to a value, replacing an earlier binding.
pub fn assoc_vec_set<V: Copy>(v: &mut Vec<(u16, V)>, code: u16, val: V)
    ensures
        final(v)@ == assoc_set(old(v)@, code, val),
        assoc_unique(old(v)@) ==> assoc_unique(final(v)@),
{
    let n = v.len();
    let mut i: usize = 0;
    while i < n
        invariant
            0 <= i <= n,
            n == v@.len(),
            v@ == old(v)@,
            forall|k: int| 0 <= k < i ==> (#[trigger] v@[k]).0 != code,
        decreases n - i,
    {
        if v[i].0 == code {
            proof {
                lemma_assoc_find_at(v@, code, i as int);
            }
            v.set(i, (code, val));
            proof {
                assert(final(v)@ =~= assoc_set(old(v)@, code, val));
            }
            return;
        }
        i = i + 1;
    }
    proof {
        lemma_assoc_find_at(v@, code, n as int);
    }
    v.push((code, val));
    proof {
        assert(forall|k: int|
            0 <= k < old(v)@.len() ==> (#[trigger] final(v)@[k]) == old(v)@[k]);
    }
}

/// Removes the binding for a code and returns what was bound.
pub fn assoc_vec_remove<V: Copy>(v: &mut Vec<(u16, V)>, code: u16) -> (r: Option<V>)
    ensures
        final(v)@ == assoc_without(old(v)@, code),
        r == if assoc_has(old(v)@, code) {
            Some(assoc_get(old(v)@, code))
        } else {
            None::<V>
        },
        assoc_unique(old(v)@) ==> assoc_unique(final(v)@),
{
    let n = v.len();
    let mut i: usize = 0;
    while i < n
        invariant
            0 <= i <= n,
            n == v@.len(),
            v@ == old(v)@,
            forall|k: int| 0 <= k < i ==> (#[trigger] v@[k]).0 != code,
        decreases n - i,
    {
        if v[i].0 == code {
            proof {
                lemma_assoc_find_at(v@, code, i as int);
            }
            let e = v.remove(i);
            return Some(e.1);
        }
        i = i + 1;
    }
    proof {
        lemma_assoc_find_at(v@, code, n as int);
    }
    None
}

/// The codes bound by the list, in order.
pub open spec fn assoc_codes<V>(s: Seq<(u16, V)>) -> Seq<u16> {
    s.map_values(|e: (u16, V)| e.0)
}

/// Snapshots the bound codes, in order.
pub fn assoc_vec_codes<V: Copy>(v: &Vec<(u16, V)>) -> (r: Vec<u16>)
    ensures
        r@ == assoc_codes(v@),
{
    let n = v.len();
    let mut out: Vec<u16> = Vec::new();
    let mut i: usize = 0;
    while i < n
        invariant
            0 <= i <= n,
            n == v@.len(),
            out@ == assoc_codes(v@.subrange(0, i as int)),
        decreases n - i,
    {
        out.push(v[i].0);
        proof {
            assert(out@ =~= assoc_codes(v@.subrange(0, i + 1)));
        }
        i = i + 1;
    }
    proof {
        assert(v@.subrange(0, n as int) =~= v@);
    }
    out
}

// ---------------------------------------------------------------------------
// A set of rule ids.
// ---------------------------------------------------------------------------

/// The ids held by a list of strings, as a set of character sequences.
pub open spec fn ids_view(s: Seq<String>) -> Set<Seq<char>> {
    Set::new(|x: Seq<char>| exists|i: int| 0 <= i < s.len() && (#[trigger] s[i])@ == x)
}

/// No id text appears twice.
pub open spec fn ids_unique(s: Seq<String>) -> bool {
    forall|i: int, j: int| 0 <= i < j < s.len() ==> (#[trigger] s[i])@ != (#[trigger] s[j])@
}

/// Membership test against the id set.
pub fn ids_contains(v: &Vec<String>, id: &str) -> (r: bool)
    ensures
        r == ids_view(v@).contains(id@),
{
    let n = v.len();
    let mut i: usize = 0;
    while i < n
        invariant
            0 <= i <= n,
            n == v@.len(),
            forall|k: int| 0 <= k < i ==> (#[trigger] v@[k])@ != id@,
        decreases n - i,
    {
        if crate::strutil::str_eq_str(v[i].as_str(), id) {
            proof {
                assert(ids_view(v@).contains(id@));
            }
            return true;
        }
        i = i + 1;
    }
    proof {
        if ids_view(v@).contains(id@) {
            let w = choose|k: int| 0 <= k < v@.len() && (#[trigger] v@[k])@ == id@;
            assert(false);
        }
    }
    false
}

/// Adds an id to the set.
pub fn ids_insert(v: &mut Vec<String>, id: &str)
    requires
        ids_unique(old(v)@),
    ensures
        ids_view(final(v)@) == ids_view(old(v)@).insert(id@),
        ids_unique(final(v)@),
{
    let present = ids_contains(v, id);
    if !present {
        v.push(id.to_owned());
        proof {
            assert(forall|k: int|
                0 <= k < old(v)@.len() ==> (#[trigger] final(v)@[k]) == old(v)@[k]);
            assert(final(v)@[old(v)@.len() as int]@ == id@);
            assert forall|x: Seq<char>|
                ids_view(final(v)@).contains(x) == ids_view(old(v)@).insert(id@).contains(
                    x,
                ) by {
                if ids_view(final(v)@).contains(x) {
                    let k = choose|k: int|
                        0 <= k < final(v)@.len() && (#[trigger] final(v)@[k])@ == x;
                    if k < old(v)@.len() {
                        assert(ids_view(old(v)@).contains(x));
                    }
                }
                if ids_view(old(v)@).contains(x) {
                    let k = choose|k: int| 0 <= k < old(v)@.len() && (#[trigger] old(v)@[k])@ == x;
                    assert(final(v)@[k]@ == x);
                    assert(ids_view(final(v)@).contains(x));
                }
                if x == id@ {
                    assert(ids_view(final(v)@).contains(x));
                }
            }
            assert(ids_view(final(v)@) =~= ids_view(old(v)@).insert(id@));
        }
    } else {
        proof {
            assert(ids_view(v@) =~= ids_view(v@).insert(id@));
        }
    }
}

/// Takes an id out of the set.
pub fn ids_remove(v: &mut Vec<String>, id: &str)
    requires
        ids_unique(old(v)@),
    ensures
        ids_view(final(v)@) == ids_view(old(v)@).remove(id@),
        ids_unique(final(v)@),
{
    let n = v.len();
    let mut i: usize = 0;
    while i < n
        invariant
            0 <= i <= n,
            n == v@.len(),
            v@ == old(v)@,
            forall|k: int| 0 <= k < i ==> (#[trigger] v@[k])@ != id@,
        decreases n - i,
    {
        if crate::strutil::str_eq_str(v[i].as_str(), id) {
            v.remove(i);
            proof {
                assert(forall|k: int|
                    0 <= k < i ==> (#[trigger] final(v)@[k]) == old(v)@[k]);
                assert(forall|k: int|
                    i <= k < final(v)@.len() ==> (#[trigger] final(v)@[k]) == old(v)@[k + 1]);
                assert forall|x: Seq<char>|
                    ids_view(final(v)@).contains(x) == ids_view(old(v)@).remove(id@).contains(
                        x,
                    ) by {
                    if ids_view(final(v)@).contains(x) {
                        let k = choose|k: int|
                            0 <= k < final(v)@.len() && (#[trigger] final(v)@[k])@ == x;
                        if k < i {
                            assert(old(v)@[k]@ == x);
                            assert(ids_view(old(v)@).contains(x));
                        } else {
                            assert(old(v)@[k + 1]@ == x);
                            assert(ids_view(old(v)@).contains(x));
                        }
                        assert(x != id@);
                    }
                    if ids_view(old(v)@).remove(id@).contains(x) {
                        let k = choose|k: int|
                            0 <= k < old(v)@.len() && (#[trigger] old(v)@[k])@ == x;
                        if k < i {
                            assert(final(v)@[k]@ == x);
                            assert(ids_view(final(v)@).contains(x));
                        } else if k == i {
                            assert(false);
                        } else {
                            assert(final(v)@[k - 1]@ == x);
                            assert(ids_view(final(v)@).contains(x));
                        }
                    }
                }
                assert(ids_view(final(v)@) =~= ids_view(old(v)@).remove(id@));
            }
            return;
        }
        i = i + 1;
    }
    proof {
        assert forall|x: Seq<char>|
            ids_view(v@).contains(x) == ids_view(old(v)@).remove(id@).contains(x) by {
            if ids_view(v@).contains(x) && x == id@ {
                let k = choose|k: int| 0 <= k < v@.len() && (#[trigger] v@[k])@ == x;
                assert(false);
            }
        }
        assert(ids_view(v@) =~= ids_view(old(v)@).remove(id@));
    }
}

} // verus!
