//! The installed-application cache: package names with their display
//! labels, unique by package.  The refresh that talks to the package
//! manager lives outside the library and feeds this cache through its
//! verified operations.

use vstd::prelude::*;
use crate::config::pairs_view;
use crate::strutil::seq_char_le;
use crate::strutil::str_eq_str;
use crate::strutil::str_le;

verus! {

/// First index whose package equals the key, or -1.
pub open spec fn cache_find(s: Seq<(Seq<char>, Seq<char>)>, key: Seq<char>) -> int
    decreases s.len(),
{
    if s.len() == 0 {
        -1
    } else if s[0].0 == key {
        0
    } else if cache_find(s.drop_first(), key) == -1 {
        -1
    } else {
        cache_find(s.drop_first(), key) + 1
    }
}

pub open spec fn cache_has(s: Seq<(Seq<char>, Seq<char>)>, key: Seq<char>) -> bool {
    cache_find(s, key) >= 0
}

/// No package name appears twice.
pub open spec fn cache_unique(s: Seq<(Seq<char>, Seq<char>)>) -> bool {
    forall|i: int, j: int| 0 <= i < j < s.len() ==> (#[trigger] s[i]).0 != (#[trigger] s[j]).0
}

/// Entries ordered by package name.
pub open spec fn sorted_by_package(s: Seq<(Seq<char>, Seq<char>)>) -> bool {
    forall|i: int, j: int| 0 <= i < j < s.len() ==> seq_char_le((#[trigger] s[i]).0, (#[trigger] s[j]).0)
}

proof fn lemma_cache_find_at(s: Seq<(Seq<char>, Seq<char>)>, key: Seq<char>, i: int)
    requires
        0 <= i <= s.len(),
        forall|k: int| 0 <= k < i ==> (#[trigger] s[k]).0 != key,
        i < s.len() ==> s[i].0 == key,
    ensures
        cache_find(s, key) == if i == s.len() {
            -1int
        } else {
            i
        },
    decreases i,
{
    if i > 0 {
        let t = s.drop_first();
        assert(forall|k: int| 0 <= k < i - 1 ==> (#[trigger] t[k]).0 != key);
        lemma_cache_find_at(t, key, i - 1);
    }
}

/// The cache of installed applications.
pub struct AppCache {
    entries: Vec<(String, String)>,
}

impl View for AppCache {
    type V = Seq<(Seq<char>, Seq<char>)>;

    closed spec fn view(&self) -> Seq<(Seq<char>, Seq<char>)> {
        pairs_view(self.entries@)
    }
}

impl AppCache {
    /// Packages unique.
    pub closed spec fn inv(&self) -> bool {
        cache_unique(self@)
    }

    /// An empty cache.
    pub fn new() -> (r: Self)
        ensures
            r.inv(),
            r@ == Seq::<(Seq<char>, Seq<char>)>::empty(),
    {
        let r = AppCache { entries: Vec::new() };
        proof {
            assert(r@ =~= Seq::<(Seq<char>, Seq<char>)>::empty());
        }
        r
    }

    /// Whether a package is cached.
    pub fn contains_package(&self, package: &str) -> (r: bool)
        ensures
            r == cache_has(self@, package@),
    {
        let n = self.entries.len();
        let mut i: usize = 0;
        while i < n
            invariant
                0 <= i <= n,
                n == self.entries@.len(),
                self@.len() == n,
                forall|k: int| 0 <= k < n ==> (#[trigger] self@[k]) == (
                    self.entries@[k].0@,
                    self.entries@[k].1@,
                ),
                forall|k: int| 0 <= k < i ==> (#[trigger] self@[k]).0 != package@,
            decreases n - i,
        {
            if str_eq_str(self.entries[i].0.as_str(), package) {
                proof {
                    lemma_cache_find_at(self@, package@, i as int);
                }
                return true;
            }
            i = i + 1;
        }
        proof {
            lemma_cache_find_at(self@, package@, n as int);
        }
        false
    }

    /// Binds a package to a label, replacing an earlier binding.
    pub fn insert_app(&mut self, package: String, label: String)
        requires
            old(self).inv(),
        ensures
            final(self).inv(),
            final(self)@ == if cache_has(old(self)@, package@) {
                old(self)@.update(cache_find(old(self)@, package@), (package@, label@))
            } else {
                old(self)@.push((package@, label@))
            },
    {
        let n = self.entries.len();
        let mut i: usize = 0;
        while i < n
            invariant
                0 <= i <= n,
                n == self.entries@.len(),
                self@.len() == n,
                *self == *old(self),
                forall|k: int| 0 <= k < n ==> (#[trigger] self@[k]) == (
                    self.entries@[k].0@,
                    self.entries@[k].1@,
                ),
                forall|k: int| 0 <= k < i ==> (#[trigger] self@[k]).0 != package@,
            decreases n - i,
        {
            if str_eq_str(self.entries[i].0.as_str(), package.as_str()) {
                proof {
                    lemma_cache_find_at(self@, package@, i as int);
                }
                self.entries.set(i, (package, label));
                proof {
                    assert(self@ =~= old(self)@.update(
                        cache_find(old(self)@, package@),
                        (package@, label@),
                    ));
                }
                return;
            }
            i = i + 1;
        }
        proof {
            lemma_cache_find_at(self@, package@, n as int);
        }
        self.entries.push((package, label));
        proof {
            assert(self@ =~= old(self)@.push((package@, label@)));
            assert(forall|k: int|
                0 <= k < old(self)@.len() ==> (#[trigger] self@[k]) == old(self)@[k]);
        }
    }

    /// Drops every package that is not in the current list, as a refresh
    /// does after reading the installed set.
    pub fn retain_packages(&mut self, current: &Vec<String>)
        requires
            old(self).inv(),
        ensures
            final(self).inv(),
            final(self)@ == old(self)@.filter(
                |e: (Seq<char>, Seq<char>)|
                    exists|k: int| 0 <= k < current@.len() && (#[trigger] current@[k])@ == e.0,
            ),
    {
        let ghost pred = |e: (Seq<char>, Seq<char>)|
            exists|k: int| 0 <= k < current@.len() && (#[trigger] current@[k])@ == e.0;
        let n = self.entries.len();
        let mut kept: Vec<(String, String)> = Vec::new();
        let mut j: usize = 0;
        while j < n
            invariant
                0 <= j <= n,
                n == self.entries@.len(),
                *self == *old(self),
                pred == (|e: (Seq<char>, Seq<char>)|
                    exists|k: int| 0 <= k < current@.len() && (#[trigger] current@[k])@ == e.0),
                pairs_view(kept@) == pairs_view(self.entries@.subrange(0, j as int)).filter(pred),
                forall|a: int, b: int|
                    0 <= a < b < pairs_view(kept@).len() ==> (#[trigger] pairs_view(kept@)[a]).0
                        != (#[trigger] pairs_view(kept@)[b]).0,
            decreases n - j,
        {
            let ghost prefix = pairs_view(self.entries@.subrange(0, j as int));
            let ghost ej = pairs_view(self.entries@)[j as int];
            proof {
                assert(pairs_view(self.entries@.subrange(0, j + 1)) =~= prefix.push(ej));
                prefix.lemma_filter_push(ej, pred);
            }
            let mut found: bool = false;
            let m = current.len();
            let mut k: usize = 0;
            while k < m
                invariant
                    0 <= k <= m,
                    m == current@.len(),
                    j < n,
                    n == self.entries@.len(),
                    *self == *old(self),
                    ej == pairs_view(self.entries@)[j as int],
                    found == exists|q: int|
                        0 <= q < k && (#[trigger] current@[q])@ == self.entries@[j as int].0@,
                decreases m - k,
            {
                if str_eq_str(current[k].as_str(), self.entries[j].0.as_str()) {
                    found = true;
                }
                k = k + 1;
            }
            if found {
                kept.push((self.entries[j].0.clone(), self.entries[j].1.clone()));
                proof {
                    assert(pred(ej));
                    assert(pairs_view(kept@) =~= prefix.filter(pred).push(ej));
                    // the new entry's package differs from every kept one
                    assert forall|a: int|
                        0 <= a < pairs_view(kept@).len() - 1 implies (#[trigger] pairs_view(
                        kept@,
                    )[a]).0 != ej.0 by {
                        let old_kept = prefix.filter(pred);
                        assert(pairs_view(kept@)[a] == old_kept[a]);
                        lemma_filter_elem_from(prefix, pred, a);
                        let q = choose|q: int| 0 <= q < prefix.len() && prefix[q] == old_kept[a];
                        assert(pairs_view(self.entries@)[q] == prefix[q]);
                    }
                }
            } else {
                proof {
                    assert(!pred(ej));
                }
            }
            j = j + 1;
        }
        proof {
            assert(self.entries@.subrange(0, n as int) =~= self.entries@);
        }
        self.entries = kept;
    }

    /// The cached applications sorted by package name: same entries, in
    /// lexicographic package order.
    pub fn get_apps(&self) -> (r: Vec<(String, String)>)
        ensures
            r@.len() == self@.len(),
            sorted_by_package(pairs_view(r@)),
            forall|e: (Seq<char>, Seq<char>)|
                pairs_view(r@).contains(e) == self@.contains(e),
    {
        let n = self.entries.len();
        let mut out: Vec<(String, String)> = Vec::new();
        let mut i: usize = 0;
        while i < n
            invariant
                0 <= i <= n,
                n == self.entries@.len(),
                out@.len() == i,
                sorted_by_package(pairs_view(out@)),
                forall|e: (Seq<char>, Seq<char>)|
                    #[trigger] pairs_view(out@).contains(e) == pairs_view(
                        self.entries@.subrange(0, i as int),
                    ).contains(e),
            decreases n - i,
        {
            let entry = (self.entries[i].0.clone(), self.entries[i].1.clone());
            let ghost ev = (entry.0@, entry.1@);
            // find the insertion point
            let mut pos: usize = 0;
            let on = out.len();
            while pos < on && str_le(out[pos].0.as_str(), entry.0.as_str())
                invariant
                    0 <= pos <= on,
                    on == out@.len(),
                    forall|k: int| 0 <= k < pos ==> seq_char_le(
                        (#[trigger] pairs_view(out@)[k]).0,
                        ev.0,
                    ),
                decreases on - pos,
            {
                pos = pos + 1;
            }
            let ghost out_before = pairs_view(out@);
            out.insert(pos, entry);
            proof {
                assert(pairs_view(out@) =~= out_before.insert(pos as int, ev));
                // sortedness: entries before keep le to ev; entries after are ge
                assert forall|a: int, b: int|
                    0 <= a < b < pairs_view(out@).len() implies seq_char_le(
                    (#[trigger] pairs_view(out@)[a]).0,
                    (#[trigger] pairs_view(out@)[b]).0,
                ) by {
                    let pv = pairs_view(out@);
                    let p = pos as int;
                    if a < p && b == p {
                    } else if a == p && b > p {
                        assert(pv[b] == out_before[b - 1]);
                        if b - 1 == p {
                            crate::strutil::lemma_seq_char_le_total(ev.0, out_before[p].0);
                        } else {
                            crate::strutil::lemma_seq_char_le_total(ev.0, out_before[p].0);
                            lemma_le_trans(ev.0, out_before[p].0, out_before[b - 1].0);
                        }
                    } else if a < p && b > p {
                        assert(pv[a] == out_before[a]);
                        assert(pv[b] == out_before[b - 1]);
                    } else if a > p && b > p {
                        assert(pv[a] == out_before[a - 1]);
                        assert(pv[b] == out_before[b - 1]);
                    } else if a < p && b < p {
                        assert(pv[a] == out_before[a]);
                        assert(pv[b] == out_before[b]);
                    }
                }
                // membership
                assert(pairs_view(self.entries@.subrange(0, i + 1)) =~= pairs_view(
                    self.entries@.subrange(0, i as int),
                ).push(ev));
                assert forall|e: (Seq<char>, Seq<char>)|
                    #[trigger] pairs_view(out@).contains(e) == pairs_view(
                        self.entries@.subrange(0, i + 1),
                    ).contains(e) by {
                    let pv = pairs_view(out@);
                    let prev = pairs_view(self.entries@.subrange(0, i as int));
                    assert(out_before.contains(e) == prev.contains(e));
                    if pv.contains(e) {
                        let q = choose|q: int| 0 <= q < pv.len() && pv[q] == e;
                        if q == pos as int {
                            assert(prev.push(ev)[prev.len() as int] == ev);
                            assert(prev.push(ev).contains(e));
                        } else if q < pos as int {
                            assert(out_before[q] == e);
                            assert(out_before.contains(e));
                            let w = choose|w: int|
                                0 <= w < prev.len() && #[trigger] prev[w] == e;
                            assert(prev.push(ev)[w] == e);
                            assert(prev.push(ev).contains(e));
                        } else {
                            assert(out_before[q - 1] == e);
                            assert(out_before.contains(e));
                            let w = choose|w: int|
                                0 <= w < prev.len() && #[trigger] prev[w] == e;
                            assert(prev.push(ev)[w] == e);
                            assert(prev.push(ev).contains(e));
                        }
                    }
                    if prev.push(ev).contains(e) {
                        let q = choose|q: int|
                            0 <= q < prev.push(ev).len() && #[trigger] prev.push(ev)[q] == e;
                        if q == prev.len() as int {
                            assert(pv[pos as int] == ev);
                            assert(pv.contains(e));
                        } else {
                            assert(prev[q] == e);
                            assert(prev.contains(e));
                            assert(out_before.contains(e));
                            let w = choose|w: int|
                                0 <= w < out_before.len() && #[trigger] out_before[w] == e;
                            if w < pos as int {
                                assert(pv[w] == e);
                            } else {
                                assert(pv[w + 1] == e);
                            }
                            assert(pv.contains(e));
                        }
                    }
                }
            }
            i = i + 1;
        }
        proof {
            assert(self.entries@.subrange(0, n as int) =~= self.entries@);
            assert(forall|e: (Seq<char>, Seq<char>)|
                #[trigger] pairs_view(self.entries@).contains(e) == self@.contains(e));
        }
        out
    }
}

/// Filtered elements come from the original sequence.
proof fn lemma_filter_elem_from(
    s: Seq<(Seq<char>, Seq<char>)>,
    pred: spec_fn((Seq<char>, Seq<char>)) -> bool,
    k: int,
)
    requires
        0 <= k < s.filter(pred).len(),
    ensures
        s.contains(s.filter(pred)[k]),
    decreases s.len(),
{
    reveal(Seq::filter);
    if s.len() > 0 {
        let last = s.last();
        if pred(last) && k == s.filter(pred).len() - 1 {
            assert(s.filter(pred)[k] == last);
            assert(s[s.len() - 1] == last);
        } else {
            lemma_filter_elem_from(s.drop_last(), pred, k);
            let e = s.drop_last().filter(pred)[k];
            let q = choose|q: int| 0 <= q < s.drop_last().len() && s.drop_last()[q] == e;
            assert(s[q] == e);
        }
    }
}

/// Lexicographic order is transitive.
proof fn lemma_le_trans(a: Seq<char>, b: Seq<char>, c: Seq<char>)
    requires
        seq_char_le(a, b),
        seq_char_le(b, c),
    ensures
        seq_char_le(a, c),
    decreases a.len(),
{
    if a.len() > 0 && b.len() > 0 && c.len() > 0 {
        if a[0] == b[0] && b[0] == c[0] {
            lemma_le_trans(a.drop_first(), b.drop_first(), c.drop_first());
        }
    }
}

} // verus!
