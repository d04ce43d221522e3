//! Parsing of the package manager's output: the package list named by
//! `package:` lines, and the display label found in a package dump.  The
//! subprocess that produces the text lives outside the library.

use vstd::prelude::*;
use crate::strutil::str_eq_str;
use crate::strutil::trim_seq;
use crate::strutil::trim_str;

verus! {

/// Index of the first newline, or -1.
pub open spec fn first_nl(s: Seq<char>) -> int
    decreases s.len(),
{
    if s.len() == 0 {
        -1
    } else if s[0] == '\n' {
        0
    } else if first_nl(s.drop_first()) == -1 {
        -1
    } else {
        first_nl(s.drop_first()) + 1
    }
}

proof fn lemma_first_nl_at(s: Seq<char>, j: int)
    requires
        0 <= j <= s.len(),
        forall|k: int| 0 <= k < j ==> s[k] != '\n',
        j < s.len() ==> s[j] == '\n',
    ensures
        first_nl(s) == if j == s.len() {
            -1int
        } else {
            j
        },
    decreases j,
{
    if j > 0 {
        lemma_first_nl_at(s.drop_first(), j - 1);
    }
}

/// A line as `str::lines` yields it: the text before a newline loses a
/// trailing carriage return.
pub open spec fn strip_cr(s: Seq<char>) -> Seq<char> {
    if s.len() > 0 && s.last() == '\r' {
        s.drop_last()
    } else {
        s
    }
}

/// What `str::lines` yields: pieces split at newlines, each stripped of
/// a carriage return before the newline; a final piece without a newline
/// is kept as it stands, and a trailing newline adds no empty line.
pub open spec fn split_lines_seq(s: Seq<char>) -> Seq<Seq<char>>
    decreases s.len(),
{
    if s.len() == 0 {
        Seq::empty()
    } else {
        let i = first_nl(s);
        if 0 <= i < s.len() {
            seq![strip_cr(s.subrange(0, i))] + split_lines_seq(s.subrange(i + 1, s.len() as int))
        } else {
            seq![s]
        }
    }
}

/// Splits text into lines, as `str::lines` does.
pub fn split_lines(s: &str) -> (r: Vec<String>)
    ensures
        r@.map_values(|t: String| t@) == split_lines_seq(s@),
    decreases s@.len(),
{
    let n: usize = s.unicode_len();
    if n == 0 {
        let r: Vec<String> = Vec::new();
        proof {
            assert(r@.map_values(|t: String| t@) =~= split_lines_seq(s@));
        }
        return r;
    }
    let mut i: usize = 0;
    while i < n && s.get_char(i) as u32 != 0x0A
        invariant
            0 <= i <= n,
            n == s@.len(),
            forall|k: int| 0 <= k < i ==> s@[k] != '\n',
        decreases n - i,
    {
        i = i + 1;
    }
    proof {
        lemma_first_nl_at(s@, i as int);
    }
    if i == n {
        let mut r: Vec<String> = Vec::new();
        r.push(s.to_owned());
        proof {
            assert(r@.map_values(|t: String| t@) =~= split_lines_seq(s@));
        }
        r
    } else {
        let head_end: usize = if i > 0 && s.get_char(i - 1) as u32 == 0x0D {
            i - 1
        } else {
            i
        };
        let head = s.substring_char(0, head_end);
        proof {
            assert(head@ =~= strip_cr(s@.subrange(0, i as int)));
        }
        let tail = s.substring_char(i + 1, n);
        let mut rest = split_lines(tail);
        let mut r: Vec<String> = Vec::new();
        r.push(head.to_owned());
        r.append(&mut rest);
        proof {
            assert(r@.map_values(|t: String| t@) =~= split_lines_seq(s@));
        }
        r
    }
}

/// Whether the sequence starts with the given prefix.
pub open spec fn has_prefix(s: Seq<char>, p: Seq<char>) -> bool {
    s.len() >= p.len() && s.subrange(0, p.len() as int) == p
}

/// Prefix test on string slices.
pub fn str_has_prefix(s: &str, p: &str) -> (r: bool)
    ensures
        r == has_prefix(s@, p@),
{
    let sn: usize = s.unicode_len();
    let pn: usize = p.unicode_len();
    if sn < pn {
        return false;
    }
    let mut i: usize = 0;
    while i < pn
        invariant
            0 <= i <= pn,
            pn == p@.len(),
            sn == s@.len(),
            pn <= sn,
            forall|k: int| 0 <= k < i ==> s@[k] == p@[k],
        decreases pn - i,
    {
        if s.get_char(i) as u32 != p.get_char(i) as u32 {
            proof {
                assert(s@.subrange(0, pn as int)[i as int] != p@[i as int]);
            }
            return false;
        }
        i = i + 1;
    }
    proof {
        assert(s@.subrange(0, pn as int) =~= p@);
    }
    true
}

/// The package a `package:` line names, trimmed, when it is non-empty.
pub open spec fn line_package(l: Seq<char>) -> Option<Seq<char>> {
    if has_prefix(l, "package:"@) {
        let t = trim_seq(l.subrange("package:"@.len() as int, l.len() as int));
        if t.len() > 0 {
            Some(t)
        } else {
            None
        }
    } else {
        None
    }
}

/// The distinct package names the lines carry, first appearance first.
pub open spec fn collect_packages(lines: Seq<Seq<char>>) -> Seq<Seq<char>>
    decreases lines.len(),
{
    if lines.len() == 0 {
        Seq::empty()
    } else {
        let p = collect_packages(lines.drop_last());
        match line_package(lines.last()) {
            Some(name) => if p.contains(name) {
                p
            } else {
                p.push(name)
            },
            None => p,
        }
    }
}

/// The package names named in the listing text, each once.
pub open spec fn package_names(s: Seq<char>) -> Seq<Seq<char>> {
    collect_packages(split_lines_seq(s))
}

fn names_contain(v: &Vec<String>, name: &str) -> (r: bool)
    ensures
        r == v@.map_values(|t: String| t@).contains(name@),
{
    let n = v.len();
    let mut i: usize = 0;
    while i < n
        invariant
            0 <= i <= n,
            n == v@.len(),
            forall|k: int| 0 <= k < i ==> (#[trigger] v@[k])@ != name@,
        decreases n - i,
    {
        if str_eq_str(v[i].as_str(), name) {
            proof {
                assert(v@.map_values(|t: String| t@)[i as int] == name@);
            }
            return true;
        }
        i = i + 1;
    }
    proof {
        if v@.map_values(|t: String| t@).contains(name@) {
            let mv = v@.map_values(|t: String| t@);
            let w = choose|w: int| 0 <= w < mv.len() && #[trigger] mv[w] == name@;
            assert(v@[w]@ == name@);
        }
    }
    false
}

/// Reads the package listing: every distinct name on a `package:` line,
/// in order of first appearance.
pub fn parse_package_list(out: &str) -> (r: Vec<String>)
    ensures
        r@.map_values(|t: String| t@) == package_names(out@),
{
    let lines = split_lines(out);
    let ghost lv = split_lines_seq(out@);
    let n = lines.len();
    let mut r: Vec<String> = Vec::new();
    let mut i: usize = 0;
    while i < n
        invariant
            0 <= i <= n,
            n == lines@.len(),
            lines@.map_values(|t: String| t@) == lv,
            r@.map_values(|t: String| t@) == collect_packages(lv.subrange(0, i as int)),
        decreases n - i,
    {
        let ghost pre = collect_packages(lv.subrange(0, i as int));
        proof {
            assert(lines@.map_values(|t: String| t@)[i as int] == lv[i as int]);
            assert(lv.subrange(0, i + 1).drop_last() =~= lv.subrange(0, i as int));
            assert(lv.subrange(0, i + 1).last() == lv[i as int]);
        }
        let line = &lines[i];
        if str_has_prefix(line.as_str(), "package:") {
            let ln: usize = line.as_str().unicode_len();
            proof {
                reveal_strlit("package:");
            }
            let rest = line.as_str().substring_char(8, ln);
            let name = trim_str(rest);
            if name.unicode_len() > 0 {
                let present = names_contain(&r, name);
                if !present {
                    r.push(name.to_owned());
                }
            }
        }
        proof {
            assert(r@.map_values(|t: String| t@) =~= collect_packages(lv.subrange(0, i + 1)));
        }
        i = i + 1;
    }
    proof {
        assert(lv.subrange(0, n as int) =~= lv);
    }
    r
}

/// Index of the first colon, or -1.
pub open spec fn first_colon(s: Seq<char>) -> int
    decreases s.len(),
{
    if s.len() == 0 {
        -1
    } else if s[0] == ':' {
        0
    } else if first_colon(s.drop_first()) == -1 {
        -1
    } else {
        first_colon(s.drop_first()) + 1
    }
}

proof fn lemma_first_colon_at(s: Seq<char>, j: int)
    requires
        0 <= j <= s.len(),
        forall|k: int| 0 <= k < j ==> s[k] != ':',
        j < s.len() ==> s[j] == ':',
    ensures
        first_colon(s) == if j == s.len() {
            -1int
        } else {
            j
        },
    decreases j,
{
    if j > 0 {
        lemma_first_colon_at(s.drop_first(), j - 1);
    }
}

/// The sequence with leading quote characters removed.
pub open spec fn quote_front(s: Seq<char>) -> Seq<char>
    decreases s.len(),
{
    if s.len() > 0 && s[0] == '\'' {
        quote_front(s.drop_first())
    } else {
        s
    }
}

/// The sequence with trailing quote characters removed.
pub open spec fn quote_back(s: Seq<char>) -> Seq<char>
    decreases s.len(),
{
    if s.len() > 0 && s.last() == '\'' {
        quote_back(s.drop_last())
    } else {
        s
    }
}

/// What `str::trim_matches` with a quote yields: both ends stripped of
/// quote characters.
pub open spec fn strip_quotes(s: Seq<char>) -> Seq<char> {
    quote_back(quote_front(s))
}

proof fn lemma_quote_front_at(s: Seq<char>, i: int)
    requires
        0 <= i <= s.len(),
        forall|k: int| 0 <= k < i ==> s[k] == '\'',
        i < s.len() ==> s[i] != '\'',
    ensures
        quote_front(s) == s.subrange(i, s.len() as int),
    decreases i,
{
    if i == 0 {
        assert(s.subrange(0, s.len() as int) =~= s);
    } else {
        let t = s.drop_first();
        lemma_quote_front_at(t, i - 1);
        assert(t.subrange(i - 1, t.len() as int) =~= s.subrange(i, s.len() as int));
    }
}

proof fn lemma_quote_back_at(s: Seq<char>, j: int)
    requires
        0 <= j <= s.len(),
        forall|k: int| j <= k < s.len() ==> s[k] == '\'',
        j > 0 ==> s[j - 1] != '\'',
    ensures
        quote_back(s) == s.subrange(0, j),
    decreases s.len(),
{
    if j == s.len() {
        assert(s.subrange(0, j) =~= s);
    } else {
        let t = s.drop_last();
        assert(forall|k: int| j <= k < t.len() ==> t[k] == '\'');
        lemma_quote_back_at(t, j);
        assert(t.subrange(0, j) =~= s.subrange(0, j));
    }
}

/// Strips quote characters from both ends, as `str::trim_matches` does.
fn strip_quotes_str<'a>(s: &'a str) -> (r: &'a str)
    ensures
        r@ == strip_quotes(s@),
{
    let n: usize = s.unicode_len();
    let mut i: usize = 0;
    while i < n && s.get_char(i) as u32 == 0x27
        invariant
            0 <= i <= n,
            n == s@.len(),
            forall|k: int| 0 <= k < i ==> s@[k] == '\'',
        decreases n - i,
    {
        i = i + 1;
    }
    proof {
        lemma_quote_front_at(s@, i as int);
    }
    if i == n {
        let r = s.substring_char(n, n);
        proof {
            assert(quote_front(s@) =~= Seq::<char>::empty());
            assert(strip_quotes(s@) =~= r@);
        }
        return r;
    }
    let mut j: usize = n;
    while j > i && s.get_char(j - 1) as u32 == 0x27
        invariant
            i <= j <= n,
            n == s@.len(),
            i < n,
            s@[i as int] != '\'',
            forall|k: int| j <= k < n ==> s@[k] == '\'',
        decreases j,
    {
        j = j - 1;
    }
    let r = s.substring_char(i, j);
    proof {
        let f = s@.subrange(i as int, n as int);
        assert(forall|k: int| j - i <= k < f.len() ==> f[k] == '\'');
        assert(j > i);
        assert(f[j - i - 1] == s@[j - 1]);
        assert(f[j - i - 1] != '\'');
        lemma_quote_back_at(f, j - i);
        assert(f.subrange(0, j - i) =~= s@.subrange(i as int, j as int));
    }
    r
}

/// What one dump line says about the label: not a label line at all, a
/// label line without the expected colon, or the label text after the
/// colon with quotes and spacing removed.
pub ghost enum LabelLine {
    NotLabel,
    NoColon,
    Label { text: Seq<char> },
}

pub open spec fn classify_label_line(l: Seq<char>) -> LabelLine {
    let t = trim_seq(l);
    if !has_prefix(t, "application-label"@) {
        LabelLine::NotLabel
    } else if first_colon(t) == -1 {
        LabelLine::NoColon
    } else {
        LabelLine::Label {
            text: trim_seq(
                strip_quotes(trim_seq(t.subrange(first_colon(t) + 1, t.len() as int))),
            ),
        }
    }
}

/// The label the dump reveals: the first label line's non-empty text; a
/// label line without a colon ends the search with nothing.
pub open spec fn find_label(lines: Seq<Seq<char>>, i: int) -> Option<Seq<char>>
    decreases lines.len() - i,
{
    if i < 0 || i >= lines.len() {
        None
    } else {
        match classify_label_line(lines[i]) {
            LabelLine::NotLabel => find_label(lines, i + 1),
            LabelLine::NoColon => None,
            LabelLine::Label { text } => if text.len() > 0 {
                Some(text)
            } else {
                find_label(lines, i + 1)
            },
        }
    }
}

pub open spec fn app_label(s: Seq<char>) -> Option<Seq<char>> {
    find_label(split_lines_seq(s), 0)
}

/// Reads a package dump for the application's display label.
pub fn parse_app_label(out: &str) -> (r: Option<String>)
    ensures
        match r {
            Some(s) => app_label(out@) == Some(s@),
            None => app_label(out@) is None,
        },
{
    let lines = split_lines(out);
    let ghost lv = split_lines_seq(out@);
    let n = lines.len();
    let mut i: usize = 0;
    while i < n
        invariant
            0 <= i <= n,
            n == lines@.len(),
            lines@.map_values(|t: String| t@) == lv,
            find_label(lv, 0) == find_label(lv, i as int),
        decreases n - i,
    {
        proof {
            assert(lines@.map_values(|t: String| t@)[i as int] == lv[i as int]);
        }
        let t = trim_str(lines[i].as_str());
        if str_has_prefix(t, "application-label") {
            let tn: usize = t.unicode_len();
            let mut c: usize = 0;
            while c < tn && t.get_char(c) as u32 != 0x3A
                invariant
                    0 <= c <= tn,
                    tn == t@.len(),
                    forall|k: int| 0 <= k < c ==> t@[k] != ':',
                decreases tn - c,
            {
                c = c + 1;
            }
            proof {
                lemma_first_colon_at(t@, c as int);
            }
            if c == tn {
                return None;
            }
            let value = t.substring_char(c + 1, tn);
            let inner = trim_str(value);
            let stripped = strip_quotes_str(inner);
            let label = trim_str(stripped);
            if label.unicode_len() > 0 {
                return Some(label.to_owned());
            }
        }
        i = i + 1;
    }
    None
}

} // verus!
