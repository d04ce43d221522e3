//! Verified helpers over strings and character sequences: whitespace
//! trimming, decimal parsing and formatting, splitting on `+`, and
//! lexicographic comparison.  All executable functions are specified
//! against spec functions over `Seq<char>`.

use vstd::prelude::*;

verus! {

/// The Unicode `White_Space` characters, the set that `str::trim` removes.
pub open spec fn is_ws_char(c: char) -> bool {
    let u = c as int;
    u == 0x09 || u == 0x0A || u == 0x0B || u == 0x0C || u == 0x0D || u == 0x20 || u == 0x85
        || u == 0xA0 || u == 0x1680 || (0x2000 <= u && u <= 0x200A) || u == 0x2028 || u == 0x2029
        || u == 0x202F || u == 0x205F || u == 0x3000
}

pub fn char_is_ws(c: char) -> (r: bool)
    ensures
        r == is_ws_char(c),
{
    let u = c as u32;
    u == 0x09 || u == 0x0A || u == 0x0B || u == 0x0C || u == 0x0D || u == 0x20 || u == 0x85
        || u == 0xA0 || u == 0x1680 || (0x2000 <= u && u <= 0x200A) || u == 0x2028 || u == 0x2029
        || u == 0x202F || u == 0x205F || u == 0x3000
}

/// The sequence with leading whitespace removed.
pub open spec fn trim_front(s: Seq<char>) -> Seq<char>
    decreases s.len(),
{
    if s.len() > 0 && is_ws_char(s[0]) {
        trim_front(s.drop_first())
    } else {
        s
    }
}

/// The sequence with trailing whitespace removed.
pub open spec fn trim_back(s: Seq<char>) -> Seq<char>
    decreases s.len(),
{
    if s.len() > 0 && is_ws_char(s.last()) {
        trim_back(s.drop_last())
    } else {
        s
    }
}

/// What `str::trim` returns: both ends stripped of whitespace.
pub open spec fn trim_seq(s: Seq<char>) -> Seq<char> {
    trim_back(trim_front(s))
}

proof fn lemma_trim_front_at(s: Seq<char>, i: int)
    requires
        0 <= i <= s.len(),
        forall|k: int| 0 <= k < i ==> is_ws_char(s[k]),
        i < s.len() ==> !is_ws_char(s[i]),
    ensures
        trim_front(s) == s.subrange(i, s.len() as int),
    decreases i,
{
    if i == 0 {
        if s.len() > 0 && is_ws_char(s[0]) {
            assert(false);
        }
        assert(s.subrange(0, s.len() as int) =~= s);
    } else {
        let t = s.drop_first();
        assert(forall|k: int| 0 <= k < i - 1 ==> is_ws_char(t[k]));
        lemma_trim_front_at(t, i - 1);
        assert(t.subrange(i - 1, t.len() as int) =~= s.subrange(i, s.len() as int));
    }
}

proof fn lemma_trim_back_at(s: Seq<char>, j: int)
    requires
        0 <= j <= s.len(),
        forall|k: int| j <= k < s.len() ==> is_ws_char(s[k]),
        j > 0 ==> !is_ws_char(s[j - 1]),
    ensures
        trim_back(s) == s.subrange(0, j),
    decreases s.len(),
{
    if j == s.len() {
        if s.len() > 0 && is_ws_char(s.last()) {
            assert(false);
        }
        assert(s.subrange(0, j) =~= s);
    } else {
        let t = s.drop_last();
        assert(forall|k: int| j <= k < t.len() ==> is_ws_char(t[k]));
        lemma_trim_back_at(t, j);
        assert(t.subrange(0, j) =~= s.subrange(0, j));
    }
}

/// `str::trim`, verified against `trim_seq`.
pub fn trim_str<'a>(s: &'a str) -> (r: &'a str)
    ensures
        r@ == trim_seq(s@),
{
    let n: usize = s.unicode_len();
    let mut i: usize = 0;
    while i < n && char_is_ws(s.get_char(i))
        invariant
            0 <= i <= n,
            n == s@.len(),
            forall|k: int| 0 <= k < i ==> is_ws_char(s@[k]),
        decreases n - i,
    {
        i = i + 1;
    }
    proof {
        lemma_trim_front_at(s@, i as int);
    }
    if i == n {
        let r = s.substring_char(n, n);
        proof {
            assert(trim_front(s@) =~= Seq::<char>::empty());
            assert(trim_seq(s@) =~= r@);
        }
        return r;
    }
    // there is a non-whitespace character at index i, so scanning backward stops
    let mut j: usize = n;
    while j > i && char_is_ws(s.get_char(j - 1))
        invariant
            i <= j <= n,
            n == s@.len(),
            i < n,
            !is_ws_char(s@[i as int]),
            forall|k: int| j <= k < n ==> is_ws_char(s@[k]),
        decreases j,
    {
        j = j - 1;
    }
    let r = s.substring_char(i, j);
    proof {
        let f = s@.subrange(i as int, n as int);
        assert(forall|k: int| j - i <= k < f.len() ==> is_ws_char(f[k]));
        assert(j > i);
        assert(f[j - i - 1] == s@[j - 1]);
        assert(!is_ws_char(f[j - i - 1]));
        lemma_trim_back_at(f, j - i);
        assert(f.subrange(0, j - i) =~= s@.subrange(i as int, j as int));
    }
    r
}


/// Trimming twice changes nothing more.
pub proof fn lemma_trim_trim(s: Seq<char>)
    ensures
        trim_seq(trim_seq(s)) == trim_seq(s),
{
    let t = trim_seq(s);
    if t.len() == 0 {
        assert(trim_front(t) == t);
        assert(trim_back(t) == t);
    } else {
        lemma_trim_front_props(s);
        lemma_trim_no_edge_ws(s);
        assert(!is_ws_char(t[0]));
        assert(!is_ws_char(t.last()));
        assert(trim_front(t) == t);
        assert(trim_back(t) == t);
    }
}

/// A non-empty trimmed sequence neither starts nor ends with whitespace.
proof fn lemma_trim_no_edge_ws(s: Seq<char>)
    requires
        trim_seq(s).len() > 0,
    ensures
        !is_ws_char(trim_seq(s)[0]),
        !is_ws_char(trim_seq(s).last()),
{
    lemma_trim_front_head(s);
    lemma_trim_back_last(trim_front(s));
    lemma_trim_back_head(trim_front(s));
}

/// The head of `trim_front` is not whitespace when anything is left.
proof fn lemma_trim_front_head(s: Seq<char>)
    requires
        trim_front(s).len() > 0,
    ensures
        !is_ws_char(trim_front(s)[0]),
    decreases s.len(),
{
    if s.len() > 0 && is_ws_char(s[0]) {
        lemma_trim_front_head(s.drop_first());
    }
}

/// The last of `trim_back` is not whitespace when anything is left.
proof fn lemma_trim_back_last(s: Seq<char>)
    requires
        trim_back(s).len() > 0,
    ensures
        !is_ws_char(trim_back(s).last()),
    decreases s.len(),
{
    if s.len() > 0 && is_ws_char(s.last()) {
        lemma_trim_back_last(s.drop_last());
    }
}

/// `trim_back` keeps the head it was given.
proof fn lemma_trim_back_head(s: Seq<char>)
    requires
        trim_back(s).len() > 0,
    ensures
        trim_back(s)[0] == s[0],
    decreases s.len(),
{
    if s.len() > 0 && is_ws_char(s.last()) {
        lemma_trim_back_head(s.drop_last());
    }
}

/// Trimming the front never lengthens the sequence.
proof fn lemma_trim_front_props(s: Seq<char>)
    ensures
        trim_front(s).len() <= s.len(),
    decreases s.len(),
{
    if s.len() > 0 && is_ws_char(s[0]) {
        lemma_trim_front_props(s.drop_first());
    }
}

/// Decimal digit test.
pub open spec fn is_digit_char(c: char) -> bool {
    0x30 <= c as int <= 0x39
}

/// Numeric value of a decimal digit character.
pub open spec fn digit_val(c: char) -> int {
    c as int - 0x30
}

pub open spec fn all_digits(s: Seq<char>) -> bool {
    forall|i: int| 0 <= i < s.len() ==> is_digit_char(s[i])
}

/// Value of a digit string read in base 10.
pub open spec fn dec_val(s: Seq<char>) -> int
    decreases s.len(),
{
    if s.len() == 0 {
        0
    } else {
        dec_val(s.drop_last()) * 10 + digit_val(s.last())
    }
}

pub proof fn lemma_dec_val_nonneg(s: Seq<char>)
    requires
        all_digits(s),
    ensures
        dec_val(s) >= 0,
    decreases s.len(),
{
    if s.len() > 0 {
        let t = s.drop_last();
        assert(all_digits(t));
        lemma_dec_val_nonneg(t);
    }
}

/// Extending a digit string to the right never decreases its value.
pub proof fn lemma_dec_val_extend(s: Seq<char>, i: int)
    requires
        all_digits(s),
        0 <= i <= s.len(),
    ensures
        dec_val(s) >= dec_val(s.subrange(0, i)),
    decreases s.len() - i,
{
    if i < s.len() {
        let p = s.subrange(0, i);
        let q = s.subrange(0, i + 1);
        assert(q.drop_last() =~= p);
        assert(all_digits(p));
        lemma_dec_val_nonneg(p);
        assert(dec_val(q) == dec_val(p) * 10 + digit_val(q.last()));
        lemma_dec_val_extend(s, i + 1);
    } else {
        assert(s.subrange(0, i) =~= s);
    }
}

/// What `str::parse::<u16>` accepts: an optional `+`, then one or more
/// decimal digits whose value fits in 16 bits.
pub open spec fn parse_u16_seq(s: Seq<char>) -> Option<u16> {
    let ds = if s.len() > 0 && s[0] == '+' {
        s.subrange(1, s.len() as int)
    } else {
        s
    };
    if ds.len() > 0 && all_digits(ds) && dec_val(ds) <= 0xFFFF {
        Some(dec_val(ds) as u16)
    } else {
        None
    }
}

/// Decimal parse of a 16-bit code, as `str::parse::<u16>` behaves on the
/// same text.
pub fn parse_u16(s: &str) -> (r: Option<u16>)
    ensures
        r == parse_u16_seq(s@),
{
    let n: usize = s.unicode_len();
    let start: usize = if n > 0 && s.get_char(0) as u32 == 0x2B {
        1
    } else {
        0
    };
    let ghost ds = if s@.len() > 0 && s@[0] == '+' {
        s@.subrange(1, s@.len() as int)
    } else {
        s@
    };
    proof {
        if start == 0 {
            assert(ds =~= s@.subrange(0, s@.len() as int));
        }
    }
    if start == n {
        return None;
    }
    let mut acc: u32 = 0;
    let mut i: usize = start;
    while i < n
        invariant
            start <= i <= n,
            n == s@.len(),
            start < n,
            ds == s@.subrange(start as int, n as int),
            all_digits(ds.subrange(0, i - start)),
            acc == dec_val(ds.subrange(0, i - start)),
            acc <= 0xFFFF,
        decreases n - i,
    {
        let c = s.get_char(i);
        let u = c as u32;
        proof {
            assert(ds[i - start] == s@[i as int]);
        }
        if u < 0x30 || u > 0x39 {
            proof {
                assert(!is_digit_char(ds[i - start]));
                assert(!all_digits(ds));
            }
            return None;
        }
        proof {
            let p = ds.subrange(0, i - start);
            let q = ds.subrange(0, i - start + 1);
            assert(q.drop_last() =~= p);
            assert(q.last() == ds[i - start]);
        }
        acc = acc * 10 + (u - 0x30);
        i = i + 1;
        if acc > 0xFFFF {
            proof {
                if all_digits(ds) && dec_val(ds) <= 0xFFFF {
                    lemma_dec_val_extend(ds, i - start);
                    assert(false);
                }
            }
            return None;
        }
    }
    proof {
        assert(ds.subrange(0, n - start) =~= ds);
    }
    Some(acc as u16)
}

/// What `str::parse::<i32>` accepts: optional sign, then decimal digits
/// whose signed value fits in 32 bits.
pub open spec fn is_i32_seq(s: Seq<char>) -> bool {
    let signed = s.len() > 0 && (s[0] == '+' || s[0] == '-');
    let neg = s.len() > 0 && s[0] == '-';
    let ds = if signed {
        s.subrange(1, s.len() as int)
    } else {
        s
    };
    &&& ds.len() > 0
    &&& all_digits(ds)
    &&& (if neg {
        dec_val(ds) <= 0x8000_0000
    } else {
        dec_val(ds) < 0x8000_0000
    })
}

/// Whether the text parses as an `i32`, as `str::parse::<i32>` decides it.
pub fn is_i32_literal(s: &str) -> (r: bool)
    ensures
        r == is_i32_seq(s@),
{
    let n: usize = s.unicode_len();
    let signed: bool = n > 0 && (s.get_char(0) as u32 == 0x2B || s.get_char(0) as u32 == 0x2D);
    let neg: bool = n > 0 && s.get_char(0) as u32 == 0x2D;
    let start: usize = if signed {
        1
    } else {
        0
    };
    let ghost ds = if signed {
        s@.subrange(1, s@.len() as int)
    } else {
        s@
    };
    proof {
        if !signed {
            assert(ds =~= s@.subrange(0, s@.len() as int));
        }
    }
    let limit: u64 = if neg {
        0x8000_0000
    } else {
        0x7FFF_FFFF
    };
    if start == n {
        return false;
    }
    let mut acc: u64 = 0;
    let mut i: usize = start;
    while i < n
        invariant
            start <= i <= n,
            n == s@.len(),
            start < n,
            ds == s@.subrange(start as int, n as int),
            all_digits(ds.subrange(0, i - start)),
            acc == dec_val(ds.subrange(0, i - start)),
            acc <= limit,
            limit == if neg { 0x8000_0000u64 } else { 0x7FFF_FFFFu64 },
        decreases n - i,
    {
        let c = s.get_char(i);
        let u = c as u32;
        proof {
            assert(ds[i - start] == s@[i as int]);
        }
        if u < 0x30 || u > 0x39 {
            proof {
                assert(!is_digit_char(ds[i - start]));
                assert(!all_digits(ds));
            }
            return false;
        }
        proof {
            let p = ds.subrange(0, i - start);
            let q = ds.subrange(0, i - start + 1);
            assert(q.drop_last() =~= p);
            assert(q.last() == ds[i - start]);
        }
        acc = acc * 10 + ((u - 0x30) as u64);
        i = i + 1;
        if acc > limit {
            proof {
                if all_digits(ds) {
                    lemma_dec_val_extend(ds, i - start);
                    assert(dec_val(ds) >= acc);
                }
            }
            return false;
        }
    }
    proof {
        assert(ds.subrange(0, n - start) =~= ds);
    }
    true
}

/// Character-for-character equality of two string slices.
pub fn str_eq_str(a: &str, b: &str) -> (r: bool)
    ensures
        r == (a@ == b@),
{
    let na: usize = a.unicode_len();
    let nb: usize = b.unicode_len();
    if na != nb {
        return false;
    }
    let mut i: usize = 0;
    while i < na
        invariant
            0 <= i <= na,
            na == a@.len(),
            na == b@.len(),
            forall|k: int| 0 <= k < i ==> a@[k] == b@[k],
        decreases na - i,
    {
        if a.get_char(i) as u32 != b.get_char(i) as u32 {
            return false;
        }
        i = i + 1;
    }
    proof {
        assert(a@ =~= b@);
    }
    true
}

/// Whether the text parses as a `bool`: exactly `true` or `false`.
pub fn is_bool_literal(s: &str) -> (r: bool)
    ensures
        r == (s@ == "true"@ || s@ == "false"@),
{
    str_eq_str(s, "true") || str_eq_str(s, "false")
}

/// Index of the first `+` in the sequence, or -1 when there is none.
pub open spec fn first_plus(s: Seq<char>) -> int
    decreases s.len(),
{
    if s.len() == 0 {
        -1
    } else if s[0] == '+' {
        0
    } else if first_plus(s.drop_first()) == -1 {
        -1
    } else {
        first_plus(s.drop_first()) + 1
    }
}

pub proof fn lemma_first_plus_at_pub(s: Seq<char>, j: int)
    requires
        0 <= j <= s.len(),
        forall|k: int| 0 <= k < j ==> s[k] != '+',
        j < s.len() ==> s[j] == '+',
    ensures
        first_plus(s) == if j == s.len() {
            -1int
        } else {
            j
        },
    decreases j,
{
    if j == 0 {
        if s.len() > 0 {
        } else {
        }
    } else {
        let t = s.drop_first();
        assert(forall|k: int| 0 <= k < j - 1 ==> t[k] != '+');
        lemma_first_plus_at_pub(t, j - 1);
    }
}

/// What `str::split('+')` yields: the segments between `+` separators.
pub open spec fn split_plus_seq(s: Seq<char>) -> Seq<Seq<char>>
    decreases s.len(),
{
    let fp = first_plus(s);
    if 0 <= fp < s.len() {
        seq![s.subrange(0, fp)] + split_plus_seq(s.subrange(fp + 1, s.len() as int))
    } else {
        seq![s]
    }
}

/// Splits on `+`, as `str::split('+')` does.
pub fn split_plus(s: &str) -> (r: Vec<String>)
    ensures
        r@.map_values(|t: String| t@) == split_plus_seq(s@),
    decreases s@.len(),
{
    let n: usize = s.unicode_len();
    let mut i: usize = 0;
    while i < n && s.get_char(i) as u32 != 0x2B
        invariant
            0 <= i <= n,
            n == s@.len(),
            forall|k: int| 0 <= k < i ==> s@[k] != '+',
        decreases n - i,
    {
        i = i + 1;
    }
    proof {
        lemma_first_plus_at_pub(s@, i as int);
    }
    if i == n {
        let mut r: Vec<String> = Vec::new();
        r.push(s.to_owned());
        proof {
            assert(r@.map_values(|t: String| t@) =~= split_plus_seq(s@));
        }
        r
    } else {
        let head = s.substring_char(0, i);
        let tail = s.substring_char(i + 1, n);
        let mut rest = split_plus(tail);
        let mut r: Vec<String> = Vec::new();
        r.push(head.to_owned());
        r.append(&mut rest);
        proof {
            assert(r@.map_values(|t: String| t@) =~= split_plus_seq(s@));
        }
        r
    }
}


/// What `first_plus` returning an index means.
pub proof fn lemma_first_plus_props(s: Seq<char>)
    ensures
        first_plus(s) == -1 ==> forall|k: int| 0 <= k < s.len() ==> s[k] != '+',
        first_plus(s) != -1 ==> 0 <= first_plus(s) < s.len() && s[first_plus(s)] == '+'
            && forall|k: int| 0 <= k < first_plus(s) ==> s[k] != '+',
    decreases s.len(),
{
    if s.len() > 0 && s[0] != '+' {
        let t = s.drop_first();
        lemma_first_plus_props(t);
        assert(forall|k: int| 1 <= k < s.len() ==> s[k] == t[k - 1]);
    }
}

/// Whether the sequence contains a `+` anywhere.
pub open spec fn has_plus(s: Seq<char>) -> bool {
    exists|i: int| 0 <= i < s.len() && s[i] == '+'
}

pub fn contains_plus(s: &str) -> (r: bool)
    ensures
        r == has_plus(s@),
{
    let n: usize = s.unicode_len();
    let mut i: usize = 0;
    while i < n
        invariant
            0 <= i <= n,
            n == s@.len(),
            forall|k: int| 0 <= k < i ==> s@[k] != '+',
        decreases n - i,
    {
        if s.get_char(i) as u32 == 0x2B {
            return true;
        }
        i = i + 1;
    }
    false
}

/// Whether the sequence contains the two-character arrow `->`.
pub open spec fn has_arrow(s: Seq<char>) -> bool {
    exists|i: int| 0 <= i && i + 1 < s.len() && #[trigger] s[i] == '-' && s[i + 1] == '>'
}

pub fn contains_arrow(s: &str) -> (r: bool)
    ensures
        r == has_arrow(s@),
{
    let n: usize = s.unicode_len();
    if n < 2 {
        return false;
    }
    let mut i: usize = 0;
    while i + 1 < n
        invariant
            0 <= i,
            i + 1 <= n,
            n == s@.len(),
            forall|k: int| 0 <= k < i ==> !(#[trigger] s@[k] == '-' && s@[k + 1] == '>'),
        decreases n - i,
    {
        if s.get_char(i) as u32 == 0x2D && s.get_char(i + 1) as u32 == 0x3E {
            return true;
        }
        i = i + 1;
    }
    false
}

/// The digit character for a value below ten.
pub open spec fn digit_char(d: int) -> char {
    if d == 0 {
        '0'
    } else if d == 1 {
        '1'
    } else if d == 2 {
        '2'
    } else if d == 3 {
        '3'
    } else if d == 4 {
        '4'
    } else if d == 5 {
        '5'
    } else if d == 6 {
        '6'
    } else if d == 7 {
        '7'
    } else if d == 8 {
        '8'
    } else {
        '9'
    }
}

/// The decimal text of a non-negative number, most significant digit first.
pub open spec fn dec_str(n: int) -> Seq<char>
    decreases n,
{
    if n < 10 {
        seq![digit_char(n)]
    } else {
        dec_str(n / 10).push(digit_char(n % 10))
    }
}

fn digit_str(d: u64) -> (r: &'static str)
    requires
        d < 10,
    ensures
        r@ == seq![digit_char(d as int)],
{
    proof {
        reveal_strlit("0");
        reveal_strlit("1");
        reveal_strlit("2");
        reveal_strlit("3");
        reveal_strlit("4");
        reveal_strlit("5");
        reveal_strlit("6");
        reveal_strlit("7");
        reveal_strlit("8");
        reveal_strlit("9");
    }
    let r = if d == 0 {
        "0"
    } else if d == 1 {
        "1"
    } else if d == 2 {
        "2"
    } else if d == 3 {
        "3"
    } else if d == 4 {
        "4"
    } else if d == 5 {
        "5"
    } else if d == 6 {
        "6"
    } else if d == 7 {
        "7"
    } else {
        "8"
    };
    if d == 9 {
        proof {
            assert("9"@ =~= seq![digit_char(9)]);
        }
        return "9";
    }
    proof {
        assert(r@ =~= seq![digit_char(d as int)]);
    }
    r
}

/// Formats a number in decimal, as `u64`'s display does.
pub fn u64_to_dec_string(n: u64) -> (r: String)
    ensures
        r@ == dec_str(n as int),
    decreases n,
{
    if n < 10 {
        digit_str(n).to_owned()
    } else {
        let mut s = u64_to_dec_string(n / 10);
        s.append(digit_str(n % 10));
        proof {
            assert(s@ =~= dec_str(n as int));
        }
        s
    }
}

/// Formats a key code in decimal.
pub fn u16_to_dec_string(n: u16) -> (r: String)
    ensures
        r@ == dec_str(n as int),
{
    u64_to_dec_string(n as u64)
}


pub proof fn lemma_dec_str_digits(n: int)
    requires
        n >= 0,
    ensures
        all_digits(dec_str(n)),
        dec_str(n).len() > 0,
        dec_val(dec_str(n)) == n,
    decreases n,
{
    if n < 10 {
        assert(dec_str(n) =~= seq![digit_char(n)]);
        assert(dec_str(n).drop_last() =~= Seq::<char>::empty());
        assert(dec_val(dec_str(n).drop_last()) == 0);
        assert(dec_val(dec_str(n)) == digit_val(digit_char(n)));
    } else {
        lemma_dec_str_digits(n / 10);
        let p = dec_str(n / 10);
        let w = p.push(digit_char(n % 10));
        assert(w.drop_last() =~= p);
        assert(w.last() == digit_char(n % 10));
        assert(dec_val(w) == dec_val(p) * 10 + digit_val(digit_char(n % 10)));
        assert(forall|i: int| 0 <= i < w.len() ==> is_digit_char(#[trigger] w[i]));
    }
}

/// A digit string is its own trimmed form.
pub proof fn lemma_trim_digits(s: Seq<char>)
    requires
        all_digits(s),
        s.len() > 0,
    ensures
        trim_seq(s) == s,
{
    assert(!is_ws_char(s[0]));
    assert(!is_ws_char(s.last()));
    assert(trim_front(s) == s);
    assert(trim_back(s) == s);
}

/// Law: the decimal text of a key code parses back to the same code.
pub proof fn lemma_dec_str_parses_back(n: u16)
    ensures
        parse_u16_seq(dec_str(n as int)) == Some(n),
        trim_seq(dec_str(n as int)) == dec_str(n as int),
{
    lemma_dec_str_digits(n as int);
    let s = dec_str(n as int);
    lemma_trim_digits(s);
    assert(s[0] != '+');
    assert(s =~= if s.len() > 0 && s[0] == '+' {
        s.subrange(1, s.len() as int)
    } else {
        s
    });
}

/// Two-digit zero-padded decimal text, for clock fields below 100.
pub open spec fn dec2_str(n: int) -> Seq<char> {
    if n < 10 {
        seq!['0'] + dec_str(n)
    } else {
        dec_str(n)
    }
}

pub fn u64_to_dec2_string(n: u64) -> (r: String)
    requires
        n < 100,
    ensures
        r@ == dec2_str(n as int),
{
    if n < 10 {
        proof {
            reveal_strlit("0");
        }
        let mut s = "0".to_owned();
        s.append(digit_str(n));
        proof {
            assert(s@ =~= dec2_str(n as int));
        }
        s
    } else {
        u64_to_dec_string(n)
    }
}

/// Lexicographic order on character sequences, the order `str::cmp` gives
/// for UTF-8 text.
pub open spec fn seq_char_le(a: Seq<char>, b: Seq<char>) -> bool
    decreases a.len(),
{
    if a.len() == 0 {
        true
    } else if b.len() == 0 {
        false
    } else if (a[0] as int) < (b[0] as int) {
        true
    } else if (a[0] as int) > (b[0] as int) {
        false
    } else {
        seq_char_le(a.drop_first(), b.drop_first())
    }
}

pub proof fn lemma_seq_char_le_total(a: Seq<char>, b: Seq<char>)
    ensures
        seq_char_le(a, b) || seq_char_le(b, a),
    decreases a.len(),
{
    if a.len() > 0 && b.len() > 0 && a[0] == b[0] {
        lemma_seq_char_le_total(a.drop_first(), b.drop_first());
    }
}

/// Decides `seq_char_le` on two string slices.
pub fn str_le(a: &str, b: &str) -> (r: bool)
    ensures
        r == seq_char_le(a@, b@),
{
    let na: usize = a.unicode_len();
    let nb: usize = b.unicode_len();
    proof {
        assert(a@.subrange(0, na as int) =~= a@);
        assert(b@.subrange(0, nb as int) =~= b@);
    }
    let mut i: usize = 0;
    loop
        invariant
            0 <= i,
            i <= na,
            i <= nb,
            na == a@.len(),
            nb == b@.len(),
            forall|k: int| 0 <= k < i ==> a@[k] == b@[k],
            seq_char_le(a@, b@) == seq_char_le(
                a@.subrange(i as int, na as int),
                b@.subrange(i as int, nb as int),
            ),
        decreases na - i,
    {
        if i == na {
            proof {
                assert(a@.subrange(i as int, na as int).len() == 0);
            }
            return true;
        }
        if i == nb {
            proof {
                assert(b@.subrange(i as int, nb as int).len() == 0);
                assert(a@.subrange(i as int, na as int).len() > 0);
            }
            return false;
        }
        let ca = a.get_char(i) as u32;
        let cb = b.get_char(i) as u32;
        proof {
            let sa = a@.subrange(i as int, na as int);
            let sb = b@.subrange(i as int, nb as int);
            assert(sa[0] == a@[i as int]);
            assert(sb[0] == b@[i as int]);
            assert(sa.drop_first() =~= a@.subrange(i + 1, na as int));
            assert(sb.drop_first() =~= b@.subrange(i + 1, nb as int));
        }
        if ca < cb {
            return true;
        }
        if ca > cb {
            return false;
        }
        i = i + 1;
    }
}

/// ASCII lowercase of one character, as `char::to_ascii_lowercase` maps it.
pub open spec fn lower_char(c: char) -> char {
    if 0x41 <= c as int <= 0x5A {
        ((c as u8) + 0x20) as char
    } else {
        c
    }
}

/// ASCII lowercase of a sequence.
pub open spec fn lower_seq(s: Seq<char>) -> Seq<char> {
    s.map_values(|c: char| lower_char(c))
}

/// Whether a file extension names a YAML document, compared without case:
/// `yaml` or `yml` after ASCII lowercasing.
pub fn is_yaml_extension(ext: &str) -> (r: bool)
    ensures
        r == (lower_seq(ext@) == "yaml"@ || lower_seq(ext@) == "yml"@),
{
    let n: usize = ext.unicode_len();
    let mut low = String::new();
    let mut i: usize = 0;
    while i < n
        invariant
            0 <= i <= n,
            n == ext@.len(),
            low@ == ext@.subrange(0, i as int).map_values(|c: char| lower_char(c)),
        decreases n - i,
    {
        let c = ext.get_char(i);
        let u = c as u32;
        if 0x41 <= u && u <= 0x5A {
            let lc = ((u + 0x20) as u8) as char;
            proof {
                assert(lc == lower_char(ext@[i as int]));
            }
            low = push_char(low, lc);
        } else {
            proof {
                assert(c == lower_char(ext@[i as int]));
            }
            low = push_char(low, c);
        }
        proof {
            assert(ext@.subrange(0, i + 1).map_values(|c2: char| lower_char(c2)) =~= ext@.subrange(
                0,
                i as int,
            ).map_values(|c2: char| lower_char(c2)).push(lower_char(ext@[i as int])));
        }
        i = i + 1;
    }
    proof {
        assert(ext@.subrange(0, n as int) =~= ext@);
    }
    str_eq_str(low.as_str(), "yaml") || str_eq_str(low.as_str(), "yml")
}

/// Builds a `String` from a vector of characters.
pub fn chars_to_string(v: &Vec<char>) -> (r: String)
    ensures
        r@ == v@,
{
    let mut s = String::new();
    let mut i: usize = 0;
    while i < v.len()
        invariant
            0 <= i <= v@.len(),
            s@ == v@.subrange(0, i as int),
        decreases v@.len() - i,
    {
        s = push_char(s, v[i]);
        proof {
            assert(v@.subrange(0, i + 1) =~= v@.subrange(0, i as int).push(v@[i as int]));
        }
        i = i + 1;
    }
    proof {
        assert(v@.subrange(0, v@.len() as int) =~= v@);
    }
    s
}

/// Relies on `String::push` from std: appends exactly one character.
#[verifier::external_body]
fn push_char(s: String, c: char) -> (r: String)
    ensures
        r@ == s@.push(c),
{
    let mut s = s;
    s.push(c);
    s
}

} // verus!
