//! Byte-scanning primitives shared by every tokenizer: bounded searches for
//! separator bytes, CRLF, whitespace and digit runs, plus decimal and
//! case-folding helpers.  Each executable scanner is proved equal to a spec
//! function, and a few lemmas characterize those spec functions exactly.

use vstd::prelude::*;

verus! {

pub open spec fn is_digit(c: u8) -> bool {
    48 <= c && c <= 57
}

/// Optional whitespace inside a header line: space or horizontal tab.
pub open spec fn is_ws(c: u8) -> bool {
    c == 32 || c == 9
}

/// First index at or after `from` holding `a`, `b` or `c`; `s.len()` if none.
pub open spec fn find3(s: Seq<u8>, from: int, a: u8, b: u8, c: u8) -> int
    decreases s.len() - from when 0 <= from <= s.len()
{
    if from >= s.len() {
        s.len() as int
    } else if s[from] == a || s[from] == b || s[from] == c {
        from
    } else {
        find3(s, from + 1, a, b, c)
    }
}

pub broadcast proof fn lemma_find3_bounds(s: Seq<u8>, from: int, a: u8, b: u8, c: u8)
    requires
        0 <= from <= s.len(),
    ensures
        from <= #[trigger] find3(s, from, a, b, c) <= s.len(),
    decreases s.len() - from,
{
    if from < s.len() && !(s[from] == a || s[from] == b || s[from] == c) {
        lemma_find3_bounds(s, from + 1, a, b, c);
    }
}

/// If the bytes of `[from, j)` hold no stop byte and `j` is the end or a stop
/// byte, then the scan lands exactly on `j`.
pub proof fn lemma_find3_exact(s: Seq<u8>, from: int, j: int, a: u8, b: u8, c: u8)
    requires
        0 <= from <= j <= s.len(),
        forall|i: int| from <= i < j ==> s[i] != a && s[i] != b && s[i] != c,
        j == s.len() || s[j] == a || s[j] == b || s[j] == c,
    ensures
        find3(s, from, a, b, c) == j,
    decreases j - from,
{
    if from < j {
        lemma_find3_exact(s, from + 1, j, a, b, c);
    }
}

pub fn find3_from(s: &[u8], from: usize, a: u8, b: u8, c: u8) -> (r: usize)
    requires
        from <= s@.len(),
    ensures
        r == find3(s@, from as int, a, b, c),
{
    let n = s.len();
    let mut i = from;
    while i < n
        invariant
            from <= i <= n,
            n == s@.len(),
            find3(s@, from as int, a, b, c) == find3(s@, i as int, a, b, c),
        decreases n - i,
    {
        let ch = *vstd::slice::slice_index_get(s, i);
        if ch == a || ch == b || ch == c {
            return i;
        }
        i = i + 1;
    }
    n
}

/// First index at or after `from` holding a non-digit byte; `s.len()` if none.
pub open spec fn find_nondigit(s: Seq<u8>, from: int) -> int
    decreases s.len() - from when 0 <= from <= s.len()
{
    if from >= s.len() {
        s.len() as int
    } else if !is_digit(s[from]) {
        from
    } else {
        find_nondigit(s, from + 1)
    }
}

pub broadcast proof fn lemma_find_nondigit_bounds(s: Seq<u8>, from: int)
    requires
        0 <= from <= s.len(),
    ensures
        from <= #[trigger] find_nondigit(s, from) <= s.len(),
    decreases s.len() - from,
{
    if from < s.len() && is_digit(s[from]) {
        lemma_find_nondigit_bounds(s, from + 1);
    }
}

pub proof fn lemma_find_nondigit_exact(s: Seq<u8>, from: int, j: int)
    requires
        0 <= from <= j <= s.len(),
        forall|i: int| from <= i < j ==> is_digit(s[i]),
        j == s.len() || !is_digit(s[j]),
    ensures
        find_nondigit(s, from) == j,
    decreases j - from,
{
    if from < j {
        lemma_find_nondigit_exact(s, from + 1, j);
    }
}

pub fn find_nondigit_from(s: &[u8], from: usize) -> (r: usize)
    requires
        from <= s@.len(),
    ensures
        r == find_nondigit(s@, from as int),
{
    let n = s.len();
    let mut i = from;
    while i < n
        invariant
            from <= i <= n,
            n == s@.len(),
            find_nondigit(s@, from as int) == find_nondigit(s@, i as int),
        decreases n - i,
    {
        let ch = *vstd::slice::slice_index_get(s, i);
        if !(48 <= ch && ch <= 57) {
            return i;
        }
        i = i + 1;
    }
    n
}

/// First index `i` at or after `from` with `s[i] == CR` and `s[i+1] == LF`;
/// `s.len()` if no such pair exists.
pub open spec fn find_crlf(s: Seq<u8>, from: int) -> int
    decreases s.len() - from when 0 <= from <= s.len()
{
    if from + 1 >= s.len() {
        s.len() as int
    } else if s[from] == 13 && s[from + 1] == 10 {
        from
    } else {
        find_crlf(s, from + 1)
    }
}

pub broadcast proof fn lemma_find_crlf_bounds(s: Seq<u8>, from: int)
    requires
        0 <= from <= s.len(),
    ensures
        from <= #[trigger] find_crlf(s, from) <= s.len(),
        find_crlf(s, from) < s.len() ==> find_crlf(s, from) + 1 < s.len(),
    decreases s.len() - from,
{
    if from + 1 < s.len() && !(s[from] == 13 && s[from + 1] == 10) {
        lemma_find_crlf_bounds(s, from + 1);
    }
}

pub proof fn lemma_find_crlf_exact(s: Seq<u8>, from: int, j: int)
    requires
        0 <= from <= j <= s.len(),
        forall|i: int|
            from <= i < j ==> !((#[trigger] s[i]) == 13 && i + 1 < s.len() && s[i + 1] == 10),
        j == s.len() || (j + 1 < s.len() && s[j] == 13 && s[j + 1] == 10),
    ensures
        find_crlf(s, from) == j,
    decreases j - from,
{
    if from < j {
        lemma_find_crlf_exact(s, from + 1, j);
    }
}

pub fn find_crlf_from(s: &[u8], from: usize) -> (r: usize)
    requires
        from <= s@.len(),
    ensures
        r == find_crlf(s@, from as int),
{
    let n = s.len();
    if n == 0 {
        return 0;
    }
    let mut i = from;
    while i < n - 1
        invariant
            from <= i,
            i <= n,
            1 <= n == s@.len(),
            find_crlf(s@, from as int) == find_crlf(s@, i as int),
        decreases n - i,
    {
        let c0 = *vstd::slice::slice_index_get(s, i);
        let c1 = *vstd::slice::slice_index_get(s, i + 1);
        if c0 == 13 && c1 == 10 {
            return i;
        }
        i = i + 1;
    }
    n
}

/// First index at or after `from` holding a byte that is not a space or tab.
pub open spec fn skip_ws(s: Seq<u8>, from: int) -> int
    decreases s.len() - from when 0 <= from <= s.len()
{
    if from >= s.len() {
        s.len() as int
    } else if is_ws(s[from]) {
        skip_ws(s, from + 1)
    } else {
        from
    }
}

pub broadcast proof fn lemma_skip_ws_bounds(s: Seq<u8>, from: int)
    requires
        0 <= from <= s.len(),
    ensures
        from <= #[trigger] skip_ws(s, from) <= s.len(),
    decreases s.len() - from,
{
    if from < s.len() && is_ws(s[from]) {
        lemma_skip_ws_bounds(s, from + 1);
    }
}

pub proof fn lemma_skip_ws_exact(s: Seq<u8>, from: int, j: int)
    requires
        0 <= from <= j <= s.len(),
        forall|i: int| from <= i < j ==> is_ws(s[i]),
        j == s.len() || !is_ws(s[j]),
    ensures
        skip_ws(s, from) == j,
    decreases j - from,
{
    if from < j {
        lemma_skip_ws_exact(s, from + 1, j);
    }
}

pub fn skip_ws_from(s: &[u8], from: usize) -> (r: usize)
    requires
        from <= s@.len(),
    ensures
        r == skip_ws(s@, from as int),
{
    let n = s.len();
    let mut i = from;
    while i < n
        invariant
            from <= i <= n,
            n == s@.len(),
            skip_ws(s@, from as int) == skip_ws(s@, i as int),
        decreases n - i,
    {
        let ch = *vstd::slice::slice_index_get(s, i);
        if !(ch == 32 || ch == 9) {
            return i;
        }
        i = i + 1;
    }
    n
}

} // verus!

verus! {

/// Every byte of `s` is an ASCII digit.
pub open spec fn all_digits(s: Seq<u8>) -> bool {
    forall|i: int| 0 <= i < s.len() ==> is_digit(#[trigger] s[i])
}

/// The value of a run of ASCII digits read as a decimal number.
pub open spec fn dec_val(s: Seq<u8>) -> int
    decreases s.len(),
{
    if s.len() == 0 {
        0
    } else {
        dec_val(s.drop_last()) * 10 + s.last() - 48
    }
}

pub proof fn lemma_dec_val_nonneg(s: Seq<u8>)
    requires
        all_digits(s),
    ensures
        dec_val(s) >= 0,
    decreases s.len(),
{
    if s.len() > 0 {
        assert(all_digits(s.drop_last()));
        lemma_dec_val_nonneg(s.drop_last());
    }
}

/// Reading one more digit can only grow the value.
pub proof fn lemma_dec_val_prefix_le(s: Seq<u8>, i: int, j: int)
    requires
        all_digits(s),
        0 <= i <= j <= s.len(),
    ensures
        dec_val(s.subrange(0, i)) <= dec_val(s.subrange(0, j)),
    decreases j - i,
{
    if i < j {
        lemma_dec_val_prefix_le(s, i, j - 1);
        let p = s.subrange(0, j - 1);
        let q = s.subrange(0, j);
        assert(q.drop_last() =~= p);
        assert(all_digits(p));
        lemma_dec_val_nonneg(p);
    }
}

/// The canonical decimal digits of a non-negative number: no leading zero
/// (except for zero itself).
pub open spec fn dec_str(n: int) -> Seq<u8>
    decreases n when n >= 0
{
    if n < 0 {
        Seq::empty()
    } else if n < 10 {
        seq![(n + 48) as u8]
    } else {
        dec_str(n / 10) + seq![(n % 10 + 48) as u8]
    }
}

pub proof fn lemma_dec_str_val(n: int)
    requires
        n >= 0,
    ensures
        dec_str(n).len() >= 1,
        all_digits(dec_str(n)),
        dec_val(dec_str(n)) == n,
    decreases n,
{
    if n < 10 {
        let w = dec_str(n);
        assert(w =~= seq![(n + 48) as u8]);
        assert(w.drop_last() =~= Seq::<u8>::empty());
        assert(dec_val(Seq::<u8>::empty()) == 0);
        assert(w.last() == (n + 48) as u8);
        assert(dec_val(w) == dec_val(w.drop_last()) * 10 + w.last() - 48);
    } else {
        lemma_dec_str_val(n / 10);
        let w = dec_str(n);
        assert(w =~= dec_str(n / 10) + seq![(n % 10 + 48) as u8]);
        assert(w.drop_last() =~= dec_str(n / 10));
        assert(w.last() == (n % 10 + 48) as u8);
        assert(dec_val(w) == dec_val(dec_str(n / 10)) * 10 + (n % 10 + 48) - 48);
        assert(n / 10 * 10 + n % 10 == n) by (nonlinear_arith);
    }
}

pub proof fn lemma_dec_str_len3(n: int)
    requires
        100 <= n <= 999,
    ensures
        dec_str(n).len() == 3,
{
    assert(10 <= n / 10 <= 99);
    assert(1 <= n / 10 / 10 <= 9);
    assert(dec_str(n) == dec_str(n / 10) + seq![(n % 10 + 48) as u8]);
    assert(dec_str(n / 10) == dec_str(n / 10 / 10) + seq![(n / 10 % 10 + 48) as u8]);
    assert(dec_str(n / 10 / 10).len() == 1);
}

/// Parses a run of ASCII digits as a decimal number that must fit in `u16`.
pub fn parse_dec_u16(s: &[u8]) -> (r: Option<u16>)
    ensures
        match r {
            Some(v) => s@.len() > 0 && all_digits(s@) && dec_val(s@) == v,
            None => !(s@.len() > 0 && all_digits(s@) && dec_val(s@) <= 65535),
        },
{
    let n = s.len();
    if n == 0 {
        return None;
    }
    let mut acc: u32 = 0;
    let mut i: usize = 0;
    while i < n
        invariant
            0 <= i <= n,
            n == s@.len(),
            all_digits(s@.subrange(0, i as int)),
            acc == dec_val(s@.subrange(0, i as int)),
            acc <= 65535,
        decreases n - i,
    {
        let ch = *vstd::slice::slice_index_get(s, i);
        if !(48 <= ch && ch <= 57) {
            assert(!is_digit(s@[i as int]));
            return None;
        }
        proof {
            let p = s@.subrange(0, i as int);
            let q = s@.subrange(0, i + 1);
            assert(q.drop_last() =~= p);
            assert(q.last() == s@[i as int]);
        }
        acc = acc * 10 + (ch - 48) as u32;
        i = i + 1;
        if acc > 65535 {
            proof {
                if all_digits(s@) {
                    lemma_dec_val_prefix_le(s@, i as int, n as int);
                    assert(s@.subrange(0, n as int) =~= s@);
                }
            }
            return None;
        }
    }
    assert(s@.subrange(0, n as int) =~= s@);
    Some(acc as u16)
}

/// The canonical decimal rendering of a `u16`.
pub fn dec_u16(n: u16) -> (v: Vec<u8>)
    ensures
        v@ == dec_str(n as int),
    decreases n,
{
    if n < 10 {
        let mut v: Vec<u8> = Vec::new();
        v.push(48 + n as u8);
        proof {
            assert(v@ =~= dec_str(n as int));
        }
        v
    } else {
        let mut v = dec_u16(n / 10);
        v.push(48 + (n % 10) as u8);
        proof {
            assert(v@ =~= dec_str(n as int));
        }
        v
    }
}

/// ASCII lower-casing of one byte.
pub open spec fn lower(c: u8) -> u8 {
    if 65 <= c && c <= 90 {
        (c + 32) as u8
    } else {
        c
    }
}

pub open spec fn lower_seq(s: Seq<u8>) -> Seq<u8> {
    s.map_values(|c: u8| lower(c))
}

/// `lower_seq(s)` equals a target sequence exactly when the bytes match
/// pointwise after folding.
pub proof fn lemma_lower_seq_eq(s: Seq<u8>, t: Seq<u8>)
    ensures
        (lower_seq(s) == t) <==> (s.len() == t.len() && forall|i: int|
            0 <= i < s.len() ==> lower(#[trigger] s[i]) == t[i]),
{
    if s.len() == t.len() && (forall|i: int| 0 <= i < s.len() ==> lower(#[trigger] s[i]) == t[i]) {
        assert(lower_seq(s) =~= t);
    }
    if lower_seq(s) == t {
        assert(forall|i: int| 0 <= i < s.len() ==> lower(#[trigger] s[i]) == lower_seq(s)[i]);
    }
}

/// The lower-cased byte at an index.
pub fn lower_at(s: &[u8], i: usize) -> (r: u8)
    requires
        i < s@.len(),
    ensures
        r == lower(s@[i as int]),
{
    let c = *vstd::slice::slice_index_get(s, i);
    if 65 <= c && c <= 90 {
        c + 32
    } else {
        c
    }
}

/// Appends the bytes of `s` to `out`.
pub fn extend_bytes(out: &mut Vec<u8>, s: &[u8])
    ensures
        final(out)@ == old(out)@ + s@,
{
    let n = s.len();
    let mut i: usize = 0;
    while i < n
        invariant
            0 <= i <= n,
            n == s@.len(),
            out@ == old(out)@ + s@.subrange(0, i as int),
        decreases n - i,
    {
        let ch = *vstd::slice::slice_index_get(s, i);
        out.push(ch);
        proof {
            assert(old(out)@ + s@.subrange(0, i as int) + seq![s@[i as int]] =~= old(out)@
                + s@.subrange(0, i + 1));
        }
        i = i + 1;
    }
    proof {
        assert(s@.subrange(0, n as int) =~= s@);
    }
}

} // verus!

verus! {

/// Some byte of `s` equals `b`.
pub open spec fn has_byte(s: Seq<u8>, b: u8) -> bool {
    exists|i: int| 0 <= i < s.len() && s[i] == b
}

} // verus!

verus! {

/// Case-insensitive comparison: does `s`, lower-cased, equal `t` exactly?
pub fn eq_lower(s: &[u8], t: &[u8]) -> (r: bool)
    ensures
        r == (lower_seq(s@) == t@),
{
    let n = s.len();
    if n != t.len() {
        proof {
            lemma_lower_seq_eq(s@, t@);
        }
        return false;
    }
    let mut i: usize = 0;
    while i < n
        invariant
            0 <= i <= n,
            n == s@.len(),
            n == t@.len(),
            forall|k: int| 0 <= k < i ==> lower(#[trigger] s@[k]) == t@[k],
        decreases n - i,
    {
        let a = lower_at(s, i);
        let b = *vstd::slice::slice_index_get(t, i);
        if a != b {
            proof {
                lemma_lower_seq_eq(s@, t@);
            }
            return false;
        }
        i = i + 1;
    }
    proof {
        lemma_lower_seq_eq(s@, t@);
    }
    true
}

} // verus!

verus! {

/// Do two byte strings match after ASCII case folding on both sides?
pub fn eq_ci(a: &[u8], b: &[u8]) -> (r: bool)
    ensures
        r == (lower_seq(a@) == lower_seq(b@)),
{
    let n = a.len();
    if n != b.len() {
        proof {
            assert(lower_seq(a@).len() == a@.len());
            assert(lower_seq(b@).len() == b@.len());
        }
        return false;
    }
    let mut i: usize = 0;
    while i < n
        invariant
            0 <= i <= n,
            n == a@.len(),
            n == b@.len(),
            forall|k: int| 0 <= k < i ==> lower(#[trigger] a@[k]) == lower(b@[k]),
        decreases n - i,
    {
        let x = lower_at(a, i);
        let y = lower_at(b, i);
        if x != y {
            proof {
                assert(lower_seq(a@)[i as int] == lower(a@[i as int]));
                assert(lower_seq(b@)[i as int] == lower(b@[i as int]));
            }
            return false;
        }
        i = i + 1;
    }
    proof {
        assert forall|k: int| 0 <= k < n implies #[trigger] lower_seq(a@)[k] == lower_seq(
            b@,
        )[k] by {
            assert(lower_seq(a@)[k] == lower(a@[k]));
            assert(lower_seq(b@)[k] == lower(b@[k]));
        }
        assert(lower_seq(a@) =~= lower_seq(b@));
    }
    true
}

} // verus!

verus! {

/// What `find3` returns: no stop byte stands before it.
pub proof fn lemma_find3_is(s: Seq<u8>, from: int, a: u8, b: u8, c: u8)
    requires
        0 <= from <= s.len(),
    ensures
        forall|i: int|
            from <= i < find3(s, from, a, b, c) ==> (#[trigger] s[i]) != a && s[i] != b && s[i]
                != c,
    decreases s.len() - from,
{
    broadcast use lemma_find3_bounds;

    if from < s.len() && !(s[from] == a || s[from] == b || s[from] == c) {
        lemma_find3_is(s, from + 1, a, b, c);
    }
}

} // verus!
