//! The generic header production `name ":" OWS value CRLF`, with folding: a
//! CRLF followed by whitespace continues the previous value.  A mismatch is
//! the caller's end-of-headers signal, not a hard error.  Owned headers keep
//! name and value verbatim, so unknown headers survive a round trip, and the
//! collection preserves insertion order.

use vstd::prelude::*;

verus! {

broadcast use
    crate::scan::lemma_find3_bounds,
    crate::scan::lemma_find_crlf_bounds,
    crate::scan::lemma_skip_ws_bounds;

use crate::error::{Rule, SynView, SyntaxError};
use crate::scan::{find3, find_crlf, has_byte, is_ws, skip_ws};

/// Borrowed spans of one header's name and value.
#[derive(Debug, Clone, Copy, PartialEq, Eq)]
pub struct Tokenizer<'a> {
    pub name: &'a [u8],
    pub value: &'a [u8],
}

/// Ghost counterpart of the header tokenizer.
pub ghost struct TokView {
    pub name: Seq<u8>,
    pub value: Seq<u8>,
}

impl<'a> View for Tokenizer<'a> {
    type V = TokView;

    open spec fn view(&self) -> TokView {
        TokView { name: self.name@, value: self.value@ }
    }
}

/// The views of a sequence of header tokenizers, in order.
pub open spec fn views<'a>(hs: Seq<Tokenizer<'a>>) -> Seq<TokView> {
    hs.map_values(|h: Tokenizer<'a>| h@)
}

/// The CRLF that ends a (possibly folded) header value starting at `i`: the
/// first CRLF not followed by a space or tab; `s.len()` if there is none.
pub open spec fn fold_end(s: Seq<u8>, i: int) -> int
    decreases s.len() - i when 0 <= i <= s.len()
{
    let e = find_crlf(s, i);
    if e >= s.len() {
        s.len() as int
    } else if e + 2 < s.len() && is_ws(s[e + 2]) {
        fold_end(s, e + 2)
    } else {
        e
    }
}

pub broadcast proof fn lemma_fold_end_bounds(s: Seq<u8>, i: int)
    requires
        0 <= i <= s.len(),
    ensures
        i <= #[trigger] fold_end(s, i) <= s.len(),
        fold_end(s, i) < s.len() ==> fold_end(s, i) + 2 <= s.len(),
    decreases s.len() - i,
{
    let e = find_crlf(s, i);
    if e < s.len() && e + 2 < s.len() && is_ws(s[e + 2]) {
        lemma_fold_end_bounds(s, e + 2);
    }
}

fn fold_end_from(s: &[u8], i: usize) -> (r: usize)
    requires
        i <= s@.len(),
    ensures
        r == fold_end(s@, i as int),
    decreases s@.len() - i,
{
    let n = s.len();
    let e = crate::scan::find_crlf_from(s, i);
    if e >= n {
        n
    } else if n - e > 2 && {
        let c = *vstd::slice::slice_index_get(s, e + 2);
        c == 32 || c == 9
    } {
        fold_end_from(s, e + 2)
    } else {
        e
    }
}

/// What tokenizing one header at index `i` yields: the name span (up to the
/// colon) and the value span (after optional whitespace, up to the ending
/// CRLF, folds kept verbatim), with the index just past that CRLF.  Any
/// mismatch reports the header rule at `i`, except a value with no ending
/// CRLF, reported at the value.
pub open spec fn tokenize_spec(s: Seq<u8>, i: int) -> Result<(TokView, int), SynView> {
    let colon = find3(s, i, 58, 13, 10);
    if colon >= s.len() || s[colon] != 58 || colon == i {
        Err(SynView { rule: Rule::Header, pos: i })
    } else {
        let vstart = skip_ws(s, colon + 1);
        let e = fold_end(s, vstart);
        if e >= s.len() {
            Err(SynView { rule: Rule::Header, pos: vstart })
        } else {
            Ok((TokView { name: s.subrange(i, colon), value: s.subrange(vstart, e) }, e + 2))
        }
    }
}

/// A successful header scan makes progress and stays in bounds.
pub proof fn lemma_tokenize_ok_bounds(s: Seq<u8>, i: int)
    requires
        0 <= i <= s.len(),
    ensures
        tokenize_spec(s, i) matches Ok((t, j)) ==> i < j <= s.len(),
{
    broadcast use lemma_fold_end_bounds;

}

impl<'a> Tokenizer<'a> {
    /// Tokenizes one header starting at index `i`.  Failure here is how the
    /// message loop learns the header block has ended.
    pub fn tokenize(s: &'a [u8], i: usize) -> (r: Result<(Tokenizer<'a>, usize), SyntaxError>)
        requires
            i <= s@.len(),
        ensures
            match r {
                Ok((t, j)) => tokenize_spec(s@, i as int) == Ok::<(TokView, int), SynView>(
                    (t@, j as int),
                ),
                Err(e) => tokenize_spec(s@, i as int) == Err::<(TokView, int), SynView>(e@),
            },
    {
        let n = s.len();
        let colon = crate::scan::find3_from(s, i, 58, 13, 10);
        if colon >= n || *vstd::slice::slice_index_get(s, colon) != 58 || colon == i {
            return Err(SyntaxError { rule: Rule::Header, pos: i });
        }
        let vstart = crate::scan::skip_ws_from(s, colon + 1);
        let e = fold_end_from(s, vstart);
        if e >= n {
            return Err(SyntaxError { rule: Rule::Header, pos: vstart });
        }
        proof {
            broadcast use lemma_fold_end_bounds;
        }
        let name = vstd::slice::slice_subrange(s, i, colon);
        let value = vstd::slice::slice_subrange(s, vstart, e);
        Ok((Tokenizer { name, value }, e + 2))
    }

    /// Tokenizes headers at index `i` until the pattern stops matching, as
    /// the `*header` repetition does; returns them with the index at which
    /// matching stopped.
    pub fn tokenize_list(s: &'a [u8], i: usize) -> (r: (Vec<Tokenizer<'a>>, usize))
        requires
            i <= s@.len(),
        ensures
            views(r.0@) == list_spec(s@, i as int).0,
            r.1 as int == list_spec(s@, i as int).1,
            i <= r.1 <= s@.len(),
        decreases s@.len() - i,
    {
        match Self::tokenize(s, i) {
            Err(_) => {
                let v: Vec<Tokenizer<'a>> = Vec::new();
                proof {
                    assert(views(v@) =~= Seq::<TokView>::empty());
                }
                (v, i)
            },
            Ok((h, j)) => {
                proof {
                    lemma_tokenize_ok_bounds(s@, i as int);
                }
                let (mut rest, end) = Self::tokenize_list(s, j);
                let ghost rest0 = rest@;
                let mut out: Vec<Tokenizer<'a>> = Vec::new();
                out.push(h);
                out.append(&mut rest);
                proof {
                    assert(views(out@) =~= seq![h@] + views(rest0));
                }
                (out, end)
            },
        }
    }
}

/// What the `*header` repetition yields from index `i`: the tokenized
/// headers in order and the index at which the pattern stopped matching.
pub open spec fn list_spec(s: Seq<u8>, i: int) -> (Seq<TokView>, int)
    decreases s.len() - i when 0 <= i <= s.len() via list_spec_decreases
{
    match tokenize_spec(s, i) {
        Err(_) => (Seq::<TokView>::empty(), i),
        Ok((h, j)) => {
            let r = list_spec(s, j);
            (seq![h] + r.0, r.1)
        },
    }
}

#[via_fn]
proof fn list_spec_decreases(s: Seq<u8>, i: int) {
    lemma_tokenize_ok_bounds(s, i);
}

/// An owned header: name and value kept verbatim, so headers of unrecognized
/// kind survive a parse and re-render unchanged.
#[derive(Debug, Clone, PartialEq, Eq)]
pub struct Header {
    pub name: Vec<u8>,
    pub value: Vec<u8>,
}

/// Ghost counterpart of an owned header.
pub ghost struct HeaderView {
    pub name: Seq<u8>,
    pub value: Seq<u8>,
}

impl View for Header {
    type V = HeaderView;

    open spec fn view(&self) -> HeaderView {
        HeaderView { name: self.name@, value: self.value@ }
    }
}

/// The owned header a tokenized header denotes: both spans verbatim.
pub open spec fn header_of(t: TokView) -> HeaderView {
    HeaderView { name: t.name, value: t.value }
}

/// The owned headers a sequence of tokenized headers denotes, in order.
pub open spec fn headers_of(ts: Seq<TokView>) -> Seq<HeaderView> {
    ts.map_values(|t: TokView| header_of(t))
}

/// The views of a sequence of owned headers, in order.
pub open spec fn header_views(hs: Seq<Header>) -> Seq<HeaderView> {
    hs.map_values(|h: Header| h@)
}

/// The wire text of one owned header.
pub open spec fn header_render_spec(h: HeaderView) -> Seq<u8> {
    h.name + seq![58u8, 32u8] + h.value + seq![13u8, 10u8]
}

/// The wire text of a header collection: each entry in order.
pub open spec fn headers_render_spec(hs: Seq<HeaderView>) -> Seq<u8>
    decreases hs.len(),
{
    if hs.len() == 0 {
        Seq::empty()
    } else {
        header_render_spec(hs[0]) + headers_render_spec(hs.drop_first())
    }
}

impl Header {
    /// Converts one tokenized header to its owned counterpart.  This
    /// conversion is total: every header kind is preserved verbatim.
    pub fn parse(t: &Tokenizer<'_>) -> (r: Header)
        ensures
            r@ == header_of(t@),
    {
        Header {
            name: vstd::slice::slice_to_vec(t.name),
            value: vstd::slice::slice_to_vec(t.value),
        }
    }

    /// Appends this header's wire text: `name ":" SP value CRLF`.
    pub fn render_onto(&self, out: &mut Vec<u8>)
        ensures
            final(out)@ == old(out)@ + header_render_spec(self@),
    {
        crate::scan::extend_bytes(out, self.name.as_slice());
        out.push(58);
        out.push(32);
        let ghost mid = out@;
        crate::scan::extend_bytes(out, self.value.as_slice());
        out.push(13);
        out.push(10);
        proof {
            assert(mid =~= old(out)@ + self@.name + seq![58u8, 32u8]);
            assert(out@ =~= old(out)@ + header_render_spec(self@));
        }
    }
}

/// An ordered, name-preserving header collection.  Order matters: repeated
/// headers of one kind are legal and their order can affect routing, so it
/// is kept on re-serialization.
#[derive(Debug, Clone, PartialEq, Eq)]
pub struct Headers(pub Vec<Header>);

impl View for Headers {
    type V = Seq<HeaderView>;

    open spec fn view(&self) -> Seq<HeaderView> {
        header_views(self.0@)
    }
}

impl Headers {
    /// An empty collection.
    pub fn new() -> (r: Headers)
        ensures
            r@ == Seq::<HeaderView>::empty(),
    {
        let v: Vec<Header> = Vec::new();
        proof {
            assert(header_views(v@) =~= Seq::<HeaderView>::empty());
        }
        Headers(v)
    }

    /// How many headers the collection holds.
    pub fn len(&self) -> (r: usize)
        ensures
            r == self@.len(),
    {
        self.0.len()
    }

    /// Appends one header at the end, keeping all existing order.
    pub fn push(&mut self, h: Header)
        ensures
            final(self)@ == old(self)@.push(h@),
    {
        let ghost before = self.0@;
        self.0.push(h);
        proof {
            assert(header_views(self.0@) =~= header_views(before).push(
                self.0@[before.len() as int]@,
            ));
        }
    }

    /// The header at index `i`.
    pub fn get(&self, i: usize) -> (r: &Header)
        requires
            i < self@.len(),
        ensures
            r@ == self@[i as int],
    {
        vstd::slice::slice_index_get(self.0.as_slice(), i)
    }

    /// Appends the wire text of every header, first to last.
    pub fn render_onto(&self, out: &mut Vec<u8>)
        ensures
            final(out)@ == old(out)@ + headers_render_spec(self@),
    {
        Self::render_from(&self.0, 0, out);
        proof {
            assert(header_views(self.0@).skip(0) =~= self@);
        }
    }

    fn render_from(hs: &Vec<Header>, k: usize, out: &mut Vec<u8>)
        requires
            k <= hs@.len(),
        ensures
            final(out)@ == old(out)@ + headers_render_spec(header_views(hs@).skip(k as int)),
        decreases hs@.len() - k,
    {
        if k < hs.len() {
            let h = vstd::slice::slice_index_get(hs.as_slice(), k);
            h.render_onto(out);
            let ghost mid = out@;
            Self::render_from(hs, k + 1, out);
            proof {
                let tail = header_views(hs@).skip(k as int);
                assert(tail.len() > 0);
                assert(tail[0] == hs@[k as int]@);
                assert(tail.drop_first() =~= header_views(hs@).skip(k + 1));
                assert(mid =~= old(out)@ + header_render_spec(tail[0]));
                assert(out@ =~= old(out)@ + (header_render_spec(tail[0]) + headers_render_spec(
                    tail.drop_first(),
                )));
            }
        } else {
            proof {
                assert(header_views(hs@).skip(k as int) =~= Seq::<HeaderView>::empty());
            }
        }
    }
}

/// The shape an owned header must have for its wire text to tokenize back to
/// itself: a non-empty name free of the colon and line breaks, not starting
/// with whitespace, and a value free of CR that does not start with
/// whitespace.
pub open spec fn wf_spec(h: HeaderView) -> bool {
    &&& h.name.len() > 0
    &&& !has_byte(h.name, 58)
    &&& !has_byte(h.name, 13)
    &&& !has_byte(h.name, 10)
    &&& !is_ws(h.name[0])
    &&& !has_byte(h.value, 13)
    &&& (h.value.len() > 0 ==> !is_ws(h.value[0]))
}

/// Every header of a collection is well-formed.
pub open spec fn list_wf_spec(hs: Seq<HeaderView>) -> bool {
    forall|i: int| 0 <= i < hs.len() ==> wf_spec(#[trigger] hs[i])
}

} // verus!

verus! {

/// Tokenizing the rendered text of a well-formed header collection consumes
/// exactly that text, stops at what follows (which starts with a CRLF, the
/// message separator), and gives back the same headers in the same order.
pub proof fn lemma_headers_round_trip(s: Seq<u8>, i: int, hs: Seq<HeaderView>, after: Seq<u8>)
    requires
        0 <= i <= s.len(),
        list_wf_spec(hs),
        s.subrange(i, s.len() as int) == headers_render_spec(hs) + after,
        after.len() >= 2,
        after[0] == 13,
        after[1] == 10,
    ensures
        headers_of(list_spec(s, i).0) == hs,
        list_spec(s, i).1 == i + headers_render_spec(hs).len(),
    decreases hs.len(),
{
    let tail = s.subrange(i, s.len() as int);
    if hs.len() == 0 {
        assert(headers_render_spec(hs).len() == 0);
        assert(tail =~= after);
        assert(s[i] == 13) by {
            assert(tail[0] == s[i]);
        }
        assert(find3(s, i, 58, 13, 10) == i);
        assert(tokenize_spec(s, i) is Err);
        assert(headers_of(list_spec(s, i).0) =~= hs);
    } else {
        let h0 = hs[0];
        assert(wf_spec(h0));
        let nl = h0.name.len() as int;
        let vl = h0.value.len() as int;
        let r0 = header_render_spec(h0);
        let rest = headers_render_spec(hs.drop_first());
        assert(tail == r0 + rest + after) by {
            assert(headers_render_spec(hs) == r0 + rest);
            assert(headers_render_spec(hs) + after =~= r0 + rest + after);
        }
        assert(r0.len() == nl + 4 + vl);
        assert(tail.len() == s.len() - i);
        assert(tail.len() == r0.len() + rest.len() + after.len());
        assert forall|m: int| 0 <= m < tail.len() implies #[trigger] tail[m] == s[i + m] by {}
        let colon = i + nl;
        assert forall|k: int|
            i <= k < colon implies (#[trigger] s[k]) != 58 && s[k] != 13 && s[k] != 10 by {
            let j = k - i;
            assert(tail[j] == s[k]);
            assert(tail[j] == r0[j]);
            assert(r0[j] == h0.name[j]);
            if h0.name[j] == 58 {
                assert(has_byte(h0.name, 58));
            }
            if h0.name[j] == 13 {
                assert(has_byte(h0.name, 13));
            }
            if h0.name[j] == 10 {
                assert(has_byte(h0.name, 10));
            }
        }
        assert(s[colon] == 58 && s[colon + 1] == 32) by {
            assert(tail[nl] == s[colon]);
            assert(tail[nl] == r0[nl]);
            assert(tail[nl + 1] == s[colon + 1]);
            assert(tail[nl + 1] == r0[nl + 1]);
        }
        crate::scan::lemma_find3_exact(s, i, colon, 58, 13, 10);
        assert(find3(s, i, 58, 13, 10) == colon);
        let vstart = colon + 2;
        assert forall|k: int| vstart <= k < vstart + vl implies #[trigger] s[k] == h0.value[k
            - vstart] by {
            let m = k - i;
            assert(tail[m] == s[k]);
            assert(tail[m] == r0[m]);
            assert(r0[m] == h0.value[m - nl - 2]);
        }
        let e = vstart + vl;
        assert(s[e] == 13 && s[e + 1] == 10) by {
            assert(tail[nl + 2 + vl] == s[e]);
            assert(tail[nl + 2 + vl] == r0[nl + 2 + vl]);
            assert(r0[nl + 2 + vl] == 13);
            assert(tail[nl + 3 + vl] == s[e + 1]);
            assert(tail[nl + 3 + vl] == r0[nl + 3 + vl]);
            assert(r0[nl + 3 + vl] == 10);
        }
        assert(e + 2 < s.len()) by {
            assert(tail.len() >= r0.len() + 2);
        }
        assert(!is_ws(s[vstart])) by {
            if vl > 0 {
                assert(s[vstart] == h0.value[0]);
            } else {
                assert(vstart == e);
                assert(s[vstart] == 13);
            }
        }
        crate::scan::lemma_skip_ws_exact(s, colon + 1, vstart);
        assert(skip_ws(s, colon + 1) == vstart);
        assert forall|k: int|
            vstart <= k < e implies !((#[trigger] s[k]) == 13 && k + 1 < s.len() && s[k + 1]
            == 10) by {
            assert(s[k] == h0.value[k - vstart]);
            if h0.value[k - vstart] == 13 {
                assert(has_byte(h0.value, 13));
            }
        }
        assert(e + 1 < s.len());
        crate::scan::lemma_find_crlf_exact(s, vstart, e);
        assert(find_crlf(s, vstart) == e);
        assert(!is_ws(s[e + 2])) by {
            assert(tail[r0.len() as int] == s[e + 2]);
            assert(tail[r0.len() as int] == (rest + after)[0]);
            if hs.drop_first().len() > 0 {
                let h1 = hs.drop_first()[0];
                assert(wf_spec(hs[1]));
                assert(hs.drop_first()[0] == hs[1]);
                assert(rest == header_render_spec(h1) + headers_render_spec(
                    hs.drop_first().drop_first(),
                ));
                assert((rest + after)[0] == rest[0]);
                assert(rest[0] == h1.name[0]);
                assert(!is_ws(h1.name[0]));
            } else {
                assert(rest.len() == 0);
                assert((rest + after)[0] == after[0]);
            }
        }
        assert(fold_end(s, vstart) == e);
        assert(tokenize_spec(s, i) == Ok::<(TokView, int), crate::error::SynView>(
            (TokView { name: s.subrange(i, colon), value: s.subrange(vstart, e) }, e + 2),
        ));
        assert(s.subrange(i, colon) =~= h0.name);
        assert(s.subrange(vstart, e) =~= h0.value);
        assert(list_wf_spec(hs.drop_first())) by {
            assert(forall|j: int|
                0 <= j < hs.drop_first().len() ==> #[trigger] hs.drop_first()[j] == hs[j + 1]);
        }
        assert(s.subrange(e + 2, s.len() as int) =~= rest + after) by {
            assert forall|k: int| 0 <= k < rest.len() + after.len() implies #[trigger] s.subrange(
                e + 2,
                s.len() as int,
            )[k] == (rest + after)[k] by {
                assert(s.subrange(e + 2, s.len() as int)[k] == s[e + 2 + k]);
                assert(tail[r0.len() + k] == s[e + 2 + k]);
                assert(tail[r0.len() + k] == (r0 + rest + after)[r0.len() + k]);
                assert((r0 + rest + after)[r0.len() + k] == (rest + after)[k]);
            }
        }
        lemma_headers_round_trip(s, e + 2, hs.drop_first(), after);
        let t0 = TokView { name: h0.name, value: h0.value };
        let ts_rest = list_spec(s, e + 2).0;
        assert(list_spec(s, i).0 == seq![t0] + ts_rest);
        assert(list_spec(s, i).1 == e + 2 + rest.len());
        assert(headers_of(seq![t0] + ts_rest) =~= hs) by {
            assert(headers_of(ts_rest) == hs.drop_first());
            assert forall|k: int| 0 <= k < hs.len() implies headers_of(seq![t0] + ts_rest)[k]
                == hs[k] by {
                assert(headers_of(seq![t0] + ts_rest)[k] == header_of((seq![t0] + ts_rest)[k]));
                if k == 0 {
                } else {
                    assert((seq![t0] + ts_rest)[k] == ts_rest[k - 1]);
                    assert(header_of(ts_rest[k - 1]) == headers_of(ts_rest)[k - 1]);
                    assert(hs.drop_first()[k - 1] == hs[k]);
                }
            }
        }
    }
}

} // verus!

verus! {

use crate::scan::lower_seq;

/// Case-insensitive match of a header name, per the grammar's rule that
/// header names compare without regard to letter case.
pub open spec fn name_matches(h: HeaderView, name: Seq<u8>) -> bool {
    lower_seq(h.name) == lower_seq(name)
}

/// The headers of `hs` whose name matches `name` case-insensitively, in
/// their original order.
pub open spec fn matching(hs: Seq<HeaderView>, name: Seq<u8>) -> Seq<HeaderView>
    decreases hs.len(),
{
    if hs.len() == 0 {
        Seq::empty()
    } else if name_matches(hs[0], name) {
        seq![hs[0]] + matching(hs.drop_first(), name)
    } else {
        matching(hs.drop_first(), name)
    }
}

impl Headers {
    /// Every header whose name matches `name` case-insensitively, in order:
    /// repeated headers of one kind are legal, so this may return zero, one
    /// or many entries.
    pub fn find_all(&self, name: &[u8]) -> (r: Vec<Header>)
        ensures
            header_views(r@) == matching(self@, name@),
    {
        let r = Self::find_from(&self.0, 0, name);
        proof {
            assert(header_views(self.0@).skip(0) =~= self@);
        }
        r
    }

    fn find_from(hs: &Vec<Header>, k: usize, name: &[u8]) -> (r: Vec<Header>)
        requires
            k <= hs@.len(),
        ensures
            header_views(r@) == matching(header_views(hs@).skip(k as int), name@),
        decreases hs@.len() - k,
    {
        if k < hs.len() {
            let h = vstd::slice::slice_index_get(hs.as_slice(), k);
            let rest = Self::find_from(hs, k + 1, name);
            let ghost tail = header_views(hs@).skip(k as int);
            proof {
                assert(tail.len() > 0);
                assert(tail[0] == hs@[k as int]@);
                assert(tail.drop_first() =~= header_views(hs@).skip(k + 1));
            }
            if crate::scan::eq_ci(h.name.as_slice(), name) {
                let copy = Header {
                    name: vstd::slice::slice_to_vec(h.name.as_slice()),
                    value: vstd::slice::slice_to_vec(h.value.as_slice()),
                };
                let ghost rest0 = rest@;
                let mut out: Vec<Header> = Vec::new();
                out.push(copy);
                let mut rest_moved = rest;
                out.append(&mut rest_moved);
                proof {
                    assert(header_views(out@) =~= seq![tail[0]] + header_views(rest0));
                }
                out
            } else {
                rest
            }
        } else {
            let out: Vec<Header> = Vec::new();
            proof {
                assert(header_views(hs@).skip(k as int) =~= Seq::<HeaderView>::empty());
                assert(header_views(out@) =~= Seq::<HeaderView>::empty());
            }
            out
        }
    }
}

} // verus!
