//! The generic `*(";" name ["=" value])` parameter list, shared by every
//! header kind that embeds an address plus parameters.  The tokenizer
//! captures name and value spans; conversion keeps known parameter names as
//! typed variants and everything else verbatim.

use vstd::prelude::*;

verus! {

broadcast use crate::scan::lemma_find3_bounds;

use crate::error::{Rule, SynView, SyntaxError};
use crate::scan::{find3, has_byte, lower_seq};

/// The parameter name `branch`, lower case.
pub open spec fn branch_name() -> Seq<u8> {
    seq![98u8, 114u8, 97u8, 110u8, 99u8, 104u8]
}

/// Case-insensitive match against `branch`.
pub open spec fn is_branch_name(s: Seq<u8>) -> bool {
    lower_seq(s) == branch_name()
}

/// Borrowed spans of one `name ["=" value]` parameter.
#[derive(Debug, Clone, Copy, PartialEq, Eq)]
pub struct Tokenizer<'a> {
    pub name: &'a [u8],
    pub value: Option<&'a [u8]>,
}

/// Ghost counterpart of one parameter tokenizer.
pub ghost struct TokView {
    pub name: Seq<u8>,
    pub value: Option<Seq<u8>>,
}

impl<'a> View for Tokenizer<'a> {
    type V = TokView;

    open spec fn view(&self) -> TokView {
        TokView {
            name: self.name@,
            value: match self.value {
                Some(v) => Some(v@),
                None => None,
            },
        }
    }
}

/// The views of a sequence of parameter tokenizers, in order.
pub open spec fn views<'a>(ps: Seq<Tokenizer<'a>>) -> Seq<TokView> {
    ps.map_values(|p: Tokenizer<'a>| p@)
}

/// What tokenizing the parameter list that runs from `i` to the end of `s`
/// yields: each parameter's spans in order, or the failing position.
pub open spec fn params_spec(s: Seq<u8>, i: int) -> Result<Seq<TokView>, SynView>
    decreases s.len() - i when 0 <= i <= s.len()
{
    if i >= s.len() {
        Ok(Seq::empty())
    } else if s[i] != 59 {
        Err(SynView { rule: Rule::Param, pos: i })
    } else {
        let e = find3(s, i + 1, 61, 59, 59);
        if e == i + 1 {
            Err(SynView { rule: Rule::Param, pos: i + 1 })
        } else if e < s.len() && s[e] == 61 {
            let ve = find3(s, e + 1, 59, 59, 59);
            match params_spec(s, ve) {
                Err(err) => Err(err),
                Ok(rest) => Ok(
                    seq![
                        TokView {
                            name: s.subrange(i + 1, e),
                            value: Some(s.subrange(e + 1, ve)),
                        },
                    ] + rest,
                ),
            }
        } else {
            match params_spec(s, e) {
                Err(err) => Err(err),
                Ok(rest) => Ok(seq![TokView { name: s.subrange(i + 1, e), value: None }] + rest),
            }
        }
    }
}

impl<'a> Tokenizer<'a> {
    /// Tokenizes the `*(";" name ["=" value])` list that runs from index `i`
    /// to the end of `s`.
    pub fn tokenize_list(s: &'a [u8], i: usize) -> (r: Result<Vec<Tokenizer<'a>>, SyntaxError>)
        requires
            i <= s@.len(),
        ensures
            match r {
                Ok(v) => params_spec(s@, i as int) == Ok::<Seq<TokView>, SynView>(views(v@)),
                Err(e) => params_spec(s@, i as int) == Err::<Seq<TokView>, SynView>(e@),
            },
        decreases s@.len() - i,
    {
        let n = s.len();
        if i >= n {
            let v: Vec<Tokenizer<'a>> = Vec::new();
            proof {
                assert(views(v@) =~= Seq::<TokView>::empty());
            }
            return Ok(v);
        }
        if *vstd::slice::slice_index_get(s, i) != 59 {
            return Err(SyntaxError { rule: Rule::Param, pos: i });
        }
        let e = crate::scan::find3_from(s, i + 1, 61, 59, 59);
        if e == i + 1 {
            return Err(SyntaxError { rule: Rule::Param, pos: i + 1 });
        }
        let name = vstd::slice::slice_subrange(s, i + 1, e);
        if e < n && *vstd::slice::slice_index_get(s, e) == 61 {
            let ve = crate::scan::find3_from(s, e + 1, 59, 59, 59);
            let value = vstd::slice::slice_subrange(s, e + 1, ve);
            match Self::tokenize_list(s, ve) {
                Err(err) => Err(err),
                Ok(mut rest) => {
                    let ghost rest0 = rest@;
                    let mut out: Vec<Tokenizer<'a>> = Vec::new();
                    out.push(Tokenizer { name, value: Some(value) });
                    out.append(&mut rest);
                    proof {
                        assert(views(out@) =~= seq![
                            TokView {
                                name: s@.subrange(i + 1, e as int),
                                value: Some(s@.subrange(e + 1, ve as int)),
                            },
                        ] + views(rest0));
                    }
                    Ok(out)
                },
            }
        } else {
            match Self::tokenize_list(s, e) {
                Err(err) => Err(err),
                Ok(mut rest) => {
                    let ghost rest0 = rest@;
                    let mut out: Vec<Tokenizer<'a>> = Vec::new();
                    out.push(Tokenizer { name, value: None });
                    out.append(&mut rest);
                    proof {
                        assert(views(out@) =~= seq![
                            TokView { name: s@.subrange(i + 1, e as int), value: None },
                        ] + views(rest0));
                    }
                    Ok(out)
                },
            }
        }
    }
}

/// A typed parameter: the known names become variants, anything else is kept
/// verbatim as a name/value pair so nothing is lost.
#[derive(Debug, Clone, PartialEq, Eq)]
pub enum Param {
    /// The transaction-identifying `branch` parameter of a Via header.
    Branch(Vec<u8>),
    /// Any parameter with an unrecognized name, kept verbatim.
    Other(Vec<u8>, Option<Vec<u8>>),
}

/// Ghost counterpart of a typed parameter.
pub ghost enum ParamView {
    Branch(Seq<u8>),
    Other(Seq<u8>, Option<Seq<u8>>),
}

impl View for Param {
    type V = ParamView;

    open spec fn view(&self) -> ParamView {
        match self {
            Param::Branch(v) => ParamView::Branch(v@),
            Param::Other(n, Some(v)) => ParamView::Other(n@, Some(v@)),
            Param::Other(n, None) => ParamView::Other(n@, None),
        }
    }
}

/// The typed parameter a tokenized parameter denotes.  Name matching is
/// case-insensitive; `branch` needs a value to be recognized.
pub open spec fn param_of(t: TokView) -> ParamView {
    if is_branch_name(t.name) && t.value is Some {
        ParamView::Branch(t.value->0)
    } else {
        ParamView::Other(t.name, t.value)
    }
}

impl Param {
    /// Converts one parameter tokenizer to its typed counterpart.  This
    /// conversion is total: unrecognized names are preserved, not rejected.
    pub fn parse(t: &Tokenizer<'_>) -> (r: Param)
        ensures
            r@ == param_of(t@),
    {
        let is_branch = t.name.len() == 6 && crate::scan::lower_at(t.name, 0) == 98
            && crate::scan::lower_at(t.name, 1) == 114 && crate::scan::lower_at(t.name, 2) == 97
            && crate::scan::lower_at(t.name, 3) == 110 && crate::scan::lower_at(t.name, 4) == 99
            && crate::scan::lower_at(t.name, 5) == 104;
        proof {
            crate::scan::lemma_lower_seq_eq(t.name@, branch_name());
            if is_branch {
                assert forall|k: int| 0 <= k < t.name@.len() implies crate::scan::lower(
                    t.name@[k],
                ) == branch_name()[k] by {
                    if k == 0 {
                    } else if k == 1 {
                    } else if k == 2 {
                    } else if k == 3 {
                    } else if k == 4 {
                    } else {
                        assert(k == 5);
                    }
                }
            }
            assert(is_branch == is_branch_name(t.name@));
        }
        match t.value {
            Some(v) => {
                if is_branch {
                    Param::Branch(vstd::slice::slice_to_vec(v))
                } else {
                    Param::Other(
                        vstd::slice::slice_to_vec(t.name),
                        Some(vstd::slice::slice_to_vec(v)),
                    )
                }
            },
            None => Param::Other(vstd::slice::slice_to_vec(t.name), None),
        }
    }
}

/// The wire text of one typed parameter, without its leading `;`.
pub open spec fn render_spec(p: ParamView) -> Seq<u8> {
    match p {
        ParamView::Branch(v) => branch_name() + seq![61u8] + v,
        ParamView::Other(n, Some(v)) => n + seq![61u8] + v,
        ParamView::Other(n, None) => n,
    }
}

/// The wire text of a parameter list, each entry preceded by `;`.
pub open spec fn list_render_spec(ps: Seq<ParamView>) -> Seq<u8>
    decreases ps.len(),
{
    if ps.len() == 0 {
        Seq::empty()
    } else {
        seq![59u8] + render_spec(ps[0]) + list_render_spec(ps.drop_first())
    }
}

/// The views of a sequence of typed parameters, in order.
pub open spec fn param_views(ps: Seq<Param>) -> Seq<ParamView> {
    ps.map_values(|p: Param| p@)
}

/// The typed parameters a sequence of tokenized parameters denotes, in order.
pub open spec fn params_of(ts: Seq<TokView>) -> Seq<ParamView> {
    ts.map_values(|t: TokView| param_of(t))
}

impl Param {
    /// Appends this parameter's wire text, without the leading `;`.
    pub fn render_onto(&self, out: &mut Vec<u8>)
        ensures
            final(out)@ == old(out)@ + render_spec(self@),
    {
        match self {
            Param::Branch(v) => {
                out.push(98);
                out.push(114);
                out.push(97);
                out.push(110);
                out.push(99);
                out.push(104);
                out.push(61);
                let ghost mid = out@;
                crate::scan::extend_bytes(out, v.as_slice());
                proof {
                    assert(mid =~= old(out)@ + branch_name() + seq![61u8]);
                    assert(out@ =~= old(out)@ + render_spec(self@));
                }
            },
            Param::Other(n, ov) => {
                crate::scan::extend_bytes(out, n.as_slice());
                match ov {
                    Some(v) => {
                        out.push(61);
                        let ghost mid = out@;
                        crate::scan::extend_bytes(out, v.as_slice());
                        proof {
                            assert(mid =~= old(out)@ + n@ + seq![61u8]);
                            assert(out@ =~= old(out)@ + render_spec(self@));
                        }
                    },
                    None => {
                        proof {
                            assert(out@ =~= old(out)@ + render_spec(self@));
                        }
                    },
                }
            },
        }
    }

    /// Appends the wire text of the whole list from index `k` on, one `;`
    /// before each entry.
    pub fn render_list_from(ps: &Vec<Param>, k: usize, out: &mut Vec<u8>)
        requires
            k <= ps@.len(),
        ensures
            final(out)@ == old(out)@ + list_render_spec(param_views(ps@).skip(k as int)),
        decreases ps@.len() - k,
    {
        if k < ps.len() {
            out.push(59);
            let p = &ps[k];
            let ghost mid0 = out@;
            p.render_onto(out);
            let ghost mid1 = out@;
            Self::render_list_from(ps, k + 1, out);
            proof {
                let tail = param_views(ps@).skip(k as int);
                assert(tail.len() > 0);
                assert(tail[0] == ps@[k as int]@);
                assert(tail.drop_first() =~= param_views(ps@).skip(k + 1));
                assert(mid0 =~= old(out)@ + seq![59u8]);
                assert(mid1 =~= old(out)@ + seq![59u8] + render_spec(ps@[k as int]@));
                assert(out@ =~= old(out)@ + (seq![59u8] + render_spec(tail[0])
                    + list_render_spec(tail.drop_first())));
                assert(list_render_spec(tail) == seq![59u8] + render_spec(tail[0])
                    + list_render_spec(tail.drop_first()));
            }
        } else {
            proof {
                assert(param_views(ps@).skip(k as int) =~= Seq::<ParamView>::empty());
            }
        }
    }
}

/// The shape a typed parameter must have for its wire text to tokenize and
/// convert back to itself inside a parameter list.
pub open spec fn wf_spec(p: ParamView) -> bool {
    match p {
        ParamView::Branch(v) => !has_byte(v, 59),
        ParamView::Other(n, ov) => {
            &&& n.len() > 0
            &&& !has_byte(n, 59)
            &&& !has_byte(n, 61)
            &&& (ov matches Some(v) ==> !has_byte(v, 59))
            &&& !(is_branch_name(n) && ov is Some)
        },
    }
}

/// Every entry of a parameter list is well-formed.
pub open spec fn list_wf_spec(ps: Seq<ParamView>) -> bool {
    forall|i: int| 0 <= i < ps.len() ==> wf_spec(#[trigger] ps[i])
}

} // verus!

verus! {

use crate::scan::lower;

/// The `branch` literal: six lower-case letters, none of them a separator.
pub proof fn lemma_branch_name_bytes()
    ensures
        branch_name().len() == 6,
        forall|j: int|
            0 <= j < 6 ==> (#[trigger] branch_name()[j]) != 59 && branch_name()[j] != 61,
        is_branch_name(branch_name()),
{
    let b = branch_name();
    assert forall|j: int| 0 <= j < 6 implies (#[trigger] b[j]) != 59 && b[j] != 61 by {
        if j == 0 {
        } else if j == 1 {
        } else if j == 2 {
        } else if j == 3 {
        } else if j == 4 {
        } else {
            assert(j == 5);
        }
    }
    assert forall|j: int| 0 <= j < 6 implies lower(#[trigger] b[j]) == b[j] by {
        if j == 0 {
        } else if j == 1 {
        } else if j == 2 {
        } else if j == 3 {
        } else if j == 4 {
        } else {
            assert(j == 5);
        }
    }
    assert(lower_seq(b) =~= b);
}

/// Tokenizing the rendered text of a well-formed parameter list, and
/// converting each token, gives back exactly that list.
pub proof fn lemma_params_round_trip(s: Seq<u8>, i: int, ps: Seq<ParamView>)
    requires
        0 <= i <= s.len(),
        list_wf_spec(ps),
        s.subrange(i, s.len() as int) == list_render_spec(ps),
    ensures
        params_spec(s, i) matches Ok(ts) && params_of(ts) == ps,
    decreases ps.len(),
{
    let tail = s.subrange(i, s.len() as int);
    if ps.len() == 0 {
        assert(tail.len() == 0);
        assert(i == s.len());
        assert(params_spec(s, i) == Ok::<Seq<TokView>, SynView>(Seq::empty()));
        assert(params_of(Seq::<TokView>::empty()) =~= ps);
    } else {
        lemma_branch_name_bytes();
        let p0 = ps[0];
        assert(wf_spec(p0));
        let r0 = render_spec(p0);
        let rest = list_render_spec(ps.drop_first());
        assert(tail == seq![59u8] + r0 + rest);
        // The name span and the optional value span of the first entry.
        let nm: Seq<u8> = match p0 {
            ParamView::Branch(_) => branch_name(),
            ParamView::Other(n, _) => n,
        };
        let ov: Option<Seq<u8>> = match p0 {
            ParamView::Branch(v) => Some(v),
            ParamView::Other(_, o) => o,
        };
        assert(nm.len() > 0);
        assert(forall|j: int| 0 <= j < nm.len() ==> (#[trigger] nm[j]) != 59 && nm[j] != 61);
        assert(r0 == match ov {
            Some(v) => nm + seq![61u8] + v,
            None => nm,
        });
        assert(s[i] == 59) by {
            assert(tail[0] == s[i]);
            assert(tail[0] == 59);
        }
        let e = i + 1 + nm.len();
        assert forall|k: int| i + 1 <= k < e implies s[k] != 61 && s[k] != 59 by {
            let m = k - i;
            assert(tail[m] == s[k]);
            assert(tail[m] == r0[m - 1]);
            assert(r0[m - 1] == nm[m - 1]);
        }
        match ov {
            Some(v) => {
                assert(!has_byte(v, 59));
                assert(tail[1 + nm.len() as int] == r0[nm.len() as int]);
                assert(s[e] == 61);
                crate::scan::lemma_find3_exact(s, i + 1, e, 61, 59, 59);
                assert(find3(s, i + 1, 61, 59, 59) == e);
                let ve = e + 1 + v.len();
                assert forall|k: int| e + 1 <= k < ve implies s[k] != 59 by {
                    let m = k - i;
                    assert(tail[m] == s[k]);
                    assert(tail[m] == r0[m - 1]);
                    assert(r0[m - 1] == v[m - 1 - nm.len() - 1]);
                    assert(!(v[m - 2 - nm.len()] == 59)) by {
                        if v[m - 2 - nm.len()] == 59 {
                            assert(has_byte(v, 59));
                        }
                    }
                }
                assert(ve == s.len() || s[ve] == 59) by {
                    if ve < s.len() {
                        assert(ps.drop_first().len() > 0);
                        assert(rest.len() > 0);
                        assert(rest[0] == 59) by {
                            assert(rest == seq![59u8] + render_spec(ps.drop_first()[0])
                                + list_render_spec(ps.drop_first().drop_first()));
                        }
                        assert(tail[ve - i] == rest[0]);
                        assert(s[ve] == tail[ve - i]);
                    }
                }
                crate::scan::lemma_find3_exact(s, e + 1, ve, 59, 59, 59);
                assert(find3(s, e + 1, 59, 59, 59) == ve);
                assert forall|j: int| 0 <= j < nm.len() implies s[i + 1 + j] == nm[j] by {
                    assert(tail[j + 1] == s[i + 1 + j]);
                    assert(tail[j + 1] == r0[j]);
                    assert(r0[j] == nm[j]);
                }
                assert(s.subrange(i + 1, e) =~= nm);
                assert forall|j: int| 0 <= j < v.len() implies s[e + 1 + j] == v[j] by {
                    let m = e + 1 + j - i;
                    assert(tail[m] == s[e + 1 + j]);
                    assert(tail[m] == r0[m - 1]);
                    assert(r0[m - 1] == v[j]);
                }
                assert(s.subrange(e + 1, ve) =~= v);
                assert forall|j: int| 0 <= j < rest.len() implies s[ve + j] == rest[j] by {
                    let m = ve + j - i;
                    assert(tail[m] == s[ve + j]);
                    assert(tail[m] == rest[j]);
                }
                assert(s.subrange(ve, s.len() as int) =~= rest);
                assert(list_wf_spec(ps.drop_first())) by {
                    assert(forall|j: int|
                        0 <= j < ps.drop_first().len() ==> #[trigger] ps.drop_first()[j] == ps[j
                            + 1]);
                }
                lemma_params_round_trip(s, ve, ps.drop_first());
                let t0 = TokView { name: nm, value: Some(v) };
                let ts_rest = params_spec(s, ve)->Ok_0;
                assert(params_spec(s, i) == Ok::<Seq<TokView>, SynView>(seq![t0] + ts_rest));
                assert(param_of(t0) == p0) by {
                    match p0 {
                        ParamView::Branch(_) => {
                            assert(is_branch_name(nm));
                        },
                        ParamView::Other(n, o) => {
                            assert(!(is_branch_name(n) && o is Some));
                        },
                    }
                }
                assert(params_of(seq![t0] + ts_rest) =~= ps) by {
                    assert(params_of(ts_rest) == ps.drop_first());
                    assert forall|k: int| 0 <= k < ps.len() implies params_of(seq![t0] + ts_rest)[k]
                        == ps[k] by {
                        assert(params_of(seq![t0] + ts_rest)[k] == param_of((seq![t0] + ts_rest)[k]));
                        if k == 0 {
                        } else {
                            assert((seq![t0] + ts_rest)[k] == ts_rest[k - 1]);
                            assert(param_of(ts_rest[k - 1]) == params_of(ts_rest)[k - 1]);
                            assert(ps.drop_first()[k - 1] == ps[k]);
                        }
                    }
                }
            },
            None => {
                let ve = e;
                assert(ve == s.len() || s[ve] == 59) by {
                    if ve < s.len() {
                        assert(ps.drop_first().len() > 0);
                        assert(rest.len() > 0);
                        assert(rest[0] == 59) by {
                            assert(rest == seq![59u8] + render_spec(ps.drop_first()[0])
                                + list_render_spec(ps.drop_first().drop_first()));
                        }
                        assert(tail[ve - i] == rest[0]);
                        assert(s[ve] == tail[ve - i]);
                    }
                }
                crate::scan::lemma_find3_exact(s, i + 1, e, 61, 59, 59);
                assert(find3(s, i + 1, 61, 59, 59) == e);
                assert(!(e < s.len() && s[e] == 61));
                assert forall|j: int| 0 <= j < nm.len() implies s[i + 1 + j] == nm[j] by {
                    assert(tail[j + 1] == s[i + 1 + j]);
                    assert(tail[j + 1] == r0[j]);
                    assert(r0[j] == nm[j]);
                }
                assert(s.subrange(i + 1, e) =~= nm);
                assert forall|j: int| 0 <= j < rest.len() implies s[e + j] == rest[j] by {
                    let m = e + j - i;
                    assert(tail[m] == s[e + j]);
                    assert(tail[m] == rest[j]);
                }
                assert(s.subrange(e, s.len() as int) =~= rest);
                assert(list_wf_spec(ps.drop_first())) by {
                    assert(forall|j: int|
                        0 <= j < ps.drop_first().len() ==> #[trigger] ps.drop_first()[j] == ps[j
                            + 1]);
                }
                lemma_params_round_trip(s, e, ps.drop_first());
                let t0 = TokView { name: nm, value: None };
                let ts_rest = params_spec(s, e)->Ok_0;
                assert(params_spec(s, i) == Ok::<Seq<TokView>, SynView>(seq![t0] + ts_rest));
                assert(param_of(t0) == p0);
                assert(params_of(seq![t0] + ts_rest) =~= ps) by {
                    assert(params_of(ts_rest) == ps.drop_first());
                    assert forall|k: int| 0 <= k < ps.len() implies params_of(seq![t0] + ts_rest)[k]
                        == ps[k] by {
                        assert(params_of(seq![t0] + ts_rest)[k] == param_of((seq![t0] + ts_rest)[k]));
                        if k == 0 {
                        } else {
                            assert((seq![t0] + ts_rest)[k] == ts_rest[k - 1]);
                            assert(param_of(ts_rest[k - 1]) == params_of(ts_rest)[k - 1]);
                            assert(ps.drop_first()[k - 1] == ps[k]);
                        }
                    }
                }
            },
        }
    }
}

} // verus!

verus! {

/// Whatever list of parameters tokenization yields, converting each token
/// gives a well-formed list: names are non-empty and free of separators,
/// values are free of the list separator, and the verbatim fallback never
/// hides a recognized name with a value.
pub proof fn lemma_params_tok_wf(s: Seq<u8>, i: int)
    requires
        0 <= i <= s.len(),
    ensures
        params_spec(s, i) matches Ok(ts) ==> list_wf_spec(params_of(ts)),
    decreases s.len() - i,
{
    if i >= s.len() {
        assert(list_wf_spec(params_of(Seq::<TokView>::empty())));
    } else if s[i] != 59 {
    } else {
        let e = find3(s, i + 1, 61, 59, 59);
        crate::scan::lemma_find3_is(s, i + 1, 61, 59, 59);
        if e == i + 1 {
        } else {
            let nm = s.subrange(i + 1, e);
            assert(nm.len() > 0);
            assert(!has_byte(nm, 59) && !has_byte(nm, 61)) by {
                assert forall|j: int| 0 <= j < nm.len() implies (#[trigger] nm[j]) != 59 && nm[j]
                    != 61 by {
                    assert(nm[j] == s[i + 1 + j]);
                }
            }
            if e < s.len() && s[e] == 61 {
                let ve = find3(s, e + 1, 59, 59, 59);
                crate::scan::lemma_find3_is(s, e + 1, 59, 59, 59);
                let v = s.subrange(e + 1, ve);
                assert(!has_byte(v, 59)) by {
                    assert forall|j: int| 0 <= j < v.len() implies (#[trigger] v[j]) != 59 by {
                        assert(v[j] == s[e + 1 + j]);
                    }
                }
                lemma_params_tok_wf(s, ve);
                match params_spec(s, ve) {
                    Err(_) => {},
                    Ok(rest) => {
                    let t0 = TokView { name: nm, value: Some(v) };
                    let p0 = param_of(t0);
                    assert(wf_spec(p0));
                    assert(list_wf_spec(params_of(seq![t0] + rest))) by {
                        assert forall|k: int| 0 <= k < (seq![t0] + rest).len() implies wf_spec(
                            #[trigger] params_of(seq![t0] + rest)[k],
                        ) by {
                            assert(params_of(seq![t0] + rest)[k] == param_of(
                                (seq![t0] + rest)[k],
                            ));
                            if k == 0 {
                            } else {
                                assert((seq![t0] + rest)[k] == rest[k - 1]);
                                assert(params_of(rest)[k - 1] == param_of(rest[k - 1]));
                                assert(wf_spec(params_of(rest)[k - 1]));
                            }
                        }
                    }
                    },
                }
            } else {
                lemma_params_tok_wf(s, e);
                match params_spec(s, e) {
                    Err(_) => {},
                    Ok(rest) => {
                    let t0 = TokView { name: nm, value: None };
                    let p0 = param_of(t0);
                    assert(wf_spec(p0));
                    assert(list_wf_spec(params_of(seq![t0] + rest))) by {
                        assert forall|k: int| 0 <= k < (seq![t0] + rest).len() implies wf_spec(
                            #[trigger] params_of(seq![t0] + rest)[k],
                        ) by {
                            assert(params_of(seq![t0] + rest)[k] == param_of(
                                (seq![t0] + rest)[k],
                            ));
                            if k == 0 {
                            } else {
                                assert((seq![t0] + rest)[k] == rest[k - 1]);
                                assert(params_of(rest)[k - 1] == param_of(rest[k - 1]));
                                assert(wf_spec(params_of(rest)[k - 1]));
                            }
                        }
                    }
                    },
                }
            }
        }
    }
}

} // verus!
