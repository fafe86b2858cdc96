//! The Via header family: `SIP "/" version "/" transport SP host [":" port]
//! *(";" param)`.  The tokenizer composes the shared version, host-with-port
//! and parameter-list combinators; conversion yields a typed Via whose
//! transport keeps unrecognized names verbatim, and rendering reproduces the
//! wire text.

use vstd::prelude::*;

verus! {

broadcast use crate::scan::lemma_find3_bounds;

use crate::error::{Rule, SemanticError, SynView, SyntaxError};
use crate::param::{Param, ParamView};
use crate::scan::{find3, has_byte, lower_seq};
use crate::uri::{HostPortView, HostWithPort};
use crate::version::Version;

/// A transport protocol: the known vocabulary plus a verbatim fallback, so
/// an extension transport survives a parse and re-render unchanged.
#[derive(Debug, Clone, PartialEq, Eq)]
pub enum Transport {
    Udp,
    Tcp,
    Tls,
    Sctp,
    Ws,
    Wss,
    Other(Vec<u8>),
}

/// Ghost counterpart of `Transport`.
pub ghost enum TransportView {
    Udp,
    Tcp,
    Tls,
    Sctp,
    Ws,
    Wss,
    Other(Seq<u8>),
}

impl View for Transport {
    type V = TransportView;

    open spec fn view(&self) -> TransportView {
        match self {
            Transport::Udp => TransportView::Udp,
            Transport::Tcp => TransportView::Tcp,
            Transport::Tls => TransportView::Tls,
            Transport::Sctp => TransportView::Sctp,
            Transport::Ws => TransportView::Ws,
            Transport::Wss => TransportView::Wss,
            Transport::Other(t) => TransportView::Other(t@),
        }
    }
}

pub open spec fn udp_name() -> Seq<u8> {
    seq![117u8, 100u8, 112u8]
}

pub open spec fn tcp_name() -> Seq<u8> {
    seq![116u8, 99u8, 112u8]
}

pub open spec fn tls_name() -> Seq<u8> {
    seq![116u8, 108u8, 115u8]
}

pub open spec fn sctp_name() -> Seq<u8> {
    seq![115u8, 99u8, 116u8, 112u8]
}

pub open spec fn ws_name() -> Seq<u8> {
    seq![119u8, 115u8]
}

pub open spec fn wss_name() -> Seq<u8> {
    seq![119u8, 115u8, 115u8]
}

/// Case-insensitive membership in the closed transport vocabulary.
pub open spec fn is_known_transport(s: Seq<u8>) -> bool {
    ||| lower_seq(s) == udp_name()
    ||| lower_seq(s) == tcp_name()
    ||| lower_seq(s) == tls_name()
    ||| lower_seq(s) == sctp_name()
    ||| lower_seq(s) == ws_name()
    ||| lower_seq(s) == wss_name()
}

/// The typed transport a token denotes: a known variant on a
/// case-insensitive match, otherwise the bytes verbatim.
pub open spec fn transport_of(s: Seq<u8>) -> TransportView {
    if lower_seq(s) == udp_name() {
        TransportView::Udp
    } else if lower_seq(s) == tcp_name() {
        TransportView::Tcp
    } else if lower_seq(s) == tls_name() {
        TransportView::Tls
    } else if lower_seq(s) == sctp_name() {
        TransportView::Sctp
    } else if lower_seq(s) == ws_name() {
        TransportView::Ws
    } else if lower_seq(s) == wss_name() {
        TransportView::Wss
    } else {
        TransportView::Other(s)
    }
}

/// The wire text of a transport: known variants render in their canonical
/// upper case, the fallback renders its bytes verbatim.
pub open spec fn transport_render_spec(t: TransportView) -> Seq<u8> {
    match t {
        TransportView::Udp => seq![85u8, 68u8, 80u8],
        TransportView::Tcp => seq![84u8, 67u8, 80u8],
        TransportView::Tls => seq![84u8, 76u8, 83u8],
        TransportView::Sctp => seq![83u8, 67u8, 84u8, 80u8],
        TransportView::Ws => seq![87u8, 83u8],
        TransportView::Wss => seq![87u8, 83u8, 83u8],
        TransportView::Other(s) => s,
    }
}

fn lit2(a: u8, b: u8) -> (v: Vec<u8>)
    ensures
        v@ == seq![a, b],
{
    let mut v: Vec<u8> = Vec::new();
    v.push(a);
    v.push(b);
    proof {
        assert(v@ =~= seq![a, b]);
    }
    v
}

fn lit3(a: u8, b: u8, c: u8) -> (v: Vec<u8>)
    ensures
        v@ == seq![a, b, c],
{
    let mut v: Vec<u8> = Vec::new();
    v.push(a);
    v.push(b);
    v.push(c);
    proof {
        assert(v@ =~= seq![a, b, c]);
    }
    v
}

fn lit4(a: u8, b: u8, c: u8, d: u8) -> (v: Vec<u8>)
    ensures
        v@ == seq![a, b, c, d],
{
    let mut v: Vec<u8> = Vec::new();
    v.push(a);
    v.push(b);
    v.push(c);
    v.push(d);
    proof {
        assert(v@ =~= seq![a, b, c, d]);
    }
    v
}

impl Transport {
    /// Converts a transport token to its typed counterpart.  This conversion
    /// is total: an unrecognized transport is preserved, not rejected.
    pub fn parse(s: &[u8]) -> (r: Transport)
        ensures
            r@ == transport_of(s@),
    {
        if crate::scan::eq_lower(s, lit3(117, 100, 112).as_slice()) {
            return Transport::Udp;
        }
        if crate::scan::eq_lower(s, lit3(116, 99, 112).as_slice()) {
            return Transport::Tcp;
        }
        if crate::scan::eq_lower(s, lit3(116, 108, 115).as_slice()) {
            return Transport::Tls;
        }
        if crate::scan::eq_lower(s, lit4(115, 99, 116, 112).as_slice()) {
            return Transport::Sctp;
        }
        if crate::scan::eq_lower(s, lit2(119, 115).as_slice()) {
            return Transport::Ws;
        }
        if crate::scan::eq_lower(s, lit3(119, 115, 115).as_slice()) {
            return Transport::Wss;
        }
        Transport::Other(vstd::slice::slice_to_vec(s))
    }

    /// Appends this transport's wire text.
    pub fn render_onto(&self, out: &mut Vec<u8>)
        ensures
            final(out)@ == old(out)@ + transport_render_spec(self@),
    {
        match self {
            Transport::Udp => {
                out.push(85);
                out.push(68);
                out.push(80);
            },
            Transport::Tcp => {
                out.push(84);
                out.push(67);
                out.push(80);
            },
            Transport::Tls => {
                out.push(84);
                out.push(76);
                out.push(83);
            },
            Transport::Sctp => {
                out.push(83);
                out.push(67);
                out.push(84);
                out.push(80);
            },
            Transport::Ws => {
                out.push(87);
                out.push(83);
            },
            Transport::Wss => {
                out.push(87);
                out.push(83);
                out.push(83);
            },
            Transport::Other(t) => {
                crate::scan::extend_bytes(out, t.as_slice());
            },
        }
        proof {
            assert(out@ =~= old(out)@ + transport_render_spec(self@));
        }
    }
}

/// An unrecognized transport token converts to the verbatim fallback, and
/// that fallback renders to exactly the original token: extension transports
/// survive the pipeline unchanged.
pub proof fn lemma_unknown_transport_preserved(s: Seq<u8>)
    requires
        !is_known_transport(s),
    ensures
        transport_of(s) == TransportView::Other(s),
        transport_render_spec(transport_of(s)) == s,
{
}

/// Borrowed spans of one Via header value, composed from the shared
/// version, host-with-port and parameter-list tokenizers.
#[derive(Debug, Clone, PartialEq, Eq)]
pub struct Tokenizer<'a> {
    pub version: crate::version::Tokenizer<'a>,
    pub transport: &'a [u8],
    pub uri: crate::uri::Tokenizer<'a>,
    pub params: Vec<crate::param::Tokenizer<'a>>,
}

/// Ghost counterpart of the Via tokenizer.
pub ghost struct TokView {
    pub version: crate::version::TokView,
    pub transport: Seq<u8>,
    pub uri: crate::uri::TokView,
    pub params: Seq<crate::param::TokView>,
}

impl<'a> View for Tokenizer<'a> {
    type V = TokView;

    open spec fn view(&self) -> TokView {
        TokView {
            version: self.version@,
            transport: self.transport@,
            uri: self.uri@,
            params: crate::param::views(self.params@),
        }
    }
}

/// What tokenizing a whole Via header value yields: the version digit spans,
/// the transport span (to the first space), the host-with-port spans and the
/// parameter spans, or the failing position.
pub open spec fn tokenize_spec(s: Seq<u8>) -> Result<TokView, SynView> {
    match crate::version::tokenize_spec(s, 0) {
        Err(e) => Err(e),
        Ok((v, p)) => {
            if p >= s.len() || s[p] != 47 {
                Err(SynView { rule: Rule::Version, pos: p })
            } else {
                let sp = find3(s, p + 1, 32, 32, 32);
                if sp == p + 1 || sp >= s.len() {
                    Err(SynView { rule: Rule::Transport, pos: sp })
                } else {
                    match crate::uri::tokenize_spec(s, sp + 1) {
                        Err(e) => Err(e),
                        Ok((hp, q)) => match crate::param::params_spec(s, q) {
                            Err(e) => Err(e),
                            Ok(ps) => Ok(
                                TokView {
                                    version: v,
                                    transport: s.subrange(p + 1, sp),
                                    uri: hp,
                                    params: ps,
                                },
                            ),
                        },
                    }
                }
            }
        },
    }
}

/// A host-with-port scan that succeeds ends after the host, within bounds.
proof fn lemma_uri_tok_bounds(s: Seq<u8>, i: int)
    requires
        0 <= i <= s.len(),
    ensures
        crate::uri::tokenize_spec(s, i) matches Ok((t, j)) ==> i < j <= s.len(),
{
}

impl<'a> Tokenizer<'a> {
    /// Tokenizes one full Via header value; the whole input must be consumed,
    /// so the remaining slice of a successful result is empty.
    pub fn tokenize(part: &'a [u8]) -> (r: Result<(&'a [u8], Tokenizer<'a>), SyntaxError>)
        ensures
            match r {
                Ok((rem, t)) => tokenize_spec(part@) == Ok::<TokView, SynView>(t@) && rem@
                    == Seq::<u8>::empty(),
                Err(e) => tokenize_spec(part@) == Err::<TokView, SynView>(e@),
            },
    {
        let n = part.len();
        let (ver, p) = match crate::version::Tokenizer::tokenize(part, 0) {
            Err(e) => {
                return Err(e);
            },
            Ok(vp) => vp,
        };
        if p >= n || *vstd::slice::slice_index_get(part, p) != 47 {
            return Err(SyntaxError { rule: Rule::Version, pos: p });
        }
        let sp = crate::scan::find3_from(part, p + 1, 32, 32, 32);
        if sp == p + 1 || sp >= n {
            return Err(SyntaxError { rule: Rule::Transport, pos: sp });
        }
        let transport = vstd::slice::slice_subrange(part, p + 1, sp);
        let (hp, q) = match crate::uri::Tokenizer::tokenize(part, sp + 1) {
            Err(e) => {
                return Err(e);
            },
            Ok(hq) => hq,
        };
        proof {
            lemma_uri_tok_bounds(part@, sp + 1);
        }
        let ps = match crate::param::Tokenizer::tokenize_list(part, q) {
            Err(e) => {
                return Err(e);
            },
            Ok(ps) => ps,
        };
        let rem = vstd::slice::slice_subrange(part, n, n);
        proof {
            assert(rem@ =~= Seq::<u8>::empty());
        }
        Ok((rem, Tokenizer { version: ver, transport, uri: hp, params: ps }))
    }
}

/// A typed Via header: one hop's protocol version, transport and address,
/// with its parameter list.
#[derive(Debug, Clone, PartialEq, Eq)]
pub struct Via {
    pub version: Version,
    pub transport: Transport,
    pub uri: HostWithPort,
    pub params: Vec<Param>,
}

/// Ghost counterpart of a typed Via.
pub ghost struct ViaView {
    pub version: Version,
    pub transport: TransportView,
    pub uri: HostPortView,
    pub params: Seq<ParamView>,
}

impl View for Via {
    type V = ViaView;

    open spec fn view(&self) -> ViaView {
        ViaView {
            version: self.version,
            transport: self.transport@,
            uri: self.uri@,
            params: crate::param::param_views(self.params@),
        }
    }
}

/// The typed Via a tokenized Via denotes: an unrecognized version is a
/// semantic error, then a present-but-unparsable port; transports and
/// parameters convert totally.
pub open spec fn via_of(t: TokView) -> Result<ViaView, SemanticError> {
    match crate::version::version_of(t.version.major, t.version.minor) {
        None => Err(SemanticError::Version),
        Some(v) => match crate::uri::host_port_of(t.uri) {
            Err(e) => Err(e),
            Ok(hp) => Ok(
                ViaView {
                    version: v,
                    transport: transport_of(t.transport),
                    uri: hp,
                    params: crate::param::params_of(t.params),
                },
            ),
        },
    }
}

impl Via {
    /// Converts a Via tokenizer to the typed Via, surfacing the first
    /// semantic error.
    pub fn parse(t: &Tokenizer<'_>) -> (r: Result<Via, SemanticError>)
        ensures
            match via_of(t@) {
                Ok(g) => r matches Ok(v) && v@ == g,
                Err(e) => r == Err::<Via, SemanticError>(e),
            },
    {
        let version = match Version::parse(&t.version) {
            Err(e) => {
                return Err(e);
            },
            Ok(v) => v,
        };
        let uri = match HostWithPort::parse(&t.uri) {
            Err(e) => {
                return Err(e);
            },
            Ok(hp) => hp,
        };
        let transport = Transport::parse(t.transport);
        let mut params: Vec<Param> = Vec::new();
        let m = t.params.len();
        let mut i: usize = 0;
        while i < m
            invariant
                0 <= i <= m,
                m == t.params@.len(),
                crate::param::param_views(params@) == crate::param::params_of(
                    crate::param::views(t.params@).subrange(0, i as int),
                ),
            decreases m - i,
        {
            let ptok = *vstd::slice::slice_index_get(t.params.as_slice(), i);
            let p = Param::parse(&ptok);
            let ghost before = params@;
            params.push(p);
            proof {
                let tv = crate::param::views(t.params@);
                let lhs = crate::param::param_views(params@);
                let rhs = crate::param::params_of(tv.subrange(0, i + 1));
                assert(ptok@ == tv[i as int]);
                assert(params@ == before.push(p));
                assert(crate::param::param_views(before).len() == before.len());
                assert(before.len() == i as int);
                assert(params@.len() == i + 1);
                assert(lhs.len() == i + 1);
                assert(rhs.len() == i + 1);
                assert forall|k: int| 0 <= k < i + 1 implies lhs[k] == rhs[k] by {
                    assert(rhs[k] == crate::param::param_of(tv[k]));
                    if k < i {
                        assert(lhs[k] == crate::param::param_views(before)[k]);
                        assert(crate::param::param_views(before)[k] == crate::param::params_of(
                            tv.subrange(0, i as int),
                        )[k]);
                        assert(crate::param::params_of(tv.subrange(0, i as int))[k]
                            == crate::param::param_of(tv[k]));
                    } else {
                        assert(lhs[k] == p@);
                    }
                }
                assert(lhs =~= rhs);
            }
            i = i + 1;
        }
        proof {
            assert(crate::param::views(t.params@).subrange(
                0,
                t.params@.len() as int,
            ) =~= crate::param::views(t.params@));
        }
        Ok(Via { version, transport, uri, params })
    }

    /// The wire text of this Via, canonical for known vocabulary items and
    /// verbatim for preserved extension values.
    pub fn render(&self) -> (r: Vec<u8>)
        ensures
            r@ == render_spec(self@),
    {
        let mut out: Vec<u8> = Vec::new();
        out.push(83);
        out.push(73);
        out.push(80);
        out.push(47);
        let ghost s0 = out@;
        let ver = self.version.render();
        crate::scan::extend_bytes(&mut out, ver.as_slice());
        out.push(47);
        let ghost s1 = out@;
        self.transport.render_onto(&mut out);
        out.push(32);
        let ghost s2 = out@;
        self.uri.render_onto(&mut out);
        let ghost s3 = out@;
        Param::render_list_from(&self.params, 0, &mut out);
        proof {
            assert(crate::param::param_views(self.params@).skip(0) =~= crate::param::param_views(
                self.params@,
            ));
            assert(s0 =~= seq![83u8, 73u8, 80u8, 47u8]);
            assert(out@ =~= render_spec(self@));
        }
        out
    }
}

/// The wire text of a typed Via.
pub open spec fn render_spec(v: ViaView) -> Seq<u8> {
    seq![83u8, 73u8, 80u8, 47u8] + crate::version::render_spec(v.version) + seq![47u8]
        + transport_render_spec(v.transport) + seq![32u8] + crate::uri::render_spec(v.uri)
        + crate::param::list_render_spec(v.params)
}

/// The shape a typed Via must have for its wire text to tokenize and convert
/// back to itself: a preserved extension transport is non-empty, holds no
/// space and is not a known name in disguise; the host is non-empty and free
/// of separators; each parameter is well-formed.
pub open spec fn wf_spec(v: ViaView) -> bool {
    &&& transport_wf_spec(v.transport)
    &&& crate::uri::wf_spec(v.uri)
    &&& crate::param::list_wf_spec(v.params)
}

pub open spec fn transport_wf_spec(t: TransportView) -> bool {
    match t {
        TransportView::Other(s) => s.len() > 0 && !has_byte(s, 32) && !is_known_transport(s),
        _ => true,
    }
}

} // verus!

verus! {

use crate::scan::{all_digits, dec_str, dec_val, is_digit, lower};

/// Rendering a well-formed transport and converting the text back yields the
/// same transport; the text is never empty and holds no space.
pub proof fn lemma_transport_render_of(t: TransportView)
    requires
        transport_wf_spec(t),
    ensures
        transport_of(transport_render_spec(t)) == t,
        transport_render_spec(t).len() > 0,
        forall|j: int|
            0 <= j < transport_render_spec(t).len() ==> (#[trigger] transport_render_spec(t)[j])
                != 32,
{
    let r = transport_render_spec(t);
    match t {
        TransportView::Other(s) => {
            assert forall|j: int| 0 <= j < r.len() implies (#[trigger] r[j]) != 32 by {
                if r[j] == 32 {
                    assert(has_byte(s, 32));
                }
            }
        },
        _ => {
            assert(lower_seq(r).len() == r.len());
            assert(forall|j: int|
                0 <= j < r.len() ==> #[trigger] lower_seq(r)[j] == lower(r[j]));
            match t {
                TransportView::Udp => {
                    assert(lower_seq(r) =~= udp_name());
                },
                TransportView::Tcp => {
                    assert(lower_seq(r) =~= tcp_name());
                    assert(lower_seq(r)[0] == 116 && udp_name()[0] == 117);
                },
                TransportView::Tls => {
                    assert(lower_seq(r) =~= tls_name());
                    assert(lower_seq(r)[0] == 116 && udp_name()[0] == 117);
                    assert(lower_seq(r)[1] == 108 && tcp_name()[1] == 99);
                },
                TransportView::Sctp => {
                    assert(lower_seq(r) =~= sctp_name());
                    assert(lower_seq(r).len() == 4);
                    assert(udp_name().len() == 3 && tcp_name().len() == 3 && tls_name().len()
                        == 3);
                },
                TransportView::Ws => {
                    assert(lower_seq(r) =~= ws_name());
                    assert(lower_seq(r).len() == 2);
                },
                TransportView::Wss => {
                    assert(lower_seq(r) =~= wss_name());
                    assert(lower_seq(r)[0] == 119 && udp_name()[0] == 117 && tcp_name()[0] == 116
                        && tls_name()[0] == 116);
                    assert(lower_seq(r).len() == 3 && sctp_name().len() == 4 && ws_name().len()
                        == 2);
                },
                _ => {},
            }
        },
    }
}

/// Tokenizing the rendered text of a well-formed Via and converting the
/// result gives back exactly the Via that was rendered: the round trip is
/// the identity on well-formed typed values.
#[verifier::rlimit(100)]
#[verifier::spinoff_prover]
pub proof fn lemma_via_round_trip(v: ViaView)
    requires
        wf_spec(v),
    ensures
        tokenize_spec(render_spec(v)) matches Ok(t) && via_of(t) == Ok::<ViaView, SemanticError>(
            v,
        ),
{
    let s = render_spec(v);
    let vr = crate::version::render_spec(v.version);
    let tr = transport_render_spec(v.transport);
    let hr = crate::uri::render_spec(v.uri);
    let pr = crate::param::list_render_spec(v.params);
    let host = v.uri.host;
    let tl = tr.len() as int;
    let hl = hr.len() as int;
    let hl0 = host.len() as int;
    lemma_transport_render_of(v.transport);
    assert(vr.len() == 3);
    assert(s.len() == 9 + tl + hl + pr.len());
    assert(s[0] == 83 && s[1] == 73 && s[2] == 80 && s[3] == 47);
    assert(s[4] == vr[0] && s[5] == vr[1] && s[6] == vr[2]);
    assert(s[7] == 47);
    assert(forall|j: int| 0 <= j < tl ==> s[8 + j] == #[trigger] tr[j]);
    assert(s[8 + tl] == 32);
    assert(forall|j: int| 0 <= j < hl ==> s[9 + tl + j] == #[trigger] hr[j]);
    assert(forall|j: int| 0 <= j < pr.len() ==> s[9 + tl + hl + j] == #[trigger] pr[j]);
    // The version: `SIP/` then one digit, the dot, one digit, then `/`.
    assert(crate::version::sip_prefix(s, 0));
    assert(is_digit(s[4]) && s[5] == 46 && is_digit(s[6]) && !is_digit(s[7]));
    crate::scan::lemma_find_nondigit_exact(s, 4, 5);
    crate::scan::lemma_find_nondigit_exact(s, 6, 7);
    let major = s.subrange(4, 5);
    let minor = s.subrange(6, 7);
    assert(crate::version::tokenize_spec(s, 0) == Ok::<
        (crate::version::TokView, int),
        SynView,
    >((crate::version::TokView { major, minor }, 7)));
    assert(major =~= seq![s[4]]);
    assert(minor =~= seq![s[6]]);
    assert(crate::version::version_of(major, minor) == Some(v.version)) by {
        match v.version {
            Version::V1 => {
                assert(major =~= seq![49u8]);
                assert(minor =~= seq![48u8]);
            },
            Version::V2 => {
                assert(major =~= seq![50u8]);
                assert(minor =~= seq![48u8]);
                assert(seq![50u8] != seq![49u8]) by {
                    assert(seq![50u8][0] == 50);
                }
            },
        }
    }
    // The transport: everything up to the first space.
    let sp = 8 + tl;
    crate::scan::lemma_find3_exact(s, 8, sp, 32, 32, 32);
    assert(find3(s, 8, 32, 32, 32) == sp);
    assert(sp != 8 && sp < s.len());
    assert(s.subrange(8, sp) =~= tr);
    // The host, and the port when one is present.
    let hstart = 9 + tl;
    assert forall|j: int| 0 <= j < hl0 implies (#[trigger] s[hstart + j]) != 58 && s[hstart + j]
        != 59 by {
        assert(hr[j] == host[j]);
        if host[j] == 58 {
            assert(has_byte(host, 58));
        }
        if host[j] == 59 {
            assert(has_byte(host, 59));
        }
    }
    assert(pr.len() > 0 ==> pr[0] == 59) by {
        if v.params.len() > 0 {
            assert(pr == seq![59u8] + crate::param::render_spec(v.params[0])
                + crate::param::list_render_spec(v.params.drop_first()));
        }
    }
    let hend = hstart + hl0;
    match v.uri.port {
        Some(p) => {
            let ds = dec_str(p as int);
            crate::scan::lemma_dec_str_val(p as int);
            assert(hr == host + (seq![58u8] + ds));
            assert(hl == hl0 + 1 + ds.len());
            assert(s[hend] == hr[hl0]);
            assert(hr[hl0] == 58);
            crate::scan::lemma_find3_exact(s, hstart, hend, 58, 59, 59);
            assert(find3(s, hstart, 58, 59, 59) == hend);
            assert forall|j: int| 0 <= j < ds.len() implies (#[trigger] s[hend + 1 + j]) != 59 by {
                assert(hr[hl0 + 1 + j] == ds[j]);
                assert(is_digit(ds[j]));
            }
            let pe = hend + 1 + ds.len();
            assert(pe == 9 + tl + hl);
            assert(pe == s.len() || s[pe] == 59);
            crate::scan::lemma_find3_exact(s, hend + 1, pe, 59, 59, 59);
            assert(find3(s, hend + 1, 59, 59, 59) == pe);
            assert(s.subrange(hstart, hend) =~= host);
            assert(s.subrange(hend + 1, pe) =~= ds);
            assert(crate::uri::tokenize_spec(s, hstart) == Ok::<
                (crate::uri::TokView, int),
                SynView,
            >((crate::uri::TokView { host, port: Some(ds) }, pe)));
            assert(crate::uri::port_of(ds) == Some(p)) by {
                assert(ds.len() > 0 && all_digits(ds));
                assert(dec_val(ds) == p as int);
            }
            assert(crate::uri::host_port_of(crate::uri::TokView { host, port: Some(ds) })
                == Ok::<crate::uri::HostPortView, SemanticError>(v.uri));
            // The parameters start right after the port digits.
            assert(s.subrange(pe, s.len() as int) =~= pr);
            crate::param::lemma_params_round_trip(s, pe, v.params);
            let ts = crate::param::params_spec(s, pe)->Ok_0;
            let tok = TokView {
                version: crate::version::TokView { major, minor },
                transport: tr,
                uri: crate::uri::TokView { host, port: Some(ds) },
                params: ts,
            };
            assert(tokenize_spec(s) == Ok::<TokView, SynView>(tok));
            assert(via_of(tok) == Ok::<ViaView, SemanticError>(v)) by {
                assert(transport_of(tr) == v.transport);
                assert(crate::param::params_of(ts) == v.params);
            }
        },
        None => {
            assert(hr =~= host);
            assert(hl == hl0);
            assert(hend == s.len() || s[hend] == 59);
            crate::scan::lemma_find3_exact(s, hstart, hend, 58, 59, 59);
            assert(find3(s, hstart, 58, 59, 59) == hend);
            assert(!(hend < s.len() && s[hend] == 58));
            assert(s.subrange(hstart, hend) =~= host);
            assert(crate::uri::tokenize_spec(s, hstart) == Ok::<
                (crate::uri::TokView, int),
                SynView,
            >((crate::uri::TokView { host, port: None }, hend)));
            assert(crate::uri::host_port_of(crate::uri::TokView { host, port: None }) == Ok::<
                crate::uri::HostPortView,
                SemanticError,
            >(v.uri));
            assert(s.subrange(hend, s.len() as int) =~= pr);
            crate::param::lemma_params_round_trip(s, hend, v.params);
            let ts = crate::param::params_spec(s, hend)->Ok_0;
            let tok = TokView {
                version: crate::version::TokView { major, minor },
                transport: tr,
                uri: crate::uri::TokView { host, port: None },
                params: ts,
            };
            assert(tokenize_spec(s) == Ok::<TokView, SynView>(tok));
            assert(via_of(tok) == Ok::<ViaView, SemanticError>(v)) by {
                assert(transport_of(tr) == v.transport);
                assert(crate::param::params_of(ts) == v.params);
            }
        },
    }
}

} // verus!

verus! {

use crate::error::Error;

impl Via {
    /// Tokenizes and converts one Via header value: the convenience
    /// composition of the two pipeline phases for this header kind.
    pub fn try_from_value(value: &[u8]) -> (r: Result<Via, Error>)
        ensures
            r matches Ok(v) ==> tokenize_spec(value@) matches Ok(t) && via_of(t) == Ok::<
                ViaView,
                SemanticError,
            >(v@),
            r matches Err(err) ==> match err {
                Error::Syntax(e) => tokenize_spec(value@) == Err::<TokView, SynView>(e@),
                Error::Semantic(e) => tokenize_spec(value@) matches Ok(t) && via_of(t) == Err::<
                    ViaView,
                    SemanticError,
                >(e),
            },
    {
        match Tokenizer::tokenize(value) {
            Err(e) => Err(Error::Syntax(e)),
            Ok((_, t)) => match Self::parse(&t) {
                Err(e) => Err(Error::Semantic(e)),
                Ok(v) => Ok(v),
            },
        }
    }
}

} // verus!

verus! {

/// Whatever a Via tokenization yields, conversion yields a well-formed
/// value: the spans cannot contain the separators that delimited them.
pub proof fn lemma_converted_wf(s: Seq<u8>)
    ensures
        tokenize_spec(s) matches Ok(t) ==> via_of(t) matches Ok(v) ==> wf_spec(v),
{
    match crate::version::tokenize_spec(s, 0) {
        Err(_) => {},
        Ok((_, p)) => {
            crate::version::lemma_tokenize_ok_bounds(s, 0);
            if p < s.len() && s[p] == 47 {
                let sp = find3(s, p + 1, 32, 32, 32);
                crate::scan::lemma_find3_is(s, p + 1, 32, 32, 32);
                if sp != p + 1 && sp < s.len() {
                    let tr = s.subrange(p + 1, sp);
                    assert(tr.len() > 0);
                    assert(!has_byte(tr, 32)) by {
                        assert forall|j: int| 0 <= j < tr.len() implies (#[trigger] tr[j])
                            != 32 by {
                            assert(tr[j] == s[p + 1 + j]);
                        }
                    }
                    assert(transport_wf_spec(transport_of(tr)));
                    match crate::uri::tokenize_spec(s, sp + 1) {
                        Err(_) => {},
                        Ok((hp, q)) => {
                            let h = find3(s, sp + 1, 58, 59, 59);
                            crate::scan::lemma_find3_is(s, sp + 1, 58, 59, 59);
                            assert(hp.host == s.subrange(sp + 1, h));
                            assert(hp.host.len() > 0);
                            assert(!has_byte(hp.host, 58) && !has_byte(hp.host, 59)) by {
                                assert forall|j: int|
                                    0 <= j < hp.host.len() implies (#[trigger] hp.host[j]) != 58
                                    && hp.host[j] != 59 by {
                                    assert(hp.host[j] == s[sp + 1 + j]);
                                }
                            }
                            lemma_uri_tok_bounds(s, sp + 1);
                            crate::param::lemma_params_tok_wf(s, q);
                        },
                    }
                }
            }
        },
    }
}

/// For every Via header text that tokenizes and converts, rendering the
/// converted value and tokenizing and converting again yields an equal
/// value: the full two-phase round trip loses nothing.
pub proof fn lemma_via_text_round_trip(s: Seq<u8>)
    ensures
        tokenize_spec(s) matches Ok(t) ==> via_of(t) matches Ok(v) ==> tokenize_spec(
            render_spec(v),
        ) matches Ok(t2) && via_of(t2) == Ok::<ViaView, SemanticError>(v),
{
    match tokenize_spec(s) {
        Err(_) => {},
        Ok(t) => match via_of(t) {
            Err(_) => {},
            Ok(v) => {
                lemma_converted_wf(s);
                lemma_via_round_trip(v);
            },
        },
    }
}

} // verus!
