//! The `host [":" port]` sub-grammar of a URI.  Header kinds that embed an
//! address (Via, Contact, Route) compose this one tokenizer rather than
//! re-deriving it.  Conversion validates the port as an unsigned 16-bit
//! integer; the host bytes are kept verbatim.

use vstd::prelude::*;

verus! {

broadcast use crate::scan::lemma_find3_bounds;

use crate::error::{Rule, SemanticError, SynView, SyntaxError};
use crate::scan::{all_digits, dec_str, dec_val, find3, has_byte};

/// Borrowed spans of `host [":" port]`.
#[derive(Debug, Clone, Copy, PartialEq, Eq)]
pub struct Tokenizer<'a> {
    pub host: &'a [u8],
    pub port: Option<&'a [u8]>,
}

/// Ghost counterpart of the host-with-port tokenizer.
pub ghost struct TokView {
    pub host: Seq<u8>,
    pub port: Option<Seq<u8>>,
}

impl<'a> View for Tokenizer<'a> {
    type V = TokView;

    open spec fn view(&self) -> TokView {
        TokView {
            host: self.host@,
            port: match self.port {
                Some(p) => Some(p@),
                None => None,
            },
        }
    }
}

/// What tokenizing `host [":" port]` at index `i` yields: the spans and the
/// index of the byte that ended the scan (a `;` or the end of `s`), or the
/// failing position.  The host runs to the first `:` or `;`; a port runs to
/// the first `;`.
pub open spec fn tokenize_spec(s: Seq<u8>, i: int) -> Result<(TokView, int), SynView> {
    let h = find3(s, i, 58, 59, 59);
    if h == i {
        Err(SynView { rule: Rule::Host, pos: i })
    } else if h < s.len() && s[h] == 58 {
        let pe = find3(s, h + 1, 59, 59, 59);
        if pe == h + 1 {
            Err(SynView { rule: Rule::Port, pos: h + 1 })
        } else {
            Ok((TokView { host: s.subrange(i, h), port: Some(s.subrange(h + 1, pe)) }, pe))
        }
    } else {
        Ok((TokView { host: s.subrange(i, h), port: None }, h))
    }
}

impl<'a> Tokenizer<'a> {
    /// Tokenizes `host [":" port]` starting at index `i`; the scan stops at
    /// the first `;` (where a parameter list may begin) or the end of `s`.
    pub fn tokenize(s: &'a [u8], i: usize) -> (r: Result<(Tokenizer<'a>, usize), SyntaxError>)
        requires
            i <= s@.len(),
        ensures
            match r {
                Ok((t, j)) => tokenize_spec(s@, i as int) == Ok::<(TokView, int), SynView>(
                    (t@, j as int),
                ),
                Err(e) => tokenize_spec(s@, i as int) == Err::<(TokView, int), SynView>(e@),
            },
    {
        let n = s.len();
        let h = crate::scan::find3_from(s, i, 58, 59, 59);
        if h == i {
            return Err(SyntaxError { rule: Rule::Host, pos: i });
        }
        let host = vstd::slice::slice_subrange(s, i, h);
        if h < n && *vstd::slice::slice_index_get(s, h) == 58 {
            let pe = crate::scan::find3_from(s, h + 1, 59, 59, 59);
            if pe == h + 1 {
                return Err(SyntaxError { rule: Rule::Port, pos: h + 1 });
            }
            let port = vstd::slice::slice_subrange(s, h + 1, pe);
            Ok((Tokenizer { host, port: Some(port) }, pe))
        } else {
            Ok((Tokenizer { host, port: None }, h))
        }
    }
}

/// An owned host with an optional, validated port.
#[derive(Debug, Clone, PartialEq, Eq)]
pub struct HostWithPort {
    pub host: Vec<u8>,
    pub port: Option<u16>,
}

/// Ghost counterpart of `HostWithPort`.
pub ghost struct HostPortView {
    pub host: Seq<u8>,
    pub port: Option<u16>,
}

impl View for HostWithPort {
    type V = HostPortView;

    open spec fn view(&self) -> HostPortView {
        HostPortView { host: self.host@, port: self.port }
    }
}

/// The port number a digit span denotes, if it is a non-empty digit run
/// whose value fits in 16 bits.
pub open spec fn port_of(p: Seq<u8>) -> Option<u16> {
    if p.len() > 0 && all_digits(p) && dec_val(p) <= 65535 {
        Some(dec_val(p) as u16)
    } else {
        None
    }
}

/// The owned value a host-with-port tokenizer denotes: the host verbatim,
/// and the port parsed, a present-but-unparsable port being an error.
pub open spec fn host_port_of(t: TokView) -> Result<HostPortView, SemanticError> {
    match t.port {
        None => Ok(HostPortView { host: t.host, port: None }),
        Some(p) => match port_of(p) {
            Some(v) => Ok(HostPortView { host: t.host, port: Some(v) }),
            None => Err(SemanticError::Port),
        },
    }
}

impl HostWithPort {
    /// Converts a host-with-port tokenizer to its owned counterpart.
    pub fn parse(t: &Tokenizer<'_>) -> (r: Result<HostWithPort, SemanticError>)
        ensures
            match host_port_of(t@) {
                Ok(g) => r matches Ok(h) && h@ == g,
                Err(e) => r == Err::<HostWithPort, SemanticError>(e),
            },
    {
        let host = vstd::slice::slice_to_vec(t.host);
        match t.port {
            None => Ok(HostWithPort { host, port: None }),
            Some(p) => match crate::scan::parse_dec_u16(p) {
                Some(v) => Ok(HostWithPort { host, port: Some(v) }),
                None => Err(SemanticError::Port),
            },
        }
    }

    /// The wire text: the host verbatim, then `":"` and the port's canonical
    /// decimal digits when a port is present.
    pub fn render_onto(&self, out: &mut Vec<u8>)
        ensures
            final(out)@ == old(out)@ + render_spec(self@),
    {
        crate::scan::extend_bytes(out, self.host.as_slice());
        match self.port {
            Some(p) => {
                out.push(58);
                let ghost mid = out@;
                let digits = crate::scan::dec_u16(p);
                crate::scan::extend_bytes(out, digits.as_slice());
                proof {
                    assert(mid =~= old(out)@ + self@.host + seq![58u8]);
                    assert(out@ =~= old(out)@ + render_spec(self@));
                }
            },
            None => {
                proof {
                    assert(out@ =~= old(out)@ + render_spec(self@));
                }
            },
        }
    }
}

/// The wire text of a host with its optional port.
pub open spec fn render_spec(h: HostPortView) -> Seq<u8> {
    h.host + match h.port {
        Some(p) => seq![58u8] + dec_str(p as int),
        None => Seq::<u8>::empty(),
    }
}

/// The shape a host must have for its wire text to tokenize back to itself:
/// non-empty and free of the `:` and `;` separators.
pub open spec fn wf_spec(h: HostPortView) -> bool {
    h.host.len() > 0 && !has_byte(h.host, 58) && !has_byte(h.host, 59)
}

} // verus!
