use vstd::prelude::*;
use crate::err::{XmlError, err_view};
use crate::escape::{spec_unescape, xml_unescape};
use crate::model::{RecordType, RecordValue, rv_view};
use crate::read::{RRes, r_record, spec_read_record};
use crate::token::{Token, TokenV, toks_view};
use self::RawEvent::{Attr, Cdata, EndClose, EndEmpty, EndOpen, Skip, Start, Text};
use xmlparser::ElementEnd as XE;
use xmlparser::Token as XT;

verus! {

/// One event as the tokenizer hands it over: names still split into prefix
/// and local part, attribute values and text still escaped.
#[derive(Debug, Clone, PartialEq)]
pub enum RawEvent {
    Start(String, String),
    Attr(String, String, String),
    EndOpen,
    EndEmpty,
    EndClose(String, String),
    Text(String),
    Cdata(String),
    Skip,
}

/// Holds the outside tokenizer; opaque to verification, spoken for only
/// through the two trusted functions below.
#[verifier::external_body]
struct TokenSource<'a> {
    inner: xmlparser::Tokenizer<'a>,
}

#[verifier::external_type_specification]
#[verifier::external_body]
pub struct ExStrSpan<'a>(xmlparser::StrSpan<'a>);

/// Relies on `StrSpan::as_str`: the text the span covers.
#[verifier::external_body]
fn sp(s: xmlparser::StrSpan<'_>) -> String {
    s.as_str().to_owned()
}

/// Relies on `Tokenizer::from(&str)`: builds a tokenizer over the text.
#[verifier::external_body]
fn tokenizer_new<'a>(text: &'a str) -> TokenSource<'a> {
    TokenSource { inner: xmlparser::Tokenizer::from(text) }
}

/// Relies on `Tokenizer::next`: the next token of the document, `None` at
/// the end, or the tokenizer's own error. Declarations, comments,
/// processing instructions and DTD material come back as `Skip`.
#[verifier::external_body]
fn tokenizer_next(t: &mut TokenSource) -> (r: Option<Result<RawEvent, String>>) {
    Some(match t.inner.next()? {
        Err(e) => Err(e.to_string()),
        Ok(k) => Ok(match k {
            XT::ElementStart { prefix, local, .. } => Start(sp(prefix), sp(local)),
            XT::Attribute { prefix, local, value, .. } => Attr(sp(prefix), sp(local), sp(value)),
            XT::ElementEnd { end: XE::Open, .. } => EndOpen,
            XT::ElementEnd { end: XE::Empty, .. } => EndEmpty,
            XT::ElementEnd { end: XE::Close(p, l), .. } => EndClose(sp(p), sp(l)),
            XT::Text { text } => Text(sp(text)),
            XT::Cdata { text, .. } => Cdata(sp(text)),
            _ => Skip,
        }),
    })
}

/// The raw events the tokenizer yields for a document: a function of the
/// text alone, in every process and on every machine.
pub uninterp spec fn events_of(text: Seq<char>) -> Seq<RawEvent>;

/// Relies on `Tokenizer::from(&str)` and `Tokenizer::next`, called to
/// exhaustion: on success the events of the document, named `events_of`;
/// the tokenizer reports its own failures as values and terminates on
/// every input.
#[verifier::external_body]
fn collect_events(text: &str) -> (r: Result<Vec<RawEvent>, XmlError>)
    ensures
        (r matches Ok(evs) ==> evs@ == events_of(text@)),
        (r matches Err(e) ==> e matches XmlError::Parser(_)),
{
    let mut tk = tokenizer_new(text);
    let mut evs: Vec<RawEvent> = Vec::new();
    loop {
        match tokenizer_next(&mut tk) {
            None => return Ok(evs),
            Some(Err(msg)) => return Err(XmlError::Parser(msg)),
            Some(Ok(ev)) => evs.push(ev),
        }
    }
}

/// A tag or attribute name with its namespace prefix joined back on.
pub open spec fn qname(prefix: Seq<char>, local: Seq<char>) -> Seq<char> {
    if prefix.len() == 0 {
        local
    } else {
        prefix + seq![':'] + local
    }
}

/// The logical tokens of a raw event stream: names joined, attribute
/// values and text unescaped, non-element material dropped; `None` when an
/// entity cannot be unescaped.
pub open spec fn spec_decode(evs: Seq<RawEvent>, i: int) -> Option<Seq<TokenV>>
    decreases evs.len() - i,
{
    if i < 0 || i >= evs.len() {
        Some(Seq::empty())
    } else {
        let rest = spec_decode(evs, i + 1);
        match evs[i] {
            RawEvent::Start(p, l) => match rest {
                Some(ts) => Some(seq![TokenV::Start(qname(p@, l@))] + ts),
                None => None,
            },
            RawEvent::Attr(p, l, v) => match spec_unescape(v@) {
                Some(u) => match rest {
                    Some(ts) => Some(seq![TokenV::Attr(qname(p@, l@), u)] + ts),
                    None => None,
                },
                None => None,
            },
            RawEvent::EndOpen => match rest {
                Some(ts) => Some(seq![TokenV::EndOpen] + ts),
                None => None,
            },
            RawEvent::EndEmpty => match rest {
                Some(ts) => Some(seq![TokenV::EndEmpty] + ts),
                None => None,
            },
            RawEvent::EndClose(p, l) => match rest {
                Some(ts) => Some(seq![TokenV::EndClose(qname(p@, l@))] + ts),
                None => None,
            },
            RawEvent::Text(s) => match spec_unescape(s@) {
                Some(u) => match rest {
                    Some(ts) => Some(seq![TokenV::Text(u)] + ts),
                    None => None,
                },
                None => None,
            },
            RawEvent::Cdata(s) => match rest {
                Some(ts) => Some(seq![TokenV::Cdata(s@)] + ts),
                None => None,
            },
            RawEvent::Skip => rest,
        }
    }
}

fn qname_exec(prefix: &String, local: &String) -> (r: String)
    ensures
        r@ == qname(prefix@, local@),
{
    if prefix.as_str().is_empty() {
        local.clone()
    } else {
        let mut out = prefix.clone();
        out.append(":");
        out.append(local.as_str());
        proof {
            reveal_strlit(":");
            assert(":"@ =~= seq![':']);
            assert(out@ =~= prefix@ + seq![':'] + local@);
        }
        out
    }
}

/// Turns raw events into logical tokens.
fn decode_from(evs: &Vec<RawEvent>, i: usize) -> (r: Result<Vec<Token>, XmlError>)
    requires
        i <= evs@.len(),
    ensures
        (r matches Ok(ts) ==> spec_decode(evs@, i as int) == Some(toks_view(ts@))),
        (r matches Err(e) ==> spec_decode(evs@, i as int) is None && e matches XmlError::Parser(
            _,
        )),
    decreases evs@.len() - i,
{
    if i >= evs.len() {
        let ts: Vec<Token> = Vec::new();
        proof {
            assert(toks_view(ts@) =~= Seq::<TokenV>::empty());
        }
        return Ok(ts);
    }
    let head: Option<Token> = match &evs[i] {
        RawEvent::Start(p, l) => Some(Token::Start(qname_exec(p, l))),
        RawEvent::Attr(p, l, v) => {
            match xml_unescape(v.as_str()) {
                Ok(u) => Some(Token::Attr(qname_exec(p, l), u)),
                Err(e) => {
                    return Err(e);
                },
            }
        },
        RawEvent::EndOpen => Some(Token::EndOpen),
        RawEvent::EndEmpty => Some(Token::EndEmpty),
        RawEvent::EndClose(p, l) => Some(Token::EndClose(qname_exec(p, l))),
        RawEvent::Text(s) => {
            match xml_unescape(s.as_str()) {
                Ok(u) => Some(Token::Text(u)),
                Err(e) => {
                    return Err(e);
                },
            }
        },
        RawEvent::Cdata(s) => Some(Token::Cdata(s.clone())),
        RawEvent::Skip => None,
    };
    match decode_from(evs, i + 1) {
        Ok(mut rest) => {
            match head {
                Some(t) => {
                    let ghost pre = rest@;
                    rest.insert(0, t);
                    proof {
                        assert(toks_view(rest@) =~= seq![crate::token::token_view(rest@[0])]
                            + toks_view(pre));
                    }
                    Ok(rest)
                },
                None => Ok(rest),
            }
        },
        Err(e) => Err(e),
    }
}

/// Tokenizes a document: the tokenizer's events, decoded to logical
/// tokens by joining names, unescaping values and dropping non-element
/// material.
pub fn tokenize(text: &str) -> (r: Result<Vec<Token>, XmlError>)
    ensures
        (r matches Ok(ts) ==> spec_decode(events_of(text@), 0) == Some(toks_view(ts@))),
        (r matches Err(e) ==> e matches XmlError::Parser(_)),
{
    match collect_events(text) {
        Ok(evs) => decode_from(&evs, 0),
        Err(e) => Err(e),
    }
}

/// Reads one record of the given type from an XML document held in
/// memory: the read engine applied to the document's decoded tokens. A
/// `Parser` error is the tokenizer's own failure or an unrecognized
/// entity; every other outcome is exactly what `spec_read_record` says of
/// the decoded token stream.
pub fn from_xml_str(rt: &RecordType, text: &str) -> (r: Result<RecordValue, XmlError>)
    ensures
        (r matches Ok(v) ==> (spec_decode(events_of(text@), 0) matches Some(ts)
            && spec_read_record(*rt, ts, 0) matches RRes::Good(vv, _) && vv == rv_view(v))),
        (r matches Err(e) ==> (e matches XmlError::Parser(_) || (spec_decode(
            events_of(text@),
            0,
        ) matches Some(ts) && spec_read_record(*rt, ts, 0) == RRes::Bad(err_view(e))))),
{
    match tokenize(text) {
        Ok(toks) => {
            match r_record(rt, &toks, 0) {
                Ok((v, _)) => Ok(v),
                Err(e) => Err(e),
            }
        },
        Err(e) => Err(e),
    }
}

} // verus!
