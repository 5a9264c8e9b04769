use vstd::prelude::*;
use crate::escape::spec_escape;

verus! {

/// One logical XML token. Attribute values and text are held unescaped;
/// escaping happens only when tokens are rendered, and unescaping when raw
/// input is decoded.
#[derive(Debug, Clone, PartialEq)]
pub enum Token {
    /// `<tag`
    Start(String),
    /// `key="value"`
    Attr(String, String),
    /// `>`
    EndOpen,
    /// `/>`
    EndEmpty,
    /// `</tag>`
    EndClose(String),
    /// Character data.
    Text(String),
    /// A CDATA block, kept verbatim.
    Cdata(String),
}

/// Mathematical shadow of `Token`.
pub enum TokenV {
    Start(Seq<char>),
    Attr(Seq<char>, Seq<char>),
    EndOpen,
    EndEmpty,
    EndClose(Seq<char>),
    Text(Seq<char>),
    Cdata(Seq<char>),
}

pub open spec fn token_view(t: Token) -> TokenV {
    match t {
        Token::Start(s) => TokenV::Start(s@),
        Token::Attr(k, v) => TokenV::Attr(k@, v@),
        Token::EndOpen => TokenV::EndOpen,
        Token::EndEmpty => TokenV::EndEmpty,
        Token::EndClose(s) => TokenV::EndClose(s@),
        Token::Text(s) => TokenV::Text(s@),
        Token::Cdata(s) => TokenV::Cdata(s@),
    }
}

pub open spec fn toks_view(s: Seq<Token>) -> Seq<TokenV> {
    s.map_values(|t: Token| token_view(t))
}

/// The characters one token renders to.
pub open spec fn token_chars(t: TokenV) -> Seq<char> {
    match t {
        TokenV::Start(tag) => seq!['<'] + tag,
        TokenV::Attr(k, v) => seq![' '] + k + seq!['=', '"'] + spec_escape(v) + seq!['"'],
        TokenV::EndOpen => seq!['>'],
        TokenV::EndEmpty => seq!['/', '>'],
        TokenV::EndClose(tag) => seq!['<', '/'] + tag + seq!['>'],
        TokenV::Text(s) => spec_escape(s),
        TokenV::Cdata(s) => seq!['<', '!', '[', 'C', 'D', 'A', 'T', 'A', '['] + s + seq![
            ']',
            ']',
            '>',
        ],
    }
}

/// The characters a token sequence renders to.
pub open spec fn spec_render(toks: Seq<TokenV>) -> Seq<char>
    decreases toks.len(),
{
    if toks.len() == 0 {
        Seq::empty()
    } else {
        spec_render(toks.drop_last()) + token_chars(toks.last())
    }
}

pub proof fn lemma_render_push(toks: Seq<TokenV>, t: TokenV)
    ensures
        spec_render(toks.push(t)) == spec_render(toks) + token_chars(t),
{
    assert(toks.push(t).drop_last() =~= toks);
    assert(toks.push(t).last() == t);
}

} // verus!
