use vstd::prelude::*;
use crate::strutil::push_char;

verus! {

/// Errors raised while reading or writing a record.
///
/// `MissingField` and `UnknownField` carry the record-type name and the
/// field or tag involved; `FromStr` wraps a raw text value that a converter
/// rejected; `Parser` passes a tokenizer failure through unchanged.
#[derive(Debug, Clone, PartialEq, Eq)]
pub enum XmlError {
    MissingField { name: String, field: String },
    UnknownField { name: String, field: String },
    FromStr(String),
    UnexpectedToken(String),
    UnexpectedEof,
    Parser(String),
}

/// Mathematical shadow of `XmlError`, over sequences of characters.
pub enum ErrV {
    MissingField { name: Seq<char>, field: Seq<char> },
    UnknownField { name: Seq<char>, field: Seq<char> },
    FromStr(Seq<char>),
    UnexpectedToken(Seq<char>),
    UnexpectedEof,
    Parser(Seq<char>),
}

pub open spec fn err_view(e: XmlError) -> ErrV {
    match e {
        XmlError::MissingField { name, field } => ErrV::MissingField { name: name@, field: field@ },
        XmlError::UnknownField { name, field } => ErrV::UnknownField { name: name@, field: field@ },
        XmlError::FromStr(s) => ErrV::FromStr(s@),
        XmlError::UnexpectedToken(s) => ErrV::UnexpectedToken(s@),
        XmlError::UnexpectedEof => ErrV::UnexpectedEof,
        XmlError::Parser(s) => ErrV::Parser(s@),
    }
}

/// ` in element "`, joining a field name to its record name in a report.
pub open spec fn msg_in_element() -> Seq<char> {
    seq!['"', ' ', 'i', 'n', ' ', 'e', 'l', 'e', 'm', 'e', 'n', 't', ' ', '"']
}

/// The report each error renders to, character for character.
pub open spec fn spec_message(e: ErrV) -> Seq<char> {
    match e {
        ErrV::MissingField { name, field } => seq![
            'm', 'i', 's', 's', 'i', 'n', 'g', ' ', 'f', 'i', 'e', 'l', 'd', ' ', '"',
        ] + field + msg_in_element() + name + seq!['"'],
        ErrV::UnknownField { name, field } => seq![
            'u', 'n', 'k', 'n', 'o', 'w', 'n', ' ', 'f', 'i', 'e', 'l', 'd', ' ', '"',
        ] + field + msg_in_element() + name + seq!['"'],
        ErrV::FromStr(raw) => seq![
            'f', 'a', 'i', 'l', 'e', 'd', ' ', 't', 'o', ' ', 'p', 'a', 'r', 's', 'e', ' ', 'v',
            'a', 'l', 'u', 'e', ' ', 'f', 'r', 'o', 'm', ' ', '"',
        ] + raw + seq!['"'],
        ErrV::UnexpectedToken(t) => seq![
            'u', 'n', 'e', 'x', 'p', 'e', 'c', 't', 'e', 'd', ' ', 't', 'o', 'k', 'e', 'n', ' ',
            '"',
        ] + t + seq!['"'],
        ErrV::UnexpectedEof => seq![
            'u', 'n', 'e', 'x', 'p', 'e', 'c', 't', 'e', 'd', ' ', 'e', 'n', 'd', ' ', 'o', 'f',
            ' ', 'i', 'n', 'p', 'u', 't',
        ],
        ErrV::Parser(m) => seq![
            'p', 'a', 'r', 's', 'e', 'r', ' ', 'e', 'r', 'r', 'o', 'r', ':', ' ',
        ] + m,
    }
}

impl XmlError {
    /// A short human-readable description of the error, as `spec_message`
    /// renders it.
    pub fn message(&self) -> (r: String)
        ensures
            r@ == spec_message(err_view(*self)),
    {
        match self {
            XmlError::MissingField { name, field } => {
                let mut s = String::new();
                s.append("missing field \"");
                s.append(field.as_str());
                s.append("\" in element \"");
                s.append(name.as_str());
                push_char(&mut s, '"');
                proof {
                    reveal_strlit("missing field \"");
                    reveal_strlit("\" in element \"");
                    assert("missing field \""@ =~= seq![
                        'm', 'i', 's', 's', 'i', 'n', 'g', ' ', 'f', 'i', 'e', 'l', 'd', ' ', '"',
                    ]);
                    assert("\" in element \""@ =~= msg_in_element());
                    assert(s@ =~= spec_message(err_view(*self)));
                }
                s
            },
            XmlError::UnknownField { name, field } => {
                let mut s = String::new();
                s.append("unknown field \"");
                s.append(field.as_str());
                s.append("\" in element \"");
                s.append(name.as_str());
                push_char(&mut s, '"');
                proof {
                    reveal_strlit("unknown field \"");
                    reveal_strlit("\" in element \"");
                    assert("unknown field \""@ =~= seq![
                        'u', 'n', 'k', 'n', 'o', 'w', 'n', ' ', 'f', 'i', 'e', 'l', 'd', ' ', '"',
                    ]);
                    assert("\" in element \""@ =~= msg_in_element());
                    assert(s@ =~= spec_message(err_view(*self)));
                }
                s
            },
            XmlError::FromStr(raw) => {
                let mut s = String::new();
                s.append("failed to parse value from \"");
                s.append(raw.as_str());
                push_char(&mut s, '"');
                proof {
                    reveal_strlit("failed to parse value from \"");
                    assert("failed to parse value from \""@ =~= seq![
                        'f', 'a', 'i', 'l', 'e', 'd', ' ', 't', 'o', ' ', 'p', 'a', 'r', 's', 'e',
                        ' ', 'v', 'a', 'l', 'u', 'e', ' ', 'f', 'r', 'o', 'm', ' ', '"',
                    ]);
                    assert(s@ =~= spec_message(err_view(*self)));
                }
                s
            },
            XmlError::UnexpectedToken(t) => {
                let mut s = String::new();
                s.append("unexpected token \"");
                s.append(t.as_str());
                push_char(&mut s, '"');
                proof {
                    reveal_strlit("unexpected token \"");
                    assert("unexpected token \""@ =~= seq![
                        'u', 'n', 'e', 'x', 'p', 'e', 'c', 't', 'e', 'd', ' ', 't', 'o', 'k', 'e',
                        'n', ' ', '"',
                    ]);
                    assert(s@ =~= spec_message(err_view(*self)));
                }
                s
            },
            XmlError::UnexpectedEof => {
                let mut s = String::new();
                s.append("unexpected end of input");
                proof {
                    reveal_strlit("unexpected end of input");
                    assert("unexpected end of input"@ =~= seq![
                        'u', 'n', 'e', 'x', 'p', 'e', 'c', 't', 'e', 'd', ' ', 'e', 'n', 'd', ' ',
                        'o', 'f', ' ', 'i', 'n', 'p', 'u', 't',
                    ]);
                    assert(s@ =~= spec_message(err_view(*self)));
                }
                s
            },
            XmlError::Parser(m) => {
                let mut s = String::new();
                s.append("parser error: ");
                s.append(m.as_str());
                proof {
                    reveal_strlit("parser error: ");
                    assert("parser error: "@ =~= seq![
                        'p', 'a', 'r', 's', 'e', 'r', ' ', 'e', 'r', 'r', 'o', 'r', ':', ' ',
                    ]);
                    assert(s@ =~= spec_message(err_view(*self)));
                }
                s
            },
        }
    }
}

} // verus!
