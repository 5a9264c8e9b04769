use vstd::prelude::*;
use crate::err::XmlError;
use crate::strutil::push_char;

verus! {

/// The expansion of one character under XML escaping.
pub open spec fn escape_char(c: char) -> Seq<char> {
    if c == '&' {
        seq!['&', 'a', 'm', 'p', ';']
    } else if c == '<' {
        seq!['&', 'l', 't', ';']
    } else if c == '>' {
        seq!['&', 'g', 't', ';']
    } else if c == '"' {
        seq!['&', 'q', 'u', 'o', 't', ';']
    } else if c == '\'' {
        seq!['&', 'a', 'p', 'o', 's', ';']
    } else {
        seq![c]
    }
}

/// The text with the five XML-special characters replaced by entities.
pub open spec fn spec_escape(s: Seq<char>) -> Seq<char>
    decreases s.len(),
{
    if s.len() == 0 {
        Seq::empty()
    } else {
        spec_escape(s.drop_last()) + escape_char(s.last())
    }
}

/// The text with the five named entities replaced by their characters;
/// `None` when an `&` is not followed by a recognized entity.
pub open spec fn spec_unescape(s: Seq<char>) -> Option<Seq<char>>
    decreases s.len(),
{
    if s.len() == 0 {
        Some(Seq::empty())
    } else if s[0] != '&' {
        match spec_unescape(s.skip(1)) {
            Some(t) => Some(seq![s[0]] + t),
            None => None,
        }
    } else if s.len() >= 5 && s.subrange(0, 5) == seq!['&', 'a', 'm', 'p', ';'] {
        match spec_unescape(s.skip(5)) {
            Some(t) => Some(seq!['&'] + t),
            None => None,
        }
    } else if s.len() >= 4 && s.subrange(0, 4) == seq!['&', 'l', 't', ';'] {
        match spec_unescape(s.skip(4)) {
            Some(t) => Some(seq!['<'] + t),
            None => None,
        }
    } else if s.len() >= 4 && s.subrange(0, 4) == seq!['&', 'g', 't', ';'] {
        match spec_unescape(s.skip(4)) {
            Some(t) => Some(seq!['>'] + t),
            None => None,
        }
    } else if s.len() >= 6 && s.subrange(0, 6) == seq!['&', 'q', 'u', 'o', 't', ';'] {
        match spec_unescape(s.skip(6)) {
            Some(t) => Some(seq!['"'] + t),
            None => None,
        }
    } else if s.len() >= 6 && s.subrange(0, 6) == seq!['&', 'a', 'p', 'o', 's', ';'] {
        match spec_unescape(s.skip(6)) {
            Some(t) => Some(seq!['\''] + t),
            None => None,
        }
    } else {
        None
    }
}

/// Escapes `&`, `<`, `>`, `"` and `'` as XML entities.
pub fn xml_escape(s: &str) -> (r: String)
    ensures
        r@ == spec_escape(s@),
{
    let n = s.unicode_len();
    let mut out = String::new();
    let mut i: usize = 0;
    while i < n
        invariant
            n == s@.len(),
            i <= n,
            out@ == spec_escape(s@.take(i as int)),
        decreases n - i,
    {
        let c = s.get_char(i);
        let ghost prev = out@;
        if c == '&' {
            out.append("&amp;");
            proof {
                reveal_strlit("&amp;");
                assert("&amp;"@ =~= seq!['&', 'a', 'm', 'p', ';']);
            }
        } else if c == '<' {
            out.append("&lt;");
            proof {
                reveal_strlit("&lt;");
                assert("&lt;"@ =~= seq!['&', 'l', 't', ';']);
            }
        } else if c == '>' {
            out.append("&gt;");
            proof {
                reveal_strlit("&gt;");
                assert("&gt;"@ =~= seq!['&', 'g', 't', ';']);
            }
        } else if c == '"' {
            out.append("&quot;");
            proof {
                reveal_strlit("&quot;");
                assert("&quot;"@ =~= seq!['&', 'q', 'u', 'o', 't', ';']);
            }
        } else if c == '\'' {
            out.append("&apos;");
            proof {
                reveal_strlit("&apos;");
                assert("&apos;"@ =~= seq!['&', 'a', 'p', 'o', 's', ';']);
            }
        } else {
            push_char(&mut out, c);
            proof {
                assert(out@ =~= prev + escape_char(c));
            }
        }
        proof {
            assert(s@.take(i + 1).drop_last() =~= s@.take(i as int));
            assert(s@.take(i + 1).last() == s@[i as int]);
        }
        i = i + 1;
    }
    proof {
        assert(s@.take(n as int) =~= s@);
    }
    out
}

/// True exactly when `pat` occurs in `s` at position `i`.
pub fn match_at(s: &str, i: usize, pat: &str) -> (r: bool)
    requires
        i <= s@.len(),
    ensures
        r == (i + pat@.len() <= s@.len() && s@.subrange(i as int, i + pat@.len()) == pat@),
{
    let n = s.unicode_len();
    let m = pat.unicode_len();
    if m > n - i {
        return false;
    }
    let mut j: usize = 0;
    while j < m
        invariant
            n == s@.len(),
            m == pat@.len(),
            i + m <= n,
            j <= m,
            forall|k: int| 0 <= k < j ==> s@[i + k] == pat@[k],
        decreases m - j,
    {
        if s.get_char(i + j) != pat.get_char(j) {
            proof {
                assert(s@.subrange(i as int, i + pat@.len())[j as int] == s@[i + j]);
            }
            return false;
        }
        j = j + 1;
    }
    proof {
        assert(s@.subrange(i as int, i + pat@.len()) =~= pat@);
    }
    true
}

/// Replaces the five named XML entities by their characters; any other use
/// of `&` is rejected.
pub fn xml_unescape(s: &str) -> (r: Result<String, XmlError>)
    ensures
        (r matches Ok(t) ==> spec_unescape(s@) == Some(t@)),
        (r matches Err(e) ==> spec_unescape(s@) == None::<Seq<char>> && e matches XmlError::Parser(
            _,
        )),
{
    let n = s.unicode_len();
    let mut out = String::new();
    let mut i: usize = 0;
    proof {
        reveal_strlit("&amp;");
        reveal_strlit("&lt;");
        reveal_strlit("&gt;");
        reveal_strlit("&quot;");
        reveal_strlit("&apos;");
        assert(s@.skip(0) =~= s@);
        if let Some(t) = spec_unescape(s@) {
            assert(out@ + t =~= t);
        }
    }
    while i < n
        invariant
            n == s@.len(),
            i <= n,
            "&amp;"@ =~= seq!['&', 'a', 'm', 'p', ';'],
            "&lt;"@ =~= seq!['&', 'l', 't', ';'],
            "&gt;"@ =~= seq!['&', 'g', 't', ';'],
            "&quot;"@ =~= seq!['&', 'q', 'u', 'o', 't', ';'],
            "&apos;"@ =~= seq!['&', 'a', 'p', 'o', 's', ';'],
            spec_unescape(s@) == (match spec_unescape(s@.skip(i as int)) {
                Some(t) => Some(out@ + t),
                None => None::<Seq<char>>,
            }),
        decreases n - i,
    {
        let ghost rest = s@.skip(i as int);
        let ghost prev = out@;
        let c = s.get_char(i);
        proof {
            assert(rest[0] == s@[i as int]);
        }
        if c != '&' {
            push_char(&mut out, c);
            proof {
                assert(rest.skip(1) =~= s@.skip(i + 1));
                if let Some(t) = spec_unescape(s@.skip(i + 1)) {
                    assert(prev + (seq![c] + t) =~= out@ + t);
                }
            }
            i = i + 1;
        } else if match_at(s, i, "&amp;") {
            push_char(&mut out, '&');
            proof {
                assert(rest.subrange(0, 5) =~= s@.subrange(i as int, i + 5));
                assert(rest.skip(5) =~= s@.skip(i + 5));
                if let Some(t) = spec_unescape(s@.skip(i + 5)) {
                    assert(prev + (seq!['&'] + t) =~= out@ + t);
                }
            }
            i = i + 5;
        } else if match_at(s, i, "&lt;") {
            push_char(&mut out, '<');
            proof {
                if rest.len() >= 5 {
                    assert(rest.subrange(0, 5) =~= s@.subrange(i as int, i + 5));
                }
                assert(rest.subrange(0, 4) =~= s@.subrange(i as int, i + 4));
                assert(rest.skip(4) =~= s@.skip(i + 4));
                if let Some(t) = spec_unescape(s@.skip(i + 4)) {
                    assert(prev + (seq!['<'] + t) =~= out@ + t);
                }
            }
            i = i + 4;
        } else if match_at(s, i, "&gt;") {
            push_char(&mut out, '>');
            proof {
                if rest.len() >= 5 {
                    assert(rest.subrange(0, 5) =~= s@.subrange(i as int, i + 5));
                }
                assert(rest.subrange(0, 4) =~= s@.subrange(i as int, i + 4));
                assert(rest.skip(4) =~= s@.skip(i + 4));
                if let Some(t) = spec_unescape(s@.skip(i + 4)) {
                    assert(prev + (seq!['>'] + t) =~= out@ + t);
                }
            }
            i = i + 4;
        } else if match_at(s, i, "&quot;") {
            push_char(&mut out, '"');
            proof {
                if rest.len() >= 5 {
                    assert(rest.subrange(0, 5) =~= s@.subrange(i as int, i + 5));
                }
                if rest.len() >= 4 {
                    assert(rest.subrange(0, 4) =~= s@.subrange(i as int, i + 4));
                }
                assert(rest.subrange(0, 6) =~= s@.subrange(i as int, i + 6));
                assert(rest.skip(6) =~= s@.skip(i + 6));
                if let Some(t) = spec_unescape(s@.skip(i + 6)) {
                    assert(prev + (seq!['"'] + t) =~= out@ + t);
                }
            }
            i = i + 6;
        } else if match_at(s, i, "&apos;") {
            push_char(&mut out, '\'');
            proof {
                if rest.len() >= 5 {
                    assert(rest.subrange(0, 5) =~= s@.subrange(i as int, i + 5));
                }
                if rest.len() >= 4 {
                    assert(rest.subrange(0, 4) =~= s@.subrange(i as int, i + 4));
                }
                assert(rest.subrange(0, 6) =~= s@.subrange(i as int, i + 6));
                assert(rest.skip(6) =~= s@.skip(i + 6));
                if let Some(t) = spec_unescape(s@.skip(i + 6)) {
                    assert(prev + (seq!['\''] + t) =~= out@ + t);
                }
            }
            i = i + 6;
        } else {
            proof {
                if rest.len() >= 4 {
                    assert(rest.subrange(0, 4) =~= s@.subrange(i as int, i + 4));
                }
                if rest.len() >= 5 {
                    assert(rest.subrange(0, 5) =~= s@.subrange(i as int, i + 5));
                }
                if rest.len() >= 6 {
                    assert(rest.subrange(0, 6) =~= s@.subrange(i as int, i + 6));
                }
                assert(spec_unescape(rest) == None::<Seq<char>>);
            }
            return Err(XmlError::Parser(String::from_str("unrecognized entity")));
        }
    }
    proof {
        assert(s@.skip(n as int) =~= Seq::<char>::empty());
        if let Some(t) = spec_unescape(s@.skip(n as int)) {
            assert(out@ + t =~= out@);
        }
    }
    Ok(out)
}

/// Escaping followed by unescaping restores the original text.
pub proof fn lemma_unescape_escape(s: Seq<char>)
    ensures
        spec_unescape(spec_escape(s)) == Some(s),
    decreases s.len(),
{
    if s.len() == 0 {
    } else {
        let p = s.drop_last();
        let c = s.last();
        lemma_unescape_escape(p);
        assert(spec_unescape(escape_char(c)) == Some(seq![c])) by {
            lemma_unescape_char_append(c, Seq::empty(), Seq::empty());
            assert(escape_char(c) + Seq::<char>::empty() =~= escape_char(c));
            assert(seq![c] + Seq::<char>::empty() =~= seq![c]);
        }
        lemma_unescape_suffix(p, escape_char(c), seq![c]);
        assert(p + seq![c] =~= s);
    }
}

/// Unescaping the escape of `pa` followed by `b` splits at the boundary.
proof fn lemma_unescape_suffix(pa: Seq<char>, b: Seq<char>, ub: Seq<char>)
    requires
        spec_unescape(b) == Some(ub),
    ensures
        spec_unescape(spec_escape(pa) + b) == Some(pa + ub),
    decreases pa.len(),
{
    if pa.len() == 0 {
        assert(spec_escape(pa) + b =~= b);
        assert(pa + ub =~= ub);
    } else {
        let p0 = pa.drop_last();
        let cl = pa.last();
        lemma_unescape_char_append(cl, b, ub);
        lemma_unescape_suffix(p0, escape_char(cl) + b, seq![cl] + ub);
        assert(spec_escape(p0) + (escape_char(cl) + b) =~= spec_escape(pa) + b);
        assert(p0 + (seq![cl] + ub) =~= pa + ub);
    }
}

/// Unescaping one escaped character followed by more text.
proof fn lemma_unescape_char_append(c: char, b: Seq<char>, ub: Seq<char>)
    requires
        spec_unescape(b) == Some(ub),
    ensures
        spec_unescape(escape_char(c) + b) == Some(seq![c] + ub),
{
    let e = escape_char(c);
    let s = e + b;
    if c == '&' {
        assert(s.subrange(0, 5) =~= seq!['&', 'a', 'm', 'p', ';']);
        assert(s.skip(5) =~= b);
    } else if c == '<' {
        lemma_entity_shape(s, 'l', 't');
        assert(s.subrange(0, 4) =~= seq!['&', 'l', 't', ';']);
        assert(s.skip(4) =~= b);
    } else if c == '>' {
        lemma_entity_shape(s, 'g', 't');
        assert(s.subrange(0, 4) =~= seq!['&', 'g', 't', ';']);
        assert(s.skip(4) =~= b);
    } else if c == '"' {
        lemma_entity_shape(s, 'q', 'u');
        assert(s.subrange(0, 6) =~= seq!['&', 'q', 'u', 'o', 't', ';']);
        assert(s.skip(6) =~= b);
    } else if c == '\'' {
        lemma_entity_shape(s, 'a', 'p');
        assert(s.subrange(0, 6) =~= seq!['&', 'a', 'p', 'o', 's', ';']);
        assert(s.skip(6) =~= b);
    } else {
        assert(s[0] == c);
        assert(s.skip(1) =~= b);
    }
}

/// Knowing the second and third characters rules out the entities that do
/// not start that way.
proof fn lemma_entity_shape(s: Seq<char>, c1: char, c2: char)
    requires
        s.len() >= 3,
        s[1] == c1,
        s[2] == c2,
    ensures
        !(c1 == 'a' && c2 == 'm') ==> !(s.len() >= 5 && s.subrange(0, 5) == seq!['&', 'a', 'm', 'p', ';']),
        c1 != 'l' ==> !(s.len() >= 4 && s.subrange(0, 4) == seq!['&', 'l', 't', ';']),
        c1 != 'g' ==> !(s.len() >= 4 && s.subrange(0, 4) == seq!['&', 'g', 't', ';']),
        c1 != 'q' ==> !(s.len() >= 6 && s.subrange(0, 6) == seq!['&', 'q', 'u', 'o', 't', ';']),
        !(c1 == 'a' && c2 == 'p') ==> !(s.len() >= 6 && s.subrange(0, 6) == seq!['&', 'a', 'p', 'o', 's', ';']),
{
    if s.len() >= 5 && s.subrange(0, 5) == seq!['&', 'a', 'm', 'p', ';'] {
        assert(s.subrange(0, 5)[1] == s[1]);
        assert(s.subrange(0, 5)[2] == s[2]);
    }
    if s.len() >= 4 && s.subrange(0, 4) == seq!['&', 'l', 't', ';'] {
        assert(s.subrange(0, 4)[1] == s[1]);
    }
    if s.len() >= 4 && s.subrange(0, 4) == seq!['&', 'g', 't', ';'] {
        assert(s.subrange(0, 4)[1] == s[1]);
    }
    if s.len() >= 6 && s.subrange(0, 6) == seq!['&', 'q', 'u', 'o', 't', ';'] {
        assert(s.subrange(0, 6)[1] == s[1]);
    }
    if s.len() >= 6 && s.subrange(0, 6) == seq!['&', 'a', 'p', 'o', 's', ';'] {
        assert(s.subrange(0, 6)[1] == s[1]);
        assert(s.subrange(0, 6)[2] == s[2]);
    }
}

} // verus!
