use vstd::prelude::*;
use crate::convert::{display_scalar, spec_display};
use crate::escape::{spec_escape, xml_escape};
use crate::model::{MapEntry, Mapping, ScalarV, map_view};
use crate::token::{Token, TokenV, lemma_render_push, spec_render, token_chars, token_view, toks_view};

verus! {

/// The attribute tokens a `Prefix` mapping field writes: one attribute
/// `prefix:key` per entry, in stored (key-sorted) order.
pub open spec fn prefix_attr_tokens(prefix: Seq<char>, entries: Seq<(Seq<char>, ScalarV)>) -> Seq<
    TokenV,
>
    decreases entries.len(),
{
    if entries.len() == 0 {
        Seq::empty()
    } else {
        prefix_attr_tokens(prefix, entries.drop_last()) + seq![
            TokenV::Attr(
                prefix + seq![':'] + entries.last().0,
                spec_display(entries.last().1),
            ),
        ]
    }
}

/// The attribute tokens a `Startswith` mapping field writes: the empty key
/// becomes the bare `prefix` attribute.
pub open spec fn sw_attr_tokens(prefix: Seq<char>, entries: Seq<(Seq<char>, ScalarV)>) -> Seq<
    TokenV,
>
    decreases entries.len(),
{
    if entries.len() == 0 {
        Seq::empty()
    } else {
        sw_attr_tokens(prefix, entries.drop_last()) + seq![
            TokenV::Attr(
                if entries.last().0.len() == 0 {
                    prefix
                } else {
                    prefix + seq![':'] + entries.last().0
                },
                spec_display(entries.last().1),
            ),
        ]
    }
}

/// A sink that renders tokens as XML text into an in-memory buffer.
#[derive(Debug)]
pub struct XmlWriter {
    pub inner: String,
}

impl XmlWriter {
    pub fn new(inner: String) -> (r: XmlWriter)
        ensures
            r.inner@ == inner@,
    {
        XmlWriter { inner }
    }

    pub fn into_inner(self) -> (r: String)
        ensures
            r@ == self.inner@,
    {
        self.inner
    }

    /// Emits `<tag`, leaving the start tag open.
    pub fn write_element_start(&mut self, tag: &str)
        ensures
            final(self).inner@ == old(self).inner@ + token_chars(TokenV::Start(tag@)),
    {
        let ghost pre = self.inner@;
        self.inner.append("<");
        self.inner.append(tag);
        proof {
            reveal_strlit("<");
            assert("<"@ =~= seq!['<']);
            assert(pre + "<"@ + tag@ =~= pre + (seq!['<'] + tag@));
        }
    }

    /// Emits ` key="value"` with the value escaped.
    pub fn write_attribute(&mut self, key: &str, value: &str)
        ensures
            final(self).inner@ == old(self).inner@ + token_chars(TokenV::Attr(key@, value@)),
    {
        let ghost pre = self.inner@;
        self.inner.append(" ");
        self.inner.append(key);
        self.inner.append("=\"");
        let esc = xml_escape(value);
        self.inner.append(esc.as_str());
        self.inner.append("\"");
        proof {
            reveal_strlit(" ");
            reveal_strlit("=\"");
            reveal_strlit("\"");
            assert(" "@ =~= seq![' ']);
            assert("=\""@ =~= seq!['=', '"']);
            assert("\""@ =~= seq!['"']);
            assert(pre + " "@ + key@ + "=\""@ + spec_escape(value@) + "\""@ =~= pre + (seq![' ']
                + key@ + seq!['=', '"'] + spec_escape(value@) + seq!['"']));
        }
    }

    /// Emits escaped character data.
    pub fn write_text(&mut self, content: &str)
        ensures
            final(self).inner@ == old(self).inner@ + token_chars(TokenV::Text(content@)),
    {
        let esc = xml_escape(content);
        self.inner.append(esc.as_str());
    }

    /// Emits the content wrapped in CDATA delimiters, unescaped.
    pub fn write_cdata_text(&mut self, content: &str)
        ensures
            final(self).inner@ == old(self).inner@ + token_chars(TokenV::Cdata(content@)),
    {
        let ghost pre = self.inner@;
        self.inner.append("<![CDATA[");
        self.inner.append(content);
        self.inner.append("]]>");
        proof {
            reveal_strlit("<![CDATA[");
            reveal_strlit("]]>");
            assert("<![CDATA["@ =~= seq!['<', '!', '[', 'C', 'D', 'A', 'T', 'A', '[']);
            assert("]]>"@ =~= seq![']', ']', '>']);
            assert(pre + "<![CDATA["@ + content@ + "]]>"@ =~= pre + (seq![
                '<',
                '!',
                '[',
                'C',
                'D',
                'A',
                'T',
                'A',
                '[',
            ] + content@ + seq![']', ']', '>']));
        }
    }

    /// Emits `>`, closing a start tag that will have children or text.
    pub fn write_element_end_open(&mut self)
        ensures
            final(self).inner@ == old(self).inner@ + token_chars(TokenV::EndOpen),
    {
        let ghost pre = self.inner@;
        self.inner.append(">");
        proof {
            reveal_strlit(">");
            assert(">"@ =~= seq!['>']);
        }
    }

    /// Emits `<tag>content</tag>` for a flatten-text child.
    pub fn write_flatten_text(&mut self, tag: &str, content: &str, is_cdata: bool)
        ensures
            final(self).inner@ == old(self).inner@ + token_chars(TokenV::Start(tag@))
                + token_chars(TokenV::EndOpen) + (if is_cdata {
                token_chars(TokenV::Cdata(content@))
            } else {
                token_chars(TokenV::Text(content@))
            }) + token_chars(TokenV::EndClose(tag@)),
    {
        self.write_element_start(tag);
        self.write_element_end_open();
        if is_cdata {
            self.write_cdata_text(content);
        } else {
            self.write_text(content);
        }
        self.write_element_end_close(tag);
    }

    /// Emits one `prefix:key` attribute per mapping entry, in stored order.
    pub fn write_prefix(&mut self, tag: &str, content: &Mapping)
        ensures
            final(self).inner@ == old(self).inner@ + spec_render(
                prefix_attr_tokens(tag@, map_view(*content)),
            ),
    {
        let n = content.entries.len();
        let mut k: usize = 0;
        proof {
            assert(map_view(*content).take(0) =~= Seq::empty());
            assert(self.inner@ =~= self.inner@ + spec_render(
                prefix_attr_tokens(tag@, map_view(*content).take(0)),
            ));
        }
        while k < n
            invariant
                n == content.entries.len(),
                k <= n,
                map_view(*content).len() == n,
                self.inner@ == old(self).inner@ + spec_render(
                    prefix_attr_tokens(tag@, map_view(*content).take(k as int)),
                ),
            decreases n - k,
        {
            let e = &content.entries[k];
            let mut name = String::from_str(tag);
            name.append(":");
            name.append(e.key.as_str());
            let val = display_scalar(&e.val);
            self.write_attribute(name.as_str(), val.as_str());
            proof {
                reveal_strlit(":");
                assert(":"@ =~= seq![':']);
                assert(name@ =~= tag@ + seq![':'] + map_view(*content)[k as int].0);
                let mv = map_view(*content);
                assert(mv.take(k + 1).drop_last() =~= mv.take(k as int));
                assert(mv.take(k + 1).last() == mv[k as int]);
                assert(prefix_attr_tokens(tag@, mv.take(k + 1)) == prefix_attr_tokens(
                    tag@,
                    mv.take(k as int),
                ) + seq![TokenV::Attr(tag@ + seq![':'] + mv[k as int].0, spec_display(mv[k as int].1))]);
                lemma_render_push(
                    prefix_attr_tokens(tag@, mv.take(k as int)),
                    TokenV::Attr(tag@ + seq![':'] + mv[k as int].0, spec_display(mv[k as int].1)),
                );
                assert(prefix_attr_tokens(tag@, mv.take(k as int)).push(
                    TokenV::Attr(tag@ + seq![':'] + mv[k as int].0, spec_display(mv[k as int].1)),
                ) =~= prefix_attr_tokens(tag@, mv.take(k as int)) + seq![
                    TokenV::Attr(tag@ + seq![':'] + mv[k as int].0, spec_display(mv[k as int].1)),
                ]);
            }
            k = k + 1;
        }
        proof {
            assert(map_view(*content).take(n as int) =~= map_view(*content));
        }
    }

    /// Emits `</tag>`.
    pub fn write_element_end_close(&mut self, tag: &str)
        ensures
            final(self).inner@ == old(self).inner@ + token_chars(TokenV::EndClose(tag@)),
    {
        let ghost pre = self.inner@;
        self.inner.append("</");
        self.inner.append(tag);
        self.inner.append(">");
        proof {
            reveal_strlit("</");
            reveal_strlit(">");
            assert("</"@ =~= seq!['<', '/']);
            assert(">"@ =~= seq!['>']);
            assert(pre + "</"@ + tag@ + ">"@ =~= pre + (seq!['<', '/'] + tag@ + seq!['>']));
        }
    }

    /// Emits `/>`, self-closing the element.
    pub fn write_element_end_empty(&mut self)
        ensures
            final(self).inner@ == old(self).inner@ + token_chars(TokenV::EndEmpty),
    {
        let ghost pre = self.inner@;
        self.inner.append("/>");
        proof {
            reveal_strlit("/>");
            assert("/>"@ =~= seq!['/', '>']);
        }
    }
}

/// Renders a token sequence as XML text.
pub fn render_tokens(toks: &Vec<Token>) -> (r: String)
    ensures
        r@ == spec_render(toks_view(toks@)),
{
    let mut w = XmlWriter::new(String::new());
    let n = toks.len();
    let mut i: usize = 0;
    proof {
        assert(toks_view(toks@).take(0) =~= Seq::empty());
    }
    while i < n
        invariant
            n == toks@.len(),
            i <= n,
            w.inner@ == spec_render(toks_view(toks@).take(i as int)),
        decreases n - i,
    {
        let ghost tv = toks_view(toks@);
        match &toks[i] {
            Token::Start(tag) => w.write_element_start(tag.as_str()),
            Token::Attr(k, v) => w.write_attribute(k.as_str(), v.as_str()),
            Token::EndOpen => w.write_element_end_open(),
            Token::EndEmpty => w.write_element_end_empty(),
            Token::EndClose(tag) => w.write_element_end_close(tag.as_str()),
            Token::Text(s) => w.write_text(s.as_str()),
            Token::Cdata(s) => w.write_cdata_text(s.as_str()),
        }
        proof {
            assert(tv[i as int] == token_view(toks@[i as int]));
            assert(tv.take(i + 1) =~= tv.take(i as int).push(tv[i as int]));
            lemma_render_push(tv.take(i as int), tv[i as int]);
        }
        i = i + 1;
    }
    proof {
        assert(toks_view(toks@).take(n as int) =~= toks_view(toks@));
    }
    w.into_inner()
}

} // verus!
