use vstd::prelude::*;
use crate::convert::{display_scalar, format_scalar, kind_of, scalar_v_wf, spec_display, spec_format};
use crate::model::{
    Conv, FieldDecl, FieldValue, FieldValueV, Mapping, Mult, NamedSchema, RecordType, RecordValue,
    RecordValueV, Scalar, ScalarKind, ScalarV, fv_view, fvs_view, lemma_fvs_view_len,
    lemma_rvs_view_len, map_view, rv_view, rvs_view, scalar_view,
};
use crate::strutil::lex_lt;
use crate::token::{Token, TokenV, token_view, toks_view};
use crate::token::spec_render;
use crate::writer::{prefix_attr_tokens, render_tokens, sw_attr_tokens};

verus! {

broadcast use vstd::seq::group_seq_axioms, vstd::std_specs::vec::axiom_vec_decreases_to_view, vstd::seq::axiom_seq_index_decreases;

// ---------------------------------------------------------------------------
// Well-formedness of a record value against its record type.
// ---------------------------------------------------------------------------

/// Mapping entries are strictly sorted by key: the canonical representation
/// every mapping the engines build or consume uses.
pub open spec fn map_entries_wf(entries: Seq<(Seq<char>, ScalarV)>, kind: ScalarKind) -> bool {
    (forall|i: int|
        0 <= i < entries.len() - 1 ==> lex_lt(#[trigger] entries[i].0, entries[i + 1].0))
        && (forall|i: int|
        0 <= i < entries.len() ==> kind_of(#[trigger] entries[i].1) == kind && scalar_v_wf(
            entries[i].1,
        ))
}

pub open spec fn scalar_fits(sv: ScalarV, kind: ScalarKind) -> bool {
    kind_of(sv) == kind && scalar_v_wf(sv)
}

pub open spec fn opt_scalar_wf(o: Option<ScalarV>, kind: ScalarKind) -> bool {
    match o {
        Some(s) => scalar_fits(s, kind),
        None => true,
    }
}

pub open spec fn scalar_list_wf(vs: Seq<ScalarV>, kind: ScalarKind) -> bool {
    forall|i: int| 0 <= i < vs.len() ==> scalar_fits(#[trigger] vs[i], kind)
}

/// The value of one field matches its declaration's role and multiplicity.
pub open spec fn field_value_wf(fd: FieldDecl, fv: FieldValueV) -> bool
    decreases fv, 1int,
{
    match fd {
        FieldDecl::Attr { kind, mult, .. } => match (mult, fv) {
            (Mult::One, FieldValueV::One(s)) => scalar_fits(s, kind),
            (Mult::Opt, FieldValueV::Opt(o)) => opt_scalar_wf(o, kind),
            _ => false,
        },
        FieldDecl::Text { kind, .. } => match fv {
            FieldValueV::One(s) => scalar_fits(s, kind),
            _ => false,
        },
        FieldDecl::Flatten { kind, mult, .. } => match (mult, fv) {
            (Mult::One, FieldValueV::One(s)) => scalar_fits(s, kind),
            (Mult::Opt, FieldValueV::Opt(o)) => opt_scalar_wf(o, kind),
            (Mult::List, FieldValueV::List(vs)) => scalar_list_wf(vs, kind),
            _ => false,
        },
        FieldDecl::Prefix { kind, .. } => match fv {
            FieldValueV::Dict(entries) => map_entries_wf(entries, kind),
            _ => false,
        },
        FieldDecl::Starts { kind, .. } => match fv {
            FieldValueV::Dict(entries) => map_entries_wf(entries, kind),
            _ => false,
        },
        FieldDecl::Child { ty, mult, .. } => match (mult, fv) {
            (Mult::One, FieldValueV::OneRec(r)) => rv_wf(ty, *r),
            (Mult::Opt, FieldValueV::OptRec(o)) => match o {
                Some(r) => rv_wf(ty, *r),
                None => true,
            },
            (Mult::List, FieldValueV::ListRec(rs)) => rec_list_wf(ty, rs, 0),
            _ => false,
        },
    }
}

pub open spec fn fields_wf(fields: Seq<FieldDecl>, fvs: Seq<FieldValueV>, i: int) -> bool
    decreases fvs, fvs.len() - i,
{
    if i < 0 || i >= fields.len() {
        true
    } else {
        i < fvs.len() && field_value_wf(fields[i], fvs[i]) && fields_wf(fields, fvs, i + 1)
    }
}

pub open spec fn rec_list_wf(ty: RecordType, rs: Seq<RecordValueV>, i: int) -> bool
    decreases rs, rs.len() - i,
{
    if i < 0 || i >= rs.len() {
        true
    } else {
        rv_wf(ty, rs[i]) && rec_list_wf(ty, rs, i + 1)
    }
}

/// A record value is well-formed for a record type.
pub open spec fn rv_wf(rt: RecordType, v: RecordValueV) -> bool
    decreases v, 0int,
{
    match (rt, v) {
        (RecordType::Named(ns), RecordValueV::Fields(fvs)) => fvs.len() == ns.fields@.len()
            && fields_wf(ns.fields@, fvs, 0),
        (RecordType::Newtype(_, inner), RecordValueV::Wrapped(b)) => rv_wf(*inner, *b),
        (RecordType::Enum(_, vars), RecordValueV::Variant(i, b)) => 0 <= i < vars@.len() && rv_wf(
            vars@[i],
            *b,
        ),
        _ => false,
    }
}

// ---------------------------------------------------------------------------
// Shape predicates over a field list, mirroring the write engine's choices.
// ---------------------------------------------------------------------------

/// Every field is an attribute.
pub open spec fn is_leaf(fields: Seq<FieldDecl>, i: int) -> bool
    decreases fields.len() - i,
{
    if i < 0 || i >= fields.len() {
        true
    } else {
        (fields[i] is Attr) && is_leaf(fields, i + 1)
    }
}

/// Some field holds the element's own text.
pub open spec fn has_text(fields: Seq<FieldDecl>, i: int) -> bool
    decreases fields.len() - i,
{
    if i < 0 || i >= fields.len() {
        false
    } else {
        (fields[i] is Text) || has_text(fields, i + 1)
    }
}

/// Every child or flatten-text field is optional or a list.
pub open spec fn can_self_close(fields: Seq<FieldDecl>, i: int) -> bool
    decreases fields.len() - i,
{
    if i < 0 || i >= fields.len() {
        true
    } else {
        (match fields[i] {
            FieldDecl::Child { mult, .. } => mult is Opt || mult is List,
            FieldDecl::Flatten { mult, .. } => mult is Opt || mult is List,
            _ => true,
        }) && can_self_close(fields, i + 1)
    }
}

/// Every child or flatten-text field's current value is absent or empty.
pub open spec fn content_is_empty(fields: Seq<FieldDecl>, fvs: Seq<FieldValueV>, i: int) -> bool
    decreases fields.len() - i,
{
    if i < 0 || i >= fields.len() || fields.len() != fvs.len() {
        true
    } else {
        (match fields[i] {
            FieldDecl::Child { .. } => match fvs[i] {
                FieldValueV::ListRec(rs) => rs.len() == 0,
                FieldValueV::OptRec(o) => o is None,
                _ => true,
            },
            FieldDecl::Flatten { .. } => match fvs[i] {
                FieldValueV::List(vs) => vs.len() == 0,
                FieldValueV::Opt(o) => o is None,
                _ => true,
            },
            _ => true,
        }) && content_is_empty(fields, fvs, i + 1)
    }
}

// ---------------------------------------------------------------------------
// The write engine, as a mathematical function on views.
// ---------------------------------------------------------------------------

/// The attribute tokens of the declared `Attr` fields, in declared order.
pub open spec fn attr_tokens(fields: Seq<FieldDecl>, fvs: Seq<FieldValueV>, i: int) -> Seq<TokenV>
    decreases fields.len() - i,
{
    if i < 0 || i >= fields.len() || fields.len() != fvs.len() {
        Seq::empty()
    } else {
        (match (fields[i], fvs[i]) {
            (FieldDecl::Attr { attr, conv, .. }, FieldValueV::One(s)) => seq![
                TokenV::Attr(attr@, spec_format(true, conv, s)),
            ],
            (FieldDecl::Attr { attr, conv, .. }, FieldValueV::Opt(Some(s))) => seq![
                TokenV::Attr(attr@, spec_format(true, conv, s)),
            ],
            _ => Seq::empty(),
        }) + attr_tokens(fields, fvs, i + 1)
    }
}

/// The attribute tokens of the mapping fields, after all plain attributes.
pub open spec fn map_tokens(fields: Seq<FieldDecl>, fvs: Seq<FieldValueV>, i: int) -> Seq<TokenV>
    decreases fields.len() - i,
{
    if i < 0 || i >= fields.len() || fields.len() != fvs.len() {
        Seq::empty()
    } else {
        (match (fields[i], fvs[i]) {
            (FieldDecl::Prefix { prefix, .. }, FieldValueV::Dict(entries)) => prefix_attr_tokens(
                prefix@,
                entries,
            ),
            (FieldDecl::Starts { prefix, .. }, FieldValueV::Dict(entries)) => sw_attr_tokens(
                prefix@,
                entries,
            ),
            _ => Seq::empty(),
        }) + map_tokens(fields, fvs, i + 1)
    }
}

/// The tokens of one flatten-text child element.
pub open spec fn flat_one(tag: Seq<char>, conv: Conv, cdata: bool, s: ScalarV) -> Seq<TokenV> {
    seq![TokenV::Start(tag), TokenV::EndOpen] + seq![
        if cdata {
            TokenV::Cdata(spec_format(false, conv, s))
        } else {
            TokenV::Text(spec_format(false, conv, s))
        },
        TokenV::EndClose(tag),
    ]
}

pub open spec fn flat_list_tokens(
    tag: Seq<char>,
    conv: Conv,
    cdata: bool,
    vs: Seq<ScalarV>,
    i: int,
) -> Seq<TokenV>
    decreases vs.len() - i,
{
    if i < 0 || i >= vs.len() {
        Seq::empty()
    } else {
        flat_one(tag, conv, cdata, vs[i]) + flat_list_tokens(tag, conv, cdata, vs, i + 1)
    }
}

/// The text-bearing terminal: for each `Text` field, the opened tag, the
/// formatted content, and the literal end tag.
pub open spec fn text_tokens(
    tag: Seq<char>,
    fields: Seq<FieldDecl>,
    fvs: Seq<FieldValueV>,
    i: int,
) -> Seq<TokenV>
    decreases fields.len() - i,
{
    if i < 0 || i >= fields.len() || fields.len() != fvs.len() {
        Seq::empty()
    } else {
        (match (fields[i], fvs[i]) {
            (FieldDecl::Text { conv, cdata, .. }, FieldValueV::One(s)) => seq![TokenV::EndOpen]
                + seq![
                if cdata {
                    TokenV::Cdata(spec_format(false, conv, s))
                } else {
                    TokenV::Text(spec_format(false, conv, s))
                },
                TokenV::EndClose(tag),
            ],
            _ => Seq::empty(),
        }) + text_tokens(tag, fields, fvs, i + 1)
    }
}

pub open spec fn rec_list_tokens(ty: RecordType, rs: Seq<RecordValueV>, i: int) -> Seq<TokenV>
    decreases rs, rs.len() - i,
{
    if i < 0 || i >= rs.len() {
        Seq::empty()
    } else {
        spec_write_record(ty, rs[i]) + rec_list_tokens(ty, rs, i + 1)
    }
}

/// The nested-record tokens of the `Child` fields, in declared order.
pub open spec fn child_tokens(fields: Seq<FieldDecl>, fvs: Seq<FieldValueV>, i: int) -> Seq<TokenV>
    decreases fvs, fvs.len() - i, 1int,
{
    if i < 0 || i >= fields.len() || fields.len() != fvs.len() {
        Seq::empty()
    } else {
        (match (fields[i], fvs[i]) {
            (FieldDecl::Child { ty, .. }, FieldValueV::OneRec(r)) => spec_write_record(ty, *r),
            (FieldDecl::Child { ty, .. }, FieldValueV::OptRec(Some(r))) => spec_write_record(
                ty,
                *r,
            ),
            (FieldDecl::Child { ty, .. }, FieldValueV::ListRec(rs)) => rec_list_tokens(ty, rs, 0),
            _ => Seq::empty(),
        }) + child_tokens(fields, fvs, i + 1)
    }
}

/// The flatten-text child tokens, after all child records.
pub open spec fn flatten_tokens(fields: Seq<FieldDecl>, fvs: Seq<FieldValueV>, i: int) -> Seq<
    TokenV,
>
    decreases fields.len() - i,
{
    if i < 0 || i >= fields.len() || fields.len() != fvs.len() {
        Seq::empty()
    } else {
        (match (fields[i], fvs[i]) {
            (FieldDecl::Flatten { tag, conv, cdata, .. }, FieldValueV::One(s)) => flat_one(
                tag@,
                conv,
                cdata,
                s,
            ),
            (FieldDecl::Flatten { tag, conv, cdata, .. }, FieldValueV::Opt(Some(s))) => flat_one(
                tag@,
                conv,
                cdata,
                s,
            ),
            (FieldDecl::Flatten { tag, conv, cdata, .. }, FieldValueV::List(vs)) =>
                flat_list_tokens(tag@, conv, cdata, vs, 0),
            _ => Seq::empty(),
        }) + flatten_tokens(fields, fvs, i + 1)
    }
}

/// The terminal form of a named element: self-close for a leaf, text body
/// for a text-bearing schema, and for a container either a self-close (when
/// permitted and empty) or the children followed by the literal end tag.
pub open spec fn terminal_tokens(ns: NamedSchema, fvs: Seq<FieldValueV>) -> Seq<TokenV>
    decreases fvs, fvs.len() + 1, 2int,
{
    let fields = ns.fields@;
    if is_leaf(fields, 0) {
        seq![TokenV::EndEmpty]
    } else if has_text(fields, 0) {
        text_tokens(ns.tag@, fields, fvs, 0)
    } else if can_self_close(fields, 0) && content_is_empty(fields, fvs, 0) {
        seq![TokenV::EndEmpty]
    } else {
        seq![TokenV::EndOpen] + child_tokens(fields, fvs, 0) + flatten_tokens(fields, fvs, 0)
            + seq![TokenV::EndClose(ns.tag@)]
    }
}

/// The token stream the write engine emits for one record.
pub open spec fn spec_write_record(rt: RecordType, v: RecordValueV) -> Seq<TokenV>
    decreases v, 0int, 0int,
{
    match (rt, v) {
        (RecordType::Named(ns), RecordValueV::Fields(fvs)) => seq![TokenV::Start(ns.tag@)]
            + attr_tokens(ns.fields@, fvs, 0) + map_tokens(ns.fields@, fvs, 0) + terminal_tokens(
            ns,
            fvs,
        ),
        (RecordType::Newtype(_, inner), RecordValueV::Wrapped(b)) => spec_write_record(*inner, *b),
        (RecordType::Enum(_, vars), RecordValueV::Variant(i, b)) => if 0 <= i < vars@.len() {
            spec_write_record(vars@[i], *b)
        } else {
            Seq::empty()
        },
        _ => Seq::empty(),
    }
}


// ---------------------------------------------------------------------------
// The write engine, executable and proved against the spec above.
// ---------------------------------------------------------------------------

/// True exactly when every field is an attribute.
fn leaf_check(fields: &Vec<FieldDecl>, i: usize) -> (r: bool)
    ensures
        r == is_leaf(fields@, i as int),
    decreases fields@.len() - i,
{
    if i >= fields.len() {
        true
    } else {
        (match &fields[i] {
            FieldDecl::Attr { .. } => true,
            _ => false,
        }) && leaf_check(fields, i + 1)
    }
}

/// True exactly when some field is a text field.
pub fn text_check(fields: &Vec<FieldDecl>, i: usize) -> (r: bool)
    ensures
        r == has_text(fields@, i as int),
    decreases fields@.len() - i,
{
    if i >= fields.len() {
        false
    } else {
        (match &fields[i] {
            FieldDecl::Text { .. } => true,
            _ => false,
        }) || text_check(fields, i + 1)
    }
}

/// True exactly when every child/flatten field is optional or a list.
fn self_close_check(fields: &Vec<FieldDecl>, i: usize) -> (r: bool)
    ensures
        r == can_self_close(fields@, i as int),
    decreases fields@.len() - i,
{
    if i >= fields.len() {
        true
    } else {
        (match &fields[i] {
            FieldDecl::Child { mult, .. } => matches!(mult, Mult::Opt | Mult::List),
            FieldDecl::Flatten { mult, .. } => matches!(mult, Mult::Opt | Mult::List),
            _ => true,
        }) && self_close_check(fields, i + 1)
    }
}

/// True exactly when every child/flatten value is currently absent/empty.
fn empty_check(fields: &Vec<FieldDecl>, vals: &Vec<FieldValue>, i: usize) -> (r: bool)
    ensures
        r == content_is_empty(fields@, fvs_view(vals@, 0), i as int),
    decreases fields@.len() - i,
{
    proof {
        lemma_fvs_view_len(vals@, 0);
    }
    if i >= fields.len() || fields.len() != vals.len() {
        true
    } else {
        (match (&fields[i], &vals[i]) {
            (FieldDecl::Child { .. }, FieldValue::ListRec(rs)) => rs.len() == 0,
            (FieldDecl::Child { .. }, FieldValue::OptRec(o)) => o.is_none(),
            (FieldDecl::Flatten { .. }, FieldValue::List(vs)) => vs.len() == 0,
            (FieldDecl::Flatten { .. }, FieldValue::Opt(o)) => o.is_none(),
            _ => true,
        }) && empty_check(fields, vals, i + 1)
    }
}

/// Emits the attribute tokens of the plain attribute fields.
fn w_attrs(fields: &Vec<FieldDecl>, vals: &Vec<FieldValue>, i: usize, out: &mut Vec<Token>)
    ensures
        toks_view(final(out)@) == toks_view(old(out)@) + attr_tokens(
            fields@,
            fvs_view(vals@, 0),
            i as int,
        ),
    decreases fields@.len() - i,
{
    let ghost fvs = fvs_view(vals@, 0);
    proof {
        lemma_fvs_view_len(vals@, 0);
    }
    if i >= fields.len() || fields.len() != vals.len() {
        proof {
            assert(toks_view(out@) =~= toks_view(out@) + attr_tokens(fields@, fvs, i as int));
        }
        return;
    }
    let ghost pre = out@;
    match (&fields[i], &vals[i]) {
        (FieldDecl::Attr { attr, conv, .. }, FieldValue::One(s)) => {
            let formatted = format_scalar(s, *conv, true);
            out.push(Token::Attr(attr.clone(), formatted));
            proof {
                assert(toks_view(out@) =~= toks_view(pre) + seq![
                    TokenV::Attr(attr@, spec_format(true, *conv, scalar_view(*s))),
                ]);
            }
        },
        (FieldDecl::Attr { attr, conv, .. }, FieldValue::Opt(Some(s))) => {
            let formatted = format_scalar(s, *conv, true);
            out.push(Token::Attr(attr.clone(), formatted));
            proof {
                assert(toks_view(out@) =~= toks_view(pre) + seq![
                    TokenV::Attr(attr@, spec_format(true, *conv, scalar_view(*s))),
                ]);
            }
        },
        _ => {
            proof {
                assert(toks_view(out@) =~= toks_view(pre) + Seq::empty());
            }
        },
    }
    let ghost mid = out@;
    w_attrs(fields, vals, i + 1, out);
    proof {
        assert(fvs[i as int] == fv_view(vals@[i as int]));
        assert(toks_view(out@) =~= toks_view(pre) + attr_tokens(fields@, fvs, i as int));
    }
}

/// Emits the attributes of one mapping field.
fn w_map_entries(prefix: &String, sw: bool, m: &Mapping, out: &mut Vec<Token>)
    ensures
        toks_view(final(out)@) == toks_view(old(out)@) + (if sw {
            sw_attr_tokens(prefix@, map_view(*m))
        } else {
            prefix_attr_tokens(prefix@, map_view(*m))
        }),
{
    let n = m.entries.len();
    let mut k: usize = 0;
    proof {
        assert(map_view(*m).take(0) =~= Seq::empty());
        assert(toks_view(out@) =~= toks_view(out@) + Seq::empty());
    }
    while k < n
        invariant
            n == m.entries.len(),
            k <= n,
            map_view(*m).len() == n,
            toks_view(out@) == toks_view(old(out)@) + (if sw {
                sw_attr_tokens(prefix@, map_view(*m).take(k as int))
            } else {
                prefix_attr_tokens(prefix@, map_view(*m).take(k as int))
            }),
        decreases n - k,
    {
        let ghost mv = map_view(*m);
        let ghost pre = out@;
        let e = &m.entries[k];
        let name = if sw && e.key.as_str().is_empty() {
            prefix.clone()
        } else {
            let mut nm = prefix.clone();
            nm.append(":");
            nm.append(e.key.as_str());
            nm
        };
        let val = display_scalar(&e.val);
        out.push(Token::Attr(name, val));
        proof {
            reveal_strlit(":");
            assert(":"@ =~= seq![':']);
            assert(mv[k as int] == (e.key@, scalar_view(e.val)));
            let namev = if sw && mv[k as int].0.len() == 0 {
                prefix@
            } else {
                prefix@ + seq![':'] + mv[k as int].0
            };
            assert(toks_view(out@) =~= toks_view(pre) + seq![
                TokenV::Attr(namev, spec_display(mv[k as int].1)),
            ]);
            assert(mv.take(k + 1).drop_last() =~= mv.take(k as int));
            assert(mv.take(k + 1).last() == mv[k as int]);
            if sw {
                assert(sw_attr_tokens(prefix@, mv.take(k + 1)) == sw_attr_tokens(
                    prefix@,
                    mv.take(k as int),
                ) + seq![TokenV::Attr(namev, spec_display(mv[k as int].1))]);
                assert(toks_view(out@) =~= toks_view(old(out)@) + sw_attr_tokens(
                    prefix@,
                    mv.take(k + 1),
                ));
            } else {
                assert(prefix_attr_tokens(prefix@, mv.take(k + 1)) == prefix_attr_tokens(
                    prefix@,
                    mv.take(k as int),
                ) + seq![TokenV::Attr(namev, spec_display(mv[k as int].1))]);
                assert(toks_view(out@) =~= toks_view(old(out)@) + prefix_attr_tokens(
                    prefix@,
                    mv.take(k + 1),
                ));
            }
        }
        k = k + 1;
    }
    proof {
        assert(map_view(*m).take(n as int) =~= map_view(*m));
    }
}

/// Emits the attributes of all mapping fields, in declared order.
fn w_maps(fields: &Vec<FieldDecl>, vals: &Vec<FieldValue>, i: usize, out: &mut Vec<Token>)
    ensures
        toks_view(final(out)@) == toks_view(old(out)@) + map_tokens(
            fields@,
            fvs_view(vals@, 0),
            i as int,
        ),
    decreases fields@.len() - i,
{
    let ghost fvs = fvs_view(vals@, 0);
    proof {
        lemma_fvs_view_len(vals@, 0);
    }
    if i >= fields.len() || fields.len() != vals.len() {
        proof {
            assert(toks_view(out@) =~= toks_view(out@) + map_tokens(fields@, fvs, i as int));
        }
        return;
    }
    let ghost pre = out@;
    match (&fields[i], &vals[i]) {
        (FieldDecl::Prefix { prefix, .. }, FieldValue::Dict(m)) => {
            w_map_entries(prefix, false, m, out);
        },
        (FieldDecl::Starts { prefix, .. }, FieldValue::Dict(m)) => {
            w_map_entries(prefix, true, m, out);
        },
        _ => {
            proof {
                assert(toks_view(out@) =~= toks_view(pre) + Seq::empty());
            }
        },
    }
    w_maps(fields, vals, i + 1, out);
    proof {
        assert(fvs[i as int] == fv_view(vals@[i as int]));
        assert(toks_view(out@) =~= toks_view(pre) + map_tokens(fields@, fvs, i as int));
    }
}

/// Emits the text-bearing terminal for each text field.
fn w_text(tag: &String, fields: &Vec<FieldDecl>, vals: &Vec<FieldValue>, i: usize, out: &mut Vec<
    Token,
>)
    ensures
        toks_view(final(out)@) == toks_view(old(out)@) + text_tokens(
            tag@,
            fields@,
            fvs_view(vals@, 0),
            i as int,
        ),
    decreases fields@.len() - i,
{
    let ghost fvs = fvs_view(vals@, 0);
    proof {
        lemma_fvs_view_len(vals@, 0);
    }
    if i >= fields.len() || fields.len() != vals.len() {
        proof {
            assert(toks_view(out@) =~= toks_view(out@) + text_tokens(tag@, fields@, fvs, i as int));
        }
        return;
    }
    let ghost pre = out@;
    match (&fields[i], &vals[i]) {
        (FieldDecl::Text { conv, cdata, .. }, FieldValue::One(s)) => {
            out.push(Token::EndOpen);
            let formatted = format_scalar(s, *conv, false);
            if *cdata {
                out.push(Token::Cdata(formatted));
            } else {
                out.push(Token::Text(formatted));
            }
            out.push(Token::EndClose(tag.clone()));
            proof {
                assert(toks_view(out@) =~= toks_view(pre) + (seq![TokenV::EndOpen] + seq![
                    if *cdata {
                        TokenV::Cdata(spec_format(false, *conv, scalar_view(*s)))
                    } else {
                        TokenV::Text(spec_format(false, *conv, scalar_view(*s)))
                    },
                    TokenV::EndClose(tag@),
                ]));
            }
        },
        _ => {
            proof {
                assert(toks_view(out@) =~= toks_view(pre) + Seq::empty());
            }
        },
    }
    w_text(tag, fields, vals, i + 1, out);
    proof {
        assert(fvs[i as int] == fv_view(vals@[i as int]));
        assert(toks_view(out@) =~= toks_view(pre) + text_tokens(tag@, fields@, fvs, i as int));
    }
}

/// Emits one flatten-text child element.
fn w_flat_one(tag: &String, conv: Conv, cdata: bool, s: &Scalar, out: &mut Vec<Token>)
    ensures
        toks_view(final(out)@) == toks_view(old(out)@) + flat_one(
            tag@,
            conv,
            cdata,
            scalar_view(*s),
        ),
{
    let ghost pre = out@;
    out.push(Token::Start(tag.clone()));
    out.push(Token::EndOpen);
    let formatted = format_scalar(s, conv, false);
    if cdata {
        out.push(Token::Cdata(formatted));
    } else {
        out.push(Token::Text(formatted));
    }
    out.push(Token::EndClose(tag.clone()));
    proof {
        assert(toks_view(out@) =~= toks_view(pre) + flat_one(tag@, conv, cdata, scalar_view(*s)));
    }
}

/// Emits the flatten-text children of one list field.
fn w_flat_list(tag: &String, conv: Conv, cdata: bool, vs: &Vec<Scalar>, i: usize, out: &mut Vec<
    Token,
>)
    ensures
        toks_view(final(out)@) == toks_view(old(out)@) + flat_list_tokens(
            tag@,
            conv,
            cdata,
            vs@.map_values(|s: Scalar| scalar_view(s)),
            i as int,
        ),
    decreases vs@.len() - i,
{
    let ghost svs = vs@.map_values(|s: Scalar| scalar_view(s));
    if i >= vs.len() {
        proof {
            assert(toks_view(out@) =~= toks_view(out@) + flat_list_tokens(
                tag@,
                conv,
                cdata,
                svs,
                i as int,
            ));
        }
        return;
    }
    let ghost pre = out@;
    w_flat_one(tag, conv, cdata, &vs[i], out);
    w_flat_list(tag, conv, cdata, vs, i + 1, out);
    proof {
        assert(svs[i as int] == scalar_view(vs@[i as int]));
        assert(toks_view(out@) =~= toks_view(pre) + flat_list_tokens(
            tag@,
            conv,
            cdata,
            svs,
            i as int,
        ));
    }
}

/// Emits the flatten-text children, in declared order.
fn w_flatten(fields: &Vec<FieldDecl>, vals: &Vec<FieldValue>, i: usize, out: &mut Vec<Token>)
    ensures
        toks_view(final(out)@) == toks_view(old(out)@) + flatten_tokens(
            fields@,
            fvs_view(vals@, 0),
            i as int,
        ),
    decreases fields@.len() - i,
{
    let ghost fvs = fvs_view(vals@, 0);
    proof {
        lemma_fvs_view_len(vals@, 0);
    }
    if i >= fields.len() || fields.len() != vals.len() {
        proof {
            assert(toks_view(out@) =~= toks_view(out@) + flatten_tokens(fields@, fvs, i as int));
        }
        return;
    }
    let ghost pre = out@;
    match (&fields[i], &vals[i]) {
        (FieldDecl::Flatten { tag, conv, cdata, .. }, FieldValue::One(s)) => {
            w_flat_one(tag, *conv, *cdata, s, out);
        },
        (FieldDecl::Flatten { tag, conv, cdata, .. }, FieldValue::Opt(Some(s))) => {
            w_flat_one(tag, *conv, *cdata, s, out);
        },
        (FieldDecl::Flatten { tag, conv, cdata, .. }, FieldValue::List(vs)) => {
            w_flat_list(tag, *conv, *cdata, vs, 0, out);
            proof {
                assert(vs@.map_values(|s: Scalar| scalar_view(s)) == fv_view(
                    vals@[i as int],
                )->List_0);
            }
        },
        _ => {
            proof {
                assert(toks_view(out@) =~= toks_view(pre) + Seq::empty());
            }
        },
    }
    w_flatten(fields, vals, i + 1, out);
    proof {
        assert(fvs[i as int] == fv_view(vals@[i as int]));
        assert(toks_view(out@) =~= toks_view(pre) + flatten_tokens(fields@, fvs, i as int));
    }
}

/// Emits the records of one child list field, in order.
fn w_rec_list(ty: &RecordType, rs: &Vec<RecordValue>, i: usize, out: &mut Vec<Token>)
    ensures
        toks_view(final(out)@) == toks_view(old(out)@) + rec_list_tokens(
            *ty,
            rvs_view(rs@, 0),
            i as int,
        ),
    decreases rs@, rs@.len() - i, 0int,
{
    let ghost rvs = rvs_view(rs@, 0);
    proof {
        lemma_rvs_view_len(rs@, 0);
    }
    if i >= rs.len() {
        proof {
            assert(toks_view(out@) =~= toks_view(out@) + rec_list_tokens(*ty, rvs, i as int));
        }
        return;
    }
    let ghost pre = out@;
    w_record(ty, &rs[i], out);
    w_rec_list(ty, rs, i + 1, out);
    proof {
        assert(rvs[i as int] == rv_view(rs@[i as int]));
        assert(toks_view(out@) =~= toks_view(pre) + rec_list_tokens(*ty, rvs, i as int));
    }
}

/// Emits the nested records of the child fields, in declared order.
fn w_children(fields: &Vec<FieldDecl>, vals: &Vec<FieldValue>, i: usize, out: &mut Vec<Token>)
    ensures
        toks_view(final(out)@) == toks_view(old(out)@) + child_tokens(
            fields@,
            fvs_view(vals@, 0),
            i as int,
        ),
    decreases vals@, vals@.len() - i, 1int,
{
    let ghost fvs = fvs_view(vals@, 0);
    proof {
        lemma_fvs_view_len(vals@, 0);
    }
    if i >= fields.len() || fields.len() != vals.len() {
        proof {
            assert(toks_view(out@) =~= toks_view(out@) + child_tokens(fields@, fvs, i as int));
        }
        return;
    }
    let ghost pre = out@;
    match (&fields[i], &vals[i]) {
        (FieldDecl::Child { ty, .. }, FieldValue::OneRec(r)) => {
            w_record(ty, r, out);
        },
        (FieldDecl::Child { ty, .. }, FieldValue::OptRec(Some(r))) => {
            w_record(ty, r, out);
        },
        (FieldDecl::Child { ty, .. }, FieldValue::ListRec(rs)) => {
            w_rec_list(ty, rs, 0, out);
            proof {
                assert(rvs_view(rs@, 0) == fv_view(vals@[i as int])->ListRec_0);
            }
        },
        _ => {
            proof {
                assert(toks_view(out@) =~= toks_view(pre) + Seq::empty());
            }
        },
    }
    w_children(fields, vals, i + 1, out);
    proof {
        assert(fvs[i as int] == fv_view(vals@[i as int]));
        assert(toks_view(out@) =~= toks_view(pre) + child_tokens(fields@, fvs, i as int));
    }
}

/// Emits the token stream for one record: the start tag, the attributes,
/// the mapping attributes, and the terminal form.
pub fn w_record(rt: &RecordType, v: &RecordValue, out: &mut Vec<Token>)
    ensures
        toks_view(final(out)@) == toks_view(old(out)@) + spec_write_record(*rt, rv_view(*v)),
    decreases *v, 0int, 2int,
{
    let ghost pre = out@;
    match (rt, v) {
        (RecordType::Named(ns), RecordValue::Fields(vals)) => {
            let ghost fvs = fvs_view(vals@, 0);
            out.push(Token::Start(ns.tag.clone()));
            proof {
                assert(toks_view(out@) =~= toks_view(pre) + seq![TokenV::Start(ns.tag@)]);
            }
            w_attrs(&ns.fields, vals, 0, out);
            w_maps(&ns.fields, vals, 0, out);
            let ghost mid = out@;
            proof {
                assert(toks_view(mid) =~= toks_view(pre) + seq![TokenV::Start(ns.tag@)]
                    + attr_tokens(ns.fields@, fvs, 0) + map_tokens(ns.fields@, fvs, 0));
            }
            if leaf_check(&ns.fields, 0) {
                out.push(Token::EndEmpty);
                proof {
                    assert(toks_view(out@) =~= toks_view(mid) + seq![TokenV::EndEmpty]);
                }
            } else if text_check(&ns.fields, 0) {
                w_text(&ns.tag, &ns.fields, vals, 0, out);
            } else if self_close_check(&ns.fields, 0) && empty_check(&ns.fields, vals, 0) {
                out.push(Token::EndEmpty);
                proof {
                    assert(toks_view(out@) =~= toks_view(mid) + seq![TokenV::EndEmpty]);
                }
            } else {
                out.push(Token::EndOpen);
                let ghost g1 = out@;
                proof {
                    assert(toks_view(g1) =~= toks_view(mid) + seq![TokenV::EndOpen]);
                }
                w_children(&ns.fields, vals, 0, out);
                let ghost g2 = out@;
                w_flatten(&ns.fields, vals, 0, out);
                let ghost g3 = out@;
                out.push(Token::EndClose(ns.tag.clone()));
                proof {
                    assert(toks_view(out@) =~= toks_view(g3).push(TokenV::EndClose(ns.tag@)));
                    assert(toks_view(out@) =~= toks_view(mid) + (seq![TokenV::EndOpen]
                        + child_tokens(ns.fields@, fvs, 0) + flatten_tokens(ns.fields@, fvs, 0)
                        + seq![TokenV::EndClose(ns.tag@)]));
                }
            }
            proof {
                assert(rv_view(*v) == RecordValueV::Fields(fvs));
                assert(spec_write_record(*rt, rv_view(*v)) == seq![TokenV::Start(ns.tag@)]
                    + attr_tokens(ns.fields@, fvs, 0) + map_tokens(ns.fields@, fvs, 0)
                    + terminal_tokens(*ns, fvs));
                if is_leaf(ns.fields@, 0) {
                    assert(terminal_tokens(*ns, fvs) == seq![TokenV::EndEmpty]);
                } else if has_text(ns.fields@, 0) {
                    assert(terminal_tokens(*ns, fvs) == text_tokens(ns.tag@, ns.fields@, fvs, 0));
                } else if can_self_close(ns.fields@, 0) && content_is_empty(ns.fields@, fvs, 0) {
                    assert(terminal_tokens(*ns, fvs) == seq![TokenV::EndEmpty]);
                } else {
                    assert(terminal_tokens(*ns, fvs) == seq![TokenV::EndOpen] + child_tokens(
                        ns.fields@,
                        fvs,
                        0,
                    ) + flatten_tokens(ns.fields@, fvs, 0) + seq![TokenV::EndClose(ns.tag@)]);
                }
                assert(toks_view(out@) =~= toks_view(pre) + spec_write_record(*rt, rv_view(*v)));
            }
        },
        (RecordType::Newtype(_, inner), RecordValue::Wrapped(b)) => {
            w_record(inner, b, out);
        },
        (RecordType::Enum(_, vars), RecordValue::Variant(ix, b)) => {
            if *ix < vars.len() {
                w_record(&vars[*ix], b, out);
            } else {
                proof {
                    assert(toks_view(out@) =~= toks_view(pre) + Seq::empty());
                }
            }
        },
        _ => {
            proof {
                assert(toks_view(out@) =~= toks_view(pre) + Seq::empty());
            }
        },
    }
}

/// Writes one record as a token stream.
pub fn write_record(rt: &RecordType, v: &RecordValue) -> (r: Vec<Token>)
    ensures
        toks_view(r@) == spec_write_record(*rt, rv_view(*v)),
{
    let mut out: Vec<Token> = Vec::new();
    proof {
        assert(toks_view(Seq::<Token>::empty()) =~= Seq::<TokenV>::empty());
    }
    w_record(rt, v, &mut out);
    proof {
        assert(toks_view(out@) =~= spec_write_record(*rt, rv_view(*v)));
    }
    out
}


/// Writes one record as an XML document string.
pub fn to_xml_string(rt: &RecordType, v: &RecordValue) -> (r: String)
    ensures
        r@ == spec_render(spec_write_record(*rt, rv_view(*v))),
{
    let toks = write_record(rt, v);
    render_tokens(&toks)
}

} // verus!
