use vstd::prelude::*;
use crate::convert::{lemma_parse_format, lemma_parse_generic_display, spec_display, spec_format, spec_parse, spec_parse_generic, kind_of};
use crate::err::ErrV;
use crate::mapops::{lemma_insert_at_end, spec_map_insert};
use crate::model::{FieldDecl, FieldValueV, Mult, NamedSchema, RecordType, RecordValueV, ScalarV};
use crate::read::{
    ARes, AccV, CRes, FRes, RRes, field_kind_conv, finalize_field, find_variant, init_accs,
    match_attr_field, match_child_field, match_flatten_field, match_map_field, rt_tag_matches,
    spec_apply_attr, spec_finalize, spec_read_attrs, spec_read_children, spec_read_named,
    spec_read_record, spec_read_text, tab_of, text_field_idx,
};
use crate::strutil::{lemma_lex_trans, lex_lt};
use crate::token::TokenV;
use crate::write::{
    attr_tokens, can_self_close, content_is_empty, field_value_wf, fields_wf, flat_one,
    flat_list_tokens, flatten_tokens, has_text, is_leaf, map_entries_wf, map_tokens, rec_list_wf,
    rec_list_tokens, rv_wf, child_tokens, spec_write_record, terminal_tokens, text_tokens,
};
use crate::writer::{prefix_attr_tokens, sw_attr_tokens};

verus! {

broadcast use vstd::seq::group_seq_axioms, vstd::std_specs::vec::axiom_vec_decreases_to_view, vstd::seq::axiom_seq_index_decreases;

// ---------------------------------------------------------------------------
// Schema well-formedness: the dispatch of every name a writer can emit is
// unambiguous, so that reading resolves each token to the field that wrote
// it. Ambiguous schemas (duplicate names, overlapping prefixes, duplicate
// variant tags) are excluded here.
// ---------------------------------------------------------------------------

/// The attribute key a mapping entry with key `k` is stored under.
pub open spec fn map_attr_key(prefix: Seq<char>, sw: bool, k: Seq<char>) -> Seq<char> {
    if sw && k.len() == 0 {
        prefix
    } else {
        prefix + seq![':'] + k
    }
}

/// What one field's written names must resolve back to.
pub open spec fn field_claims(fields: Seq<FieldDecl>, i: int, k: Seq<char>) -> bool {
    0 <= i < fields.len() ==> match fields[i] {
        FieldDecl::Attr { attr, .. } => match_attr_field(fields, attr@, 0) == Some(i),
        FieldDecl::Prefix { prefix, .. } => match_attr_field(fields, map_attr_key(prefix@, false, k), 0) is None
            && match_map_field(fields, map_attr_key(prefix@, false, k), 0) == Some((i, k)),
        FieldDecl::Starts { prefix, .. } => match_attr_field(fields, map_attr_key(prefix@, true, k), 0) is None
            && match_map_field(fields, map_attr_key(prefix@, true, k), 0) == Some((i, k)),
        FieldDecl::Flatten { tag, .. } => match_child_field(fields, tag@, 0) is None
            && match_flatten_field(fields, tag@, 0) == Some(i),
        FieldDecl::Child { ty, .. } => rt_tag_matches(ty, k) ==> match_child_field(fields, k, 0)
            == Some(i),
        FieldDecl::Text { .. } => text_field_idx(fields, 0) == Some(i),
    }
}

/// No child elements stand beside a text field.
pub open spec fn text_excludes_children(fields: Seq<FieldDecl>) -> bool {
    has_text(fields, 0) ==> forall|i: int|
        0 <= i < fields.len() ==> !((#[trigger] fields[i]) is Child || fields[i] is Flatten)
}

/// Each tag an enum variant can emit resolves back to that variant.
pub open spec fn enum_claims(vars: Seq<RecordType>, j: int, t: Seq<char>) -> bool {
    0 <= j < vars.len() && rt_tag_matches(vars[j], t) ==> find_variant(vars, t, 0) == Some(j)
}

pub open spec fn fields_schema_wf(fields: Seq<FieldDecl>, i: int) -> bool
    decreases fields, fields.len() - i, 1int,
{
    if i < 0 || i >= fields.len() {
        true
    } else {
        (match fields[i] {
            FieldDecl::Child { ty, .. } => schema_wf(ty),
            _ => true,
        }) && fields_schema_wf(fields, i + 1)
    }
}

pub open spec fn variants_schema_wf(vars: Seq<RecordType>, j: int) -> bool
    decreases vars, vars.len() - j,
{
    if j < 0 || j >= vars.len() {
        true
    } else {
        schema_wf(vars[j]) && variants_schema_wf(vars, j + 1)
    }
}

/// A schema whose dispatch is unambiguous at every level.
pub open spec fn schema_wf(rt: RecordType) -> bool
    decreases rt, 2int,
{
    match rt {
        RecordType::Named(ns) => (forall|i: int, k: Seq<char>| #[trigger] field_claims(ns.fields@, i, k))
            && text_excludes_children(ns.fields@) && fields_schema_wf(ns.fields@, 0),
        RecordType::Newtype(_, inner) => schema_wf(*inner),
        RecordType::Enum(_, vars) => (forall|j: int, t: Seq<char>| #[trigger] enum_claims(vars@, j, t))
            && variants_schema_wf(vars@, 0),
    }
}

/// The initial accumulator of one field.
pub open spec fn init_acc1(fd: FieldDecl) -> AccV {
    match fd {
        FieldDecl::Child { mult: Mult::List, .. } => AccV::ListR(Seq::empty()),
        FieldDecl::Flatten { mult: Mult::List, .. } => AccV::ListS(Seq::empty()),
        FieldDecl::Prefix { .. } => AccV::Tab(Seq::empty()),
        FieldDecl::Starts { .. } => AccV::Tab(Seq::empty()),
        _ => AccV::Unset,
    }
}

pub proof fn lemma_init_accs_pointwise(fields: Seq<FieldDecl>, i: int)
    requires
        0 <= i <= fields.len(),
    ensures
        init_accs(fields, i).len() == fields.len() - i,
        forall|j: int| i <= j < fields.len() ==> init_accs(fields, i)[j - i] == init_acc1(fields[j]),
    decreases fields.len() - i,
{
    if i < fields.len() {
        lemma_init_accs_pointwise(fields, i + 1);
    }
}

/// The accumulator of field `j` after the attribute phase has processed
/// the first `i` fields.
pub open spec fn pa_acc(fields: Seq<FieldDecl>, fvs: Seq<FieldValueV>, i: int, j: int) -> AccV {
    if j < i {
        match (fields[j], fvs[j]) {
            (FieldDecl::Attr { .. }, FieldValueV::One(s)) => AccV::Got(s),
            (FieldDecl::Attr { .. }, FieldValueV::Opt(Some(s))) => AccV::Got(s),
            _ => init_acc1(fields[j]),
        }
    } else {
        init_acc1(fields[j])
    }
}

pub open spec fn pa(fields: Seq<FieldDecl>, fvs: Seq<FieldValueV>, i: int) -> Seq<AccV> {
    Seq::new(fields.len() as nat, |j: int| pa_acc(fields, fvs, i, j))
}

/// The accumulator of field `j` after the mapping phase has processed the
/// first `i` fields (following the whole attribute phase).
pub open spec fn pm_acc(fields: Seq<FieldDecl>, fvs: Seq<FieldValueV>, i: int, j: int) -> AccV {
    if j < i {
        match (fields[j], fvs[j]) {
            (FieldDecl::Prefix { .. }, FieldValueV::Dict(m)) => AccV::Tab(m),
            (FieldDecl::Starts { .. }, FieldValueV::Dict(m)) => AccV::Tab(m),
            _ => pa_acc(fields, fvs, fields.len() as int, j),
        }
    } else {
        pa_acc(fields, fvs, fields.len() as int, j)
    }
}

pub open spec fn pm(fields: Seq<FieldDecl>, fvs: Seq<FieldValueV>, i: int) -> Seq<AccV> {
    Seq::new(fields.len() as nat, |j: int| pm_acc(fields, fvs, i, j))
}

/// Phase one: consuming the written attribute tokens fills exactly the
/// attribute fields.
proof fn lemma_read_attr_phase(
    ns: NamedSchema,
    fvs: Seq<FieldValueV>,
    toks: Seq<TokenV>,
    pos: int,
    i: int,
)
    requires
        forall|a: int, k: Seq<char>| #[trigger] field_claims(ns.fields@, a, k),
        fields_wf(ns.fields@, fvs, 0),
        fvs.len() == ns.fields@.len(),
        0 <= i <= ns.fields@.len(),
        0 <= pos,
        pos + attr_tokens(ns.fields@, fvs, i).len() <= toks.len(),
        toks.subrange(pos, pos + attr_tokens(ns.fields@, fvs, i).len()) == attr_tokens(
            ns.fields@,
            fvs,
            i,
        ),
    ensures
        spec_read_attrs(ns, pa(ns.fields@, fvs, i), toks, pos) == spec_read_attrs(
            ns,
            pa(ns.fields@, fvs, ns.fields@.len() as int),
            toks,
            pos + attr_tokens(ns.fields@, fvs, i).len(),
        ),
    decreases ns.fields@.len() - i,
{
    let fields = ns.fields@;
    let ai = attr_tokens(fields, fvs, i);
    if i == fields.len() {
        assert(ai.len() == 0);
    } else {
        lemma_fields_wf_at(fields, fvs, 0, i);
        let tail = attr_tokens(fields, fvs, i + 1);
        match (fields[i], fvs[i]) {
            (FieldDecl::Attr { attr, conv, kind, .. }, FieldValueV::One(s)) => {
                lemma_attr_step(ns, fvs, toks, pos, i, s, attr@, kind, conv);
            },
            (FieldDecl::Attr { attr, conv, kind, .. }, FieldValueV::Opt(Some(s))) => {
                lemma_attr_step(ns, fvs, toks, pos, i, s, attr@, kind, conv);
            },
            _ => {
                assert(ai =~= Seq::<TokenV>::empty() + tail);
                assert(ai == tail);
                assert(pa(fields, fvs, i) =~= pa(fields, fvs, i + 1));
                lemma_read_attr_phase(ns, fvs, toks, pos, i + 1);
            },
        }
    }
}

/// One attribute token: dispatch, parse, and store.
proof fn lemma_attr_step(
    ns: NamedSchema,
    fvs: Seq<FieldValueV>,
    toks: Seq<TokenV>,
    pos: int,
    i: int,
    s: ScalarV,
    attr: Seq<char>,
    kind: crate::model::ScalarKind,
    conv: crate::model::Conv,
)
    requires
        forall|a: int, k: Seq<char>| #[trigger] field_claims(ns.fields@, a, k),
        fields_wf(ns.fields@, fvs, 0),
        fvs.len() == ns.fields@.len(),
        0 <= i < ns.fields@.len(),
        (ns.fields@[i] matches FieldDecl::Attr { attr: a2, kind: k2, conv: c2, .. } && a2@ == attr
            && k2 == kind && c2 == conv),
        (fvs[i] matches FieldValueV::One(s2) && s2 == s) || (fvs[i] matches FieldValueV::Opt(o)
            && o == Some(s)),
        0 <= pos,
        pos + attr_tokens(ns.fields@, fvs, i).len() <= toks.len(),
        toks.subrange(pos, pos + attr_tokens(ns.fields@, fvs, i).len()) == attr_tokens(
            ns.fields@,
            fvs,
            i,
        ),
    ensures
        spec_read_attrs(ns, pa(ns.fields@, fvs, i), toks, pos) == spec_read_attrs(
            ns,
            pa(ns.fields@, fvs, ns.fields@.len() as int),
            toks,
            pos + attr_tokens(ns.fields@, fvs, i).len(),
        ),
    decreases ns.fields@.len() - i, 0int,
{
    let fields = ns.fields@;
    let ai = attr_tokens(fields, fvs, i);
    let tail = attr_tokens(fields, fvs, i + 1);
    let fmt = spec_format(true, conv, s);
    let tok = TokenV::Attr(attr, fmt);
    assert(ai == seq![tok] + tail);
    assert(toks[pos] == ai[0]) by {
        assert(toks.subrange(pos, pos + ai.len())[0] == toks[pos]);
    }
    assert(toks[pos] == tok);
    // dispatch: the attribute resolves to field i
    assert(field_claims(fields, i, Seq::<char>::empty()));
    assert(match_attr_field(fields, attr, 0) == Some(i));
    // the value parses back
    lemma_fields_wf_at(fields, fvs, 0, i);
    assert(field_value_wf(fields[i], fvs[i]));
    assert(kind_of(s) == kind && crate::convert::scalar_v_wf(s));
    lemma_parse_format(true, conv, s);
    assert(spec_parse(kind, conv, fmt) == Some(s));
    let accs = pa(fields, fvs, i);
    assert(spec_apply_attr(ns, accs, attr, fmt) == CRes::Good(accs.update(i, AccV::Got(s))));
    assert(accs.update(i, AccV::Got(s)) =~= pa(fields, fvs, i + 1));
    assert(spec_read_attrs(ns, accs, toks, pos) == spec_read_attrs(
        ns,
        pa(fields, fvs, i + 1),
        toks,
        pos + 1,
    ));
    assert(toks.subrange(pos + 1, pos + 1 + tail.len()) =~= tail) by {
        assert forall|x: int| 0 <= x < tail.len() implies toks.subrange(
            pos + 1,
            pos + 1 + tail.len(),
        )[x] == tail[x] by {
            assert(toks.subrange(pos, pos + ai.len())[x + 1] == toks[pos + 1 + x]);
            assert(ai[x + 1] == tail[x]);
        }
    }
    lemma_read_attr_phase(ns, fvs, toks, pos + 1, i + 1);
}

/// `fields_wf` holds pointwise.
pub proof fn lemma_fields_wf_at(
    fields: Seq<FieldDecl>,
    fvs: Seq<FieldValueV>,
    i: int,
    j: int,
)
    requires
        fields_wf(fields, fvs, i),
        0 <= i <= j < fields.len(),
    ensures
        j < fvs.len() && field_value_wf(fields[j], fvs[j]),
    decreases j - i,
{
    if i < j {
        lemma_fields_wf_at(fields, fvs, i + 1, j);
    }
}

/// In a sorted mapping every earlier key is strictly below every later one.
proof fn lemma_sorted_all(entries: Seq<(Seq<char>, ScalarV)>, kind: crate::model::ScalarKind, a: int, b: int)
    requires
        map_entries_wf(entries, kind),
        0 <= a < b < entries.len(),
    ensures
        lex_lt(entries[a].0, entries[b].0),
    decreases b - a,
{
    if a + 1 == b {
    } else {
        lemma_sorted_all(entries, kind, a + 1, b);
        lemma_lex_trans(entries[a].0, entries[a + 1].0, entries[b].0);
    }
}

/// The token at position `e` of one mapping field's written attributes.
pub open spec fn map_tok_at(
    prefix: Seq<char>,
    sw: bool,
    entries: Seq<(Seq<char>, ScalarV)>,
    e: int,
) -> bool {
    (if sw {
        sw_attr_tokens(prefix, entries)
    } else {
        prefix_attr_tokens(prefix, entries)
    })[e] == TokenV::Attr(map_attr_key(prefix, sw, entries[e].0), spec_display(entries[e].1))
}

/// The written tokens of one mapping field, entry by entry.
proof fn lemma_map_tokens_pointwise(prefix: Seq<char>, sw: bool, entries: Seq<(Seq<char>, ScalarV)>)
    ensures
        (if sw {
            sw_attr_tokens(prefix, entries)
        } else {
            prefix_attr_tokens(prefix, entries)
        }).len() == entries.len(),
        forall|e: int| 0 <= e < entries.len() ==> #[trigger] map_tok_at(prefix, sw, entries, e),
    decreases entries.len(),
{
    let ts = if sw {
        sw_attr_tokens(prefix, entries)
    } else {
        prefix_attr_tokens(prefix, entries)
    };
    if entries.len() > 0 {
        let dl = entries.drop_last();
        lemma_map_tokens_pointwise(prefix, sw, dl);
        let tsd = if sw {
            sw_attr_tokens(prefix, dl)
        } else {
            prefix_attr_tokens(prefix, dl)
        };
        let lastk = entries.last().0;
        let tok = TokenV::Attr(map_attr_key(prefix, sw, lastk), spec_display(entries.last().1));
        assert(ts == tsd + seq![tok]);
        assert forall|e: int| 0 <= e < entries.len() implies #[trigger] map_tok_at(
            prefix,
            sw,
            entries,
            e,
        ) by {
            if e < dl.len() {
                assert(map_tok_at(prefix, sw, dl, e));
                assert(ts[e] == tsd[e]);
                assert(dl[e] == entries[e]);
            } else {
                assert(ts[e] == tok);
                assert(entries.last() == entries[e]);
            }
        }
    }
}

/// Reading back the attributes one mapping field wrote rebuilds exactly
/// that mapping, entry by entry in sorted order.
#[verifier::rlimit(80)]
proof fn lemma_read_map_entries(
    ns: NamedSchema,
    fvs: Seq<FieldValueV>,
    toks: Seq<TokenV>,
    pos: int,
    i: int,
    prefix: Seq<char>,
    sw: bool,
    kind: crate::model::ScalarKind,
    entries: Seq<(Seq<char>, ScalarV)>,
    e: int,
    accs: Seq<AccV>,
)
    requires
        forall|a: int, k: Seq<char>| #[trigger] field_claims(ns.fields@, a, k),
        0 <= i < ns.fields@.len(),
        (if sw {
            ns.fields@[i] matches FieldDecl::Starts { prefix: p2, kind: k2, .. } && p2@ == prefix
                && k2 == kind
        } else {
            ns.fields@[i] matches FieldDecl::Prefix { prefix: p2, kind: k2, .. } && p2@ == prefix
                && k2 == kind
        }),
        map_entries_wf(entries, kind),
        0 <= e <= entries.len(),
        accs.len() == ns.fields@.len(),
        accs[i] == AccV::Tab(entries.take(e)),
        0 <= pos,
        pos + (entries.len() - e) <= toks.len(),
        forall|x: int|
            e <= x < entries.len() ==> toks[pos + (x - e)] == TokenV::Attr(
                map_attr_key(prefix, sw, entries[x].0),
                spec_display(entries[x].1),
            ),
    ensures
        spec_read_attrs(ns, accs, toks, pos) == spec_read_attrs(
            ns,
            accs.update(i, AccV::Tab(entries)),
            toks,
            pos + (entries.len() - e),
        ),
    decreases entries.len() - e,
{
    let fields = ns.fields@;
    if e == entries.len() {
        assert(entries.take(e) =~= entries);
        assert(accs.update(i, AccV::Tab(entries)) =~= accs);
    } else {
        let k = entries[e].0;
        let v = entries[e].1;
        let key = map_attr_key(prefix, sw, k);
        assert(toks[pos] == TokenV::Attr(key, spec_display(v)));
        assert(field_claims(fields, i, k));
        assert(match_attr_field(fields, key, 0) is None);
        assert(match_map_field(fields, key, 0) == Some((i, k)));
        assert(kind_of(v) == kind && crate::convert::scalar_v_wf(v));
        lemma_parse_generic_display(v);
        assert(spec_parse_generic(kind, spec_display(v)) == Some(v));
        assert(forall|a: int| 0 <= a < e ==> lex_lt(#[trigger] entries[a].0, k)) by {
            assert forall|a: int| 0 <= a < e implies lex_lt(#[trigger] entries[a].0, k) by {
                lemma_sorted_all(entries, kind, a, e);
            }
        }
        assert(forall|a: int| 0 <= a < entries.take(e).len() ==> lex_lt(
            #[trigger] entries.take(e)[a].0,
            k,
        ));
        lemma_insert_at_end(entries.take(e), k, v);
        assert(tab_of(accs[i]) == entries.take(e));
        assert(spec_map_insert(entries.take(e), k, v) == entries.take(e).push((k, v)));
        assert(entries.take(e).push((k, v)) =~= entries.take(e + 1));
        let accs2 = accs.update(i, AccV::Tab(entries.take(e + 1)));
        assert(spec_apply_attr(ns, accs, key, spec_display(v)) == CRes::Good(accs2));
        lemma_read_map_entries(ns, fvs, toks, pos + 1, i, prefix, sw, kind, entries, e + 1, accs2);
        assert(accs2.update(i, AccV::Tab(entries)) =~= accs.update(i, AccV::Tab(entries)));
    }
}

/// Phase two: consuming the written mapping attributes fills exactly the
/// mapping fields.
proof fn lemma_read_map_phase(
    ns: NamedSchema,
    fvs: Seq<FieldValueV>,
    toks: Seq<TokenV>,
    pos: int,
    i: int,
)
    requires
        forall|a: int, k: Seq<char>| #[trigger] field_claims(ns.fields@, a, k),
        fields_wf(ns.fields@, fvs, 0),
        fvs.len() == ns.fields@.len(),
        0 <= i <= ns.fields@.len(),
        0 <= pos,
        pos + map_tokens(ns.fields@, fvs, i).len() <= toks.len(),
        toks.subrange(pos, pos + map_tokens(ns.fields@, fvs, i).len()) == map_tokens(
            ns.fields@,
            fvs,
            i,
        ),
    ensures
        spec_read_attrs(ns, pm(ns.fields@, fvs, i), toks, pos) == spec_read_attrs(
            ns,
            pm(ns.fields@, fvs, ns.fields@.len() as int),
            toks,
            pos + map_tokens(ns.fields@, fvs, i).len(),
        ),
    decreases ns.fields@.len() - i,
{
    let fields = ns.fields@;
    let mi = map_tokens(fields, fvs, i);
    if i == fields.len() {
        assert(mi.len() == 0);
    } else {
        lemma_fields_wf_at(fields, fvs, 0, i);
        let tail = map_tokens(fields, fvs, i + 1);
        match (fields[i], fvs[i]) {
            (FieldDecl::Prefix { prefix, kind, .. }, FieldValueV::Dict(m)) => {
                lemma_map_step(ns, fvs, toks, pos, i, prefix@, false, kind, m);
            },
            (FieldDecl::Starts { prefix, kind, .. }, FieldValueV::Dict(m)) => {
                lemma_map_step(ns, fvs, toks, pos, i, prefix@, true, kind, m);
            },
            _ => {
                assert(mi =~= Seq::<TokenV>::empty() + tail);
                assert(mi == tail);
                assert(pm(fields, fvs, i) =~= pm(fields, fvs, i + 1));
                lemma_read_map_phase(ns, fvs, toks, pos, i + 1);
            },
        }
    }
}

/// One mapping field's attributes.
proof fn lemma_map_step(
    ns: NamedSchema,
    fvs: Seq<FieldValueV>,
    toks: Seq<TokenV>,
    pos: int,
    i: int,
    prefix: Seq<char>,
    sw: bool,
    kind: crate::model::ScalarKind,
    m: Seq<(Seq<char>, ScalarV)>,
)
    requires
        forall|a: int, k: Seq<char>| #[trigger] field_claims(ns.fields@, a, k),
        fields_wf(ns.fields@, fvs, 0),
        fvs.len() == ns.fields@.len(),
        0 <= i < ns.fields@.len(),
        (if sw {
            ns.fields@[i] matches FieldDecl::Starts { prefix: p2, kind: k2, .. } && p2@ == prefix
                && k2 == kind
        } else {
            ns.fields@[i] matches FieldDecl::Prefix { prefix: p2, kind: k2, .. } && p2@ == prefix
                && k2 == kind
        }),
        fvs[i] == FieldValueV::Dict(m),
        0 <= pos,
        pos + map_tokens(ns.fields@, fvs, i).len() <= toks.len(),
        toks.subrange(pos, pos + map_tokens(ns.fields@, fvs, i).len()) == map_tokens(
            ns.fields@,
            fvs,
            i,
        ),
    ensures
        spec_read_attrs(ns, pm(ns.fields@, fvs, i), toks, pos) == spec_read_attrs(
            ns,
            pm(ns.fields@, fvs, ns.fields@.len() as int),
            toks,
            pos + map_tokens(ns.fields@, fvs, i).len(),
        ),
    decreases ns.fields@.len() - i, 0int,
{
    let fields = ns.fields@;
    let mi = map_tokens(fields, fvs, i);
    let head = if sw {
        sw_attr_tokens(prefix, m)
    } else {
        prefix_attr_tokens(prefix, m)
    };
    let tail = map_tokens(fields, fvs, i + 1);
    assert(mi == head + tail);
    lemma_map_tokens_pointwise(prefix, sw, m);
    assert(head.len() == m.len());
    assert(field_value_wf(fields[i], fvs[i])) by {
        lemma_fields_wf_at(fields, fvs, 0, i);
    }
    assert(map_entries_wf(m, kind));
    let accs = pm(fields, fvs, i);
    assert(accs[i] == AccV::Tab(Seq::<(Seq<char>, ScalarV)>::empty()));
    assert(m.take(0) =~= Seq::<(Seq<char>, ScalarV)>::empty());
    assert forall|x: int|
        0 <= x < m.len() implies toks[pos + (x - 0)] == TokenV::Attr(
        map_attr_key(prefix, sw, m[x].0),
        spec_display(m[x].1),
    ) by {
        assert(toks.subrange(pos, pos + mi.len())[x] == toks[pos + x]);
        assert(mi[x] == head[x]);
        assert(map_tok_at(prefix, sw, m, x));
    }
    lemma_read_map_entries(ns, fvs, toks, pos, i, prefix, sw, kind, m, 0, accs);
    let accs2 = accs.update(i, AccV::Tab(m));
    assert(accs2 =~= pm(fields, fvs, i + 1));
    assert(toks.subrange(pos + head.len(), pos + head.len() + tail.len()) =~= tail) by {
        assert forall|x: int| 0 <= x < tail.len() implies toks.subrange(
            pos + head.len(),
            pos + head.len() + tail.len(),
        )[x] == tail[x] by {
            assert(toks.subrange(pos, pos + mi.len())[head.len() + x] == toks[pos + head.len()
                + x]);
            assert(mi[head.len() + x] == tail[x]);
        }
    }
    lemma_read_map_phase(ns, fvs, toks, pos + head.len(), i + 1);
}


/// A leaf field list has no text field.
proof fn lemma_leaf_no_text(fields: Seq<FieldDecl>, i: int)
    requires
        is_leaf(fields, i),
    ensures
        !has_text(fields, i),
    decreases fields.len() - i,
{
    if 0 <= i && i < fields.len() {
        lemma_leaf_no_text(fields, i + 1);
    }
}

/// Finalizing the accumulators that reading back the attributes left
/// rebuilds exactly the original field values, for a record with no
/// present children and no text.
proof fn lemma_finalize_flat(ns: NamedSchema, fvs: Seq<FieldValueV>, i: int)
    requires
        fvs.len() == ns.fields@.len(),
        0 <= i <= ns.fields@.len(),
        fields_wf(ns.fields@, fvs, i),
        is_leaf(ns.fields@, i) || (!has_text(ns.fields@, i) && can_self_close(ns.fields@, i)
            && content_is_empty(ns.fields@, fvs, i)),
    ensures
        spec_finalize(ns, pm(ns.fields@, fvs, ns.fields@.len() as int), i) == FRes::Good(
            fvs.skip(i),
        ),
    decreases ns.fields@.len() - i,
{
    let fields = ns.fields@;
    let accs = pm(fields, fvs, fields.len() as int);
    if i == fields.len() {
        assert(fvs.skip(i) =~= Seq::<FieldValueV>::empty());
    } else {
        assert(field_value_wf(fields[i], fvs[i]));
        let a = accs[i];
        match (fields[i], fvs[i]) {
            (FieldDecl::Attr { .. }, FieldValueV::One(s)) => {
                assert(a == AccV::Got(s));
                assert(finalize_field(ns, fields[i], a) == Ok::<FieldValueV, ErrV>(fvs[i]));
            },
            (FieldDecl::Attr { .. }, FieldValueV::Opt(o)) => {
                assert(finalize_field(ns, fields[i], a) == Ok::<FieldValueV, ErrV>(fvs[i]));
            },
            (FieldDecl::Prefix { .. }, FieldValueV::Dict(m)) => {
                assert(a == AccV::Tab(m));
            },
            (FieldDecl::Starts { .. }, FieldValueV::Dict(m)) => {
                assert(a == AccV::Tab(m));
            },
            (FieldDecl::Child { .. }, FieldValueV::OptRec(o)) => {
                assert(o is None);
                assert(a == AccV::Unset);
            },
            (FieldDecl::Child { .. }, FieldValueV::ListRec(rs)) => {
                assert(rs.len() == 0);
                assert(a == AccV::ListR(Seq::empty()));
                assert(crate::read::listr_of(a) =~= rs);
                assert(finalize_field(ns, fields[i], a) == Ok::<FieldValueV, ErrV>(fvs[i]));
            },
            (FieldDecl::Flatten { .. }, FieldValueV::Opt(o)) => {
                assert(o is None);
                assert(a == AccV::Unset);
            },
            (FieldDecl::Flatten { .. }, FieldValueV::List(vs)) => {
                assert(vs.len() == 0);
                assert(a == AccV::ListS(Seq::empty()));
                assert(crate::read::lists_of(a) =~= vs);
                assert(finalize_field(ns, fields[i], a) == Ok::<FieldValueV, ErrV>(fvs[i]));
            },
            _ => {
                assert(false);
            },
        }
        assert(finalize_field(ns, fields[i], a) == Ok::<FieldValueV, ErrV>(fvs[i]));
        lemma_finalize_flat(ns, fvs, i + 1);
        assert(seq![fvs[i]] + fvs.skip(i + 1) =~= fvs.skip(i));
    }
}

/// Round trip of one self-closing record: reading back the written tokens
/// of a leaf record, or of a container whose children are all absent,
/// restores exactly the original value.
proof fn lemma_roundtrip_flat(
    ns: NamedSchema,
    fvs: Seq<FieldValueV>,
    toks: Seq<TokenV>,
    pos: int,
)
    requires
        schema_wf(RecordType::Named(ns)),
        rv_wf(RecordType::Named(ns), RecordValueV::Fields(fvs)),
        is_leaf(ns.fields@, 0) || (!has_text(ns.fields@, 0) && can_self_close(ns.fields@, 0)
            && content_is_empty(ns.fields@, fvs, 0)),
        0 <= pos,
        pos + spec_write_record(RecordType::Named(ns), RecordValueV::Fields(fvs)).len()
            <= toks.len(),
        toks.subrange(
            pos,
            pos + spec_write_record(RecordType::Named(ns), RecordValueV::Fields(fvs)).len(),
        ) == spec_write_record(RecordType::Named(ns), RecordValueV::Fields(fvs)),
    ensures
        spec_read_named(ns, toks, pos) == RRes::Good(
            RecordValueV::Fields(fvs),
            pos + spec_write_record(RecordType::Named(ns), RecordValueV::Fields(fvs)).len(),
        ),
{
    let fields = ns.fields@;
    let w = spec_write_record(RecordType::Named(ns), RecordValueV::Fields(fvs));
    let a = attr_tokens(fields, fvs, 0);
    let m = map_tokens(fields, fvs, 0);
    if is_leaf(fields, 0) {
        lemma_leaf_no_text(fields, 0);
    }
    assert(terminal_tokens(ns, fvs) == seq![TokenV::EndEmpty]);
    assert(w == seq![TokenV::Start(ns.tag@)] + a + m + seq![TokenV::EndEmpty]);
    assert(w.len() == 2 + a.len() + m.len());
    assert forall|x: int| 0 <= x < w.len() implies toks[pos + x] == w[x] by {
        assert(toks.subrange(pos, pos + w.len())[x] == toks[pos + x]);
    }
    assert(toks[pos] == TokenV::Start(ns.tag@)) by {
        assert(w[0] == TokenV::Start(ns.tag@));
    }
    // the attribute phase
    assert(init_accs(fields, 0) =~= pa(fields, fvs, 0)) by {
        lemma_init_accs_pointwise(fields, 0);
        assert forall|j: int| 0 <= j < fields.len() implies init_accs(fields, 0)[j] == pa(
            fields,
            fvs,
            0,
        )[j] by {
            assert(init_accs(fields, 0)[j - 0] == init_acc1(fields[j]));
        }
    }
    assert(toks.subrange(pos + 1, pos + 1 + a.len()) =~= a) by {
        assert forall|x: int| 0 <= x < a.len() implies toks.subrange(
            pos + 1,
            pos + 1 + a.len(),
        )[x] == a[x] by {
            assert(toks[pos + (1 + x)] == w[1 + x]);
            assert(w[1 + x] == a[x]);
        }
    }
    lemma_read_attr_phase(ns, fvs, toks, pos + 1, 0);
    // the mapping phase
    assert(pa(fields, fvs, fields.len() as int) =~= pm(fields, fvs, 0));
    let p1 = pos + 1 + a.len();
    assert(toks.subrange(p1, p1 + m.len()) =~= m) by {
        assert forall|x: int| 0 <= x < m.len() implies toks.subrange(p1, p1 + m.len())[x] == m[x]
        by {
            assert(toks[pos + 1 + a.len() + x] == w[1 + a.len() + x]);
            assert(w[1 + a.len() + x] == m[x]);
        }
    }
    lemma_read_map_phase(ns, fvs, toks, p1, 0);
    // the loop stops at the self-closing token
    let p2 = p1 + m.len();
    assert(toks[p2] == TokenV::EndEmpty) by {
        assert(w[1 + a.len() + m.len() as int] == TokenV::EndEmpty);
    }
    let accs2 = pm(fields, fvs, fields.len() as int);
    assert(spec_read_attrs(ns, accs2, toks, p2) == ARes::Good(accs2, p2));
    assert(spec_read_attrs(ns, init_accs(fields, 0), toks, pos + 1) == ARes::Good(accs2, p2));
    // finalize
    lemma_finalize_flat(ns, fvs, 0);
    assert(fvs.skip(0) =~= fvs);
    assert(!has_text(fields, 0));
    assert(spec_finalize(ns, accs2, 0) == FRes::Good(fvs));
    assert(crate::read::finish(ns, accs2, p2 + 1) == RRes::Good(RecordValueV::Fields(fvs), p2 + 1));
    assert(pos <= p2 <= toks.len());
    assert(pos < toks.len());
    assert(crate::read::spec_finish_container(ns, accs2, toks, p2) == RRes::Good(
        RecordValueV::Fields(fvs),
        p2 + 1,
    ));
    assert(spec_read_named(ns, toks, pos) == RRes::Good(RecordValueV::Fields(fvs), p2 + 1));
}

/// With a single text field, the text body is exactly the opened tag, the
/// formatted content, and the end tag.
proof fn lemma_text_tokens_single(
    ns: NamedSchema,
    fvs: Seq<FieldValueV>,
    i: int,
    ti: int,
    s: ScalarV,
)
    requires
        fvs.len() == ns.fields@.len(),
        text_field_idx(ns.fields@, 0) == Some(ti),
        0 <= ti < ns.fields@.len(),
        fvs[ti] == FieldValueV::One(s),
        forall|a: int, k: Seq<char>| #[trigger] field_claims(ns.fields@, a, k),
        0 <= i <= ns.fields@.len(),
    ensures
        text_tokens(ns.tag@, ns.fields@, fvs, i) == (if i <= ti {
            match ns.fields@[ti] {
                FieldDecl::Text { conv, cdata, .. } => seq![TokenV::EndOpen] + seq![
                    if cdata {
                        TokenV::Cdata(spec_format(false, conv, s))
                    } else {
                        TokenV::Text(spec_format(false, conv, s))
                    },
                    TokenV::EndClose(ns.tag@),
                ],
                _ => Seq::<TokenV>::empty(),
            }
        } else {
            Seq::<TokenV>::empty()
        }),
    decreases ns.fields@.len() - i,
{
    let fields = ns.fields@;
    if i < fields.len() {
        lemma_text_tokens_single(ns, fvs, i + 1, ti, s);
        if fields[i] is Text {
            assert(field_claims(fields, i, Seq::<char>::empty()));
            assert(text_field_idx(fields, 0) == Some(i));
            assert(i == ti);
            match fields[ti] {
                FieldDecl::Text { conv, cdata, .. } => {
                    assert(text_tokens(ns.tag@, fields, fvs, i) =~= (seq![TokenV::EndOpen] + seq![
                        if cdata {
                            TokenV::Cdata(spec_format(false, conv, s))
                        } else {
                            TokenV::Text(spec_format(false, conv, s))
                        },
                        TokenV::EndClose(ns.tag@),
                    ]) + Seq::<TokenV>::empty());
                },
                _ => {},
            }
        } else {
            assert(text_tokens(ns.tag@, fields, fvs, i) =~= Seq::<TokenV>::empty() + text_tokens(
                ns.tag@,
                fields,
                fvs,
                i + 1,
            ));
        }
    }
}

/// Finalizing after a text-bearing read restores the original fields.
proof fn lemma_finalize_text(ns: NamedSchema, fvs: Seq<FieldValueV>, i: int, ti: int, s: ScalarV)
    requires
        fvs.len() == ns.fields@.len(),
        0 <= i <= ns.fields@.len(),
        fields_wf(ns.fields@, fvs, i),
        0 <= ti < ns.fields@.len(),
        ns.fields@[ti] is Text,
        fvs[ti] == FieldValueV::One(s),
        text_excludes_children(ns.fields@),
        has_text(ns.fields@, 0),
        forall|a: int, k: Seq<char>| #[trigger] field_claims(ns.fields@, a, k),
    ensures
        spec_finalize(
            ns,
            pm(ns.fields@, fvs, ns.fields@.len() as int).update(ti, AccV::Got(s)),
            i,
        ) == FRes::Good(fvs.skip(i)),
    decreases ns.fields@.len() - i,
{
    let fields = ns.fields@;
    let accs = pm(fields, fvs, fields.len() as int).update(ti, AccV::Got(s));
    if i == fields.len() {
        assert(fvs.skip(i) =~= Seq::<FieldValueV>::empty());
    } else {
        assert(field_value_wf(fields[i], fvs[i]));
        assert(!(fields[i] is Child) && !(fields[i] is Flatten));
        if i == ti {
            assert(accs[i] == AccV::Got(s));
            assert(finalize_field(ns, fields[i], accs[i]) == Ok::<FieldValueV, ErrV>(fvs[i]));
        } else {
            let a = pm(fields, fvs, fields.len() as int)[i];
            assert(accs[i] == a);
            match (fields[i], fvs[i]) {
                (FieldDecl::Attr { .. }, FieldValueV::One(s2)) => {
                    assert(a == AccV::Got(s2));
                },
                (FieldDecl::Attr { .. }, FieldValueV::Opt(o)) => {
                },
                (FieldDecl::Prefix { .. }, FieldValueV::Dict(m)) => {
                    assert(a == AccV::Tab(m));
                },
                (FieldDecl::Starts { .. }, FieldValueV::Dict(m)) => {
                    assert(a == AccV::Tab(m));
                },
                (FieldDecl::Text { .. }, _) => {
                    assert(false) by {
                        assert(field_claims(fields, i, Seq::<char>::empty()));
                        assert(field_claims(fields, ti, Seq::<char>::empty()));
                    }
                },
                _ => {
                    assert(false);
                },
            }
            assert(finalize_field(ns, fields[i], accs[i]) == Ok::<FieldValueV, ErrV>(fvs[i]));
        }
        lemma_finalize_text(ns, fvs, i + 1, ti, s);
        assert(seq![fvs[i]] + fvs.skip(i + 1) =~= fvs.skip(i));
    }
}

/// Round trip of one text-bearing record.
proof fn lemma_roundtrip_text(
    ns: NamedSchema,
    fvs: Seq<FieldValueV>,
    toks: Seq<TokenV>,
    pos: int,
)
    requires
        schema_wf(RecordType::Named(ns)),
        rv_wf(RecordType::Named(ns), RecordValueV::Fields(fvs)),
        !is_leaf(ns.fields@, 0),
        has_text(ns.fields@, 0),
        0 <= pos,
        pos + spec_write_record(RecordType::Named(ns), RecordValueV::Fields(fvs)).len()
            <= toks.len(),
        toks.subrange(
            pos,
            pos + spec_write_record(RecordType::Named(ns), RecordValueV::Fields(fvs)).len(),
        ) == spec_write_record(RecordType::Named(ns), RecordValueV::Fields(fvs)),
    ensures
        spec_read_named(ns, toks, pos) == RRes::Good(
            RecordValueV::Fields(fvs),
            pos + spec_write_record(RecordType::Named(ns), RecordValueV::Fields(fvs)).len(),
        ),
{
    let fields = ns.fields@;
    let w = spec_write_record(RecordType::Named(ns), RecordValueV::Fields(fvs));
    let a = attr_tokens(fields, fvs, 0);
    let m = map_tokens(fields, fvs, 0);
    let ti = lemma_has_text_idx(fields, 0);
    assert(field_claims(fields, ti, Seq::<char>::empty()));
    let tidx = match text_field_idx(fields, 0) {
        Some(x) => x,
        None => -1,
    };
    assert(tidx == ti) by {
        assert(text_field_idx(fields, 0) == Some(ti));
    }
    lemma_fields_wf_at(fields, fvs, 0, ti);
    let s = match fvs[ti] {
        FieldValueV::One(s0) => s0,
        _ => arbitrary(),
    };
    assert(fvs[ti] == FieldValueV::One(s));
    lemma_text_tokens_single(ns, fvs, 0, ti, s);
    let tt = text_tokens(ns.tag@, fields, fvs, 0);
    let conv = crate::read::field_kind_conv(fields[ti]).1;
    let kind = crate::read::field_kind_conv(fields[ti]).0;
    let body = if fields[ti]->Text_cdata {
        TokenV::Cdata(spec_format(false, conv, s))
    } else {
        TokenV::Text(spec_format(false, conv, s))
    };
    assert(tt == seq![TokenV::EndOpen] + seq![body, TokenV::EndClose(ns.tag@)]);
    assert(terminal_tokens(ns, fvs) == tt);
    assert(w == seq![TokenV::Start(ns.tag@)] + a + m + tt);
    assert(w.len() == 4 + a.len() + m.len());
    assert forall|x: int| 0 <= x < w.len() implies toks[pos + x] == w[x] by {
        assert(toks.subrange(pos, pos + w.len())[x] == toks[pos + x]);
    }
    assert(toks[pos] == TokenV::Start(ns.tag@)) by {
        assert(w[0] == TokenV::Start(ns.tag@));
    }
    assert(init_accs(fields, 0) =~= pa(fields, fvs, 0)) by {
        lemma_init_accs_pointwise(fields, 0);
        assert forall|j: int| 0 <= j < fields.len() implies init_accs(fields, 0)[j] == pa(
            fields,
            fvs,
            0,
        )[j] by {
            assert(init_accs(fields, 0)[j - 0] == init_acc1(fields[j]));
        }
    }
    assert(toks.subrange(pos + 1, pos + 1 + a.len()) =~= a) by {
        assert forall|x: int| 0 <= x < a.len() implies toks.subrange(
            pos + 1,
            pos + 1 + a.len(),
        )[x] == a[x] by {
            assert(toks[pos + 1 + x] == w[1 + x]);
            assert(w[1 + x] == a[x]);
        }
    }
    lemma_read_attr_phase(ns, fvs, toks, pos + 1, 0);
    assert(pa(fields, fvs, fields.len() as int) =~= pm(fields, fvs, 0));
    let p1 = pos + 1 + a.len();
    assert(toks.subrange(p1, p1 + m.len()) =~= m) by {
        assert forall|x: int| 0 <= x < m.len() implies toks.subrange(p1, p1 + m.len())[x] == m[x]
        by {
            assert(toks[pos + 1 + a.len() + x] == w[1 + a.len() + x]);
            assert(w[1 + a.len() + x] == m[x]);
        }
    }
    lemma_read_map_phase(ns, fvs, toks, p1, 0);
    let p2 = p1 + m.len();
    let accs2 = pm(fields, fvs, fields.len() as int);
    assert(toks[p2] == TokenV::EndOpen) by {
        assert(w[1 + a.len() + m.len() as int] == tt[0]);
    }
    assert(spec_read_attrs(ns, accs2, toks, p2) == ARes::Good(accs2, p2));
    assert(spec_read_attrs(ns, init_accs(fields, 0), toks, pos + 1) == ARes::Good(accs2, p2));
    // the text body
    assert(toks[p2 + 1] == body) by {
        assert(w[2 + a.len() + m.len() as int] == tt[1]);
    }
    assert(toks[p2 + 2] == TokenV::EndClose(ns.tag@)) by {
        assert(w[3 + a.len() + m.len() as int] == tt[2]);
    }
    let fmt = spec_format(false, conv, s);
    assert(spec_read_text(ns.tag@, toks, p2 + 2) == crate::read::TRes::Good(
        Seq::<char>::empty(),
        p2 + 3,
    ));
    assert(spec_read_text(ns.tag@, toks, p2 + 1) == crate::read::TRes::Good(
        fmt + Seq::<char>::empty(),
        p2 + 3,
    ));
    assert(fmt + Seq::<char>::empty() =~= fmt);
    assert(spec_read_text(ns.tag@, toks, p2) == crate::read::TRes::Good(fmt, p2 + 3));
    assert(field_value_wf(fields[ti], fvs[ti]));
    assert(kind_of(s) == kind && crate::convert::scalar_v_wf(s));
    lemma_parse_format(false, conv, s);
    assert(spec_parse(kind, conv, fmt) == Some(s));
    lemma_finalize_text(ns, fvs, 0, ti, s);
    assert(fvs.skip(0) =~= fvs);
    assert(spec_finalize(ns, accs2.update(ti, AccV::Got(s)), 0) == FRes::Good(fvs));
    assert(crate::read::spec_finish_text(ns, accs2, toks, p2) == RRes::Good(
        RecordValueV::Fields(fvs),
        p2 + 3,
    ));
    assert(spec_read_named(ns, toks, pos) == RRes::Good(RecordValueV::Fields(fvs), p2 + 3));
}

/// A field list with a text field has a first text field, and its index
/// satisfies `text_field_idx`.
proof fn lemma_has_text_idx(fields: Seq<FieldDecl>, i: int) -> (ti: int)
    requires
        0 <= i,
        has_text(fields, i),
    ensures
        i <= ti < fields.len(),
        fields[ti] is Text,
        text_field_idx(fields, i) == Some(ti),
    decreases fields.len() - i,
{
    if fields[i] is Text {
        i
    } else {
        lemma_has_text_idx(fields, i + 1)
    }
}


/// The accumulator of field `j` after the child phase has processed the
/// first `i` fields (following both attribute phases).
pub open spec fn pc_acc(fields: Seq<FieldDecl>, fvs: Seq<FieldValueV>, i: int, j: int) -> AccV {
    if j < i {
        match (fields[j], fvs[j]) {
            (FieldDecl::Child { .. }, FieldValueV::OneRec(r)) => AccV::GotRec(*r),
            (FieldDecl::Child { .. }, FieldValueV::OptRec(Some(r))) => AccV::GotRec(*r),
            (FieldDecl::Child { .. }, FieldValueV::ListRec(rs)) => AccV::ListR(rs),
            _ => pm_acc(fields, fvs, fields.len() as int, j),
        }
    } else {
        pm_acc(fields, fvs, fields.len() as int, j)
    }
}

pub open spec fn pc(fields: Seq<FieldDecl>, fvs: Seq<FieldValueV>, i: int) -> Seq<AccV> {
    Seq::new(fields.len() as nat, |j: int| pc_acc(fields, fvs, i, j))
}

/// The accumulator of field `j` after the flatten phase has processed the
/// first `i` fields (following the child phase).
pub open spec fn pf_acc(fields: Seq<FieldDecl>, fvs: Seq<FieldValueV>, i: int, j: int) -> AccV {
    if j < i {
        match (fields[j], fvs[j]) {
            (FieldDecl::Flatten { .. }, FieldValueV::One(s)) => AccV::Got(s),
            (FieldDecl::Flatten { .. }, FieldValueV::Opt(Some(s))) => AccV::Got(s),
            (FieldDecl::Flatten { .. }, FieldValueV::List(vs)) => AccV::ListS(vs),
            _ => pc_acc(fields, fvs, fields.len() as int, j),
        }
    } else {
        pc_acc(fields, fvs, fields.len() as int, j)
    }
}

pub open spec fn pf(fields: Seq<FieldDecl>, fvs: Seq<FieldValueV>, i: int) -> Seq<AccV> {
    Seq::new(fields.len() as nat, |j: int| pf_acc(fields, fvs, i, j))
}

/// Every well-formed record writes a stream that opens with a start tag
/// the record type itself matches.
proof fn lemma_write_head(rt: RecordType, v: RecordValueV) -> (t: Seq<char>)
    requires
        rv_wf(rt, v),
    ensures
        spec_write_record(rt, v).len() > 0,
        spec_write_record(rt, v)[0] == TokenV::Start(t),
        rt_tag_matches(rt, t),
    decreases v,
{
    match (rt, v) {
        (RecordType::Named(ns), RecordValueV::Fields(fvs)) => {
            let w = spec_write_record(rt, v);
            assert(w[0] == TokenV::Start(ns.tag@));
            ns.tag@
        },
        (RecordType::Newtype(_, inner), RecordValueV::Wrapped(b)) => lemma_write_head(*inner, *b),
        (RecordType::Enum(_, vars), RecordValueV::Variant(i, b)) => {
            let t = lemma_write_head(vars@[i], *b);
            lemma_variant_matches(vars@, i as int, t);
            t
        },
        _ => arbitrary(),
    }
}

proof fn lemma_variant_matches(vars: Seq<RecordType>, i: int, t: Seq<char>)
    requires
        0 <= i < vars.len(),
        rt_tag_matches(vars[i], t),
    ensures
        crate::read::any_variant_matches(vars, t, 0),
    decreases vars.len(),
{
    lemma_variant_matches_from(vars, i, t, 0);
}

proof fn lemma_variant_matches_from(vars: Seq<RecordType>, i: int, t: Seq<char>, j: int)
    requires
        0 <= j <= i < vars.len(),
        rt_tag_matches(vars[i], t),
    ensures
        crate::read::any_variant_matches(vars, t, j),
    decreases i - j,
{
    if j < i {
        lemma_variant_matches_from(vars, i, t, j + 1);
    }
}

/// `fields_schema_wf` holds pointwise.
proof fn lemma_fields_schema_wf_at(fields: Seq<FieldDecl>, i: int, j: int)
    requires
        fields_schema_wf(fields, i),
        0 <= i <= j < fields.len(),
    ensures
        (fields[j] matches FieldDecl::Child { ty, .. } ==> schema_wf(ty)),
    decreases j - i,
{
    if i < j {
        lemma_fields_schema_wf_at(fields, i + 1, j);
    }
}

/// Reading one list field's written children appends them in order.
#[verifier::rlimit(80)]
proof fn lemma_read_child_list(
    ns: NamedSchema,
    fvs: Seq<FieldValueV>,
    toks: Seq<TokenV>,
    pos: int,
    i: int,
    ty: RecordType,
    rs: Seq<RecordValueV>,
    e: int,
    accs: Seq<AccV>,
)
    requires
        schema_wf(RecordType::Named(ns)),
        fvs.len() == ns.fields@.len(),
        0 <= i < ns.fields@.len(),
        (ns.fields@[i] matches FieldDecl::Child { ty: t2, mult: Mult::List, .. } && t2 == ty),
        schema_wf(ty),
        rec_list_wf(ty, rs, e),
        0 <= e <= rs.len(),
        accs.len() == ns.fields@.len(),
        accs[i] == AccV::ListR(rs.take(e)),
        0 <= pos,
        pos + rec_list_tokens(ty, rs, e).len() <= toks.len(),
        toks.subrange(pos, pos + rec_list_tokens(ty, rs, e).len()) == rec_list_tokens(ty, rs, e),
    ensures
        spec_read_children(ns, accs, toks, pos) == spec_read_children(
            ns,
            accs.update(i, AccV::ListR(rs)),
            toks,
            pos + rec_list_tokens(ty, rs, e).len(),
        ),
    decreases rs, rs.len() - e,
{
    let fields = ns.fields@;
    let ct = rec_list_tokens(ty, rs, e);
    if e == rs.len() {
        assert(rs.take(e) =~= rs);
        assert(accs.update(i, AccV::ListR(rs)) =~= accs);
    } else {
        let r = rs[e];
        let w = spec_write_record(ty, r);
        let tail = rec_list_tokens(ty, rs, e + 1);
        assert(ct == w + tail);
        let t = lemma_write_head(ty, r);
        assert forall|x: int| 0 <= x < ct.len() implies toks[pos + x] == ct[x] by {
            assert(toks.subrange(pos, pos + ct.len())[x] == toks[pos + x]);
        }
        assert(toks[pos] == TokenV::Start(t)) by {
            assert(ct[0] == w[0]);
        }
        assert(field_claims(fields, i, t));
        assert(match_child_field(fields, t, 0) == Some(i));
        assert(toks.subrange(pos, pos + w.len()) =~= w) by {
            assert forall|x: int| 0 <= x < w.len() implies toks.subrange(pos, pos + w.len())[x]
                == w[x] by {
                assert(toks[pos + x] == ct[x]);
                assert(ct[x] == w[x]);
            }
        }
        lemma_rw_record(ty, r, toks, pos);
        assert(spec_read_record(ty, toks, pos) == RRes::Good(r, pos + w.len()));
        let accs2 = accs.update(i, AccV::ListR(rs.take(e).push(r)));
        assert(crate::read::attach_rec(accs, i, Mult::List, r) == accs2) by {
            assert(crate::read::listr_of(accs[i]) == rs.take(e));
        }
        assert(rs.take(e).push(r) =~= rs.take(e + 1));
        assert(toks.subrange(pos + w.len(), pos + w.len() + tail.len()) =~= tail) by {
            assert forall|x: int| 0 <= x < tail.len() implies toks.subrange(
                pos + w.len(),
                pos + w.len() + tail.len(),
            )[x] == tail[x] by {
                assert(toks[pos + (w.len() + x)] == ct[w.len() + x]);
                assert(ct[w.len() + x] == tail[x]);
            }
        }
        lemma_read_child_list(ns, fvs, toks, pos + w.len(), i, ty, rs, e + 1, accs2);
        assert(accs2.update(i, AccV::ListR(rs)) =~= accs.update(i, AccV::ListR(rs)));
    }
}

/// The child phase: reading the written child elements fills exactly the
/// child fields, in declared order.
#[verifier::rlimit(80)]
proof fn lemma_read_child_phase(
    ns: NamedSchema,
    fvs: Seq<FieldValueV>,
    toks: Seq<TokenV>,
    pos: int,
    i: int,
)
    requires
        schema_wf(RecordType::Named(ns)),
        fields_wf(ns.fields@, fvs, 0),
        fvs.len() == ns.fields@.len(),
        0 <= i <= ns.fields@.len(),
        0 <= pos,
        pos + child_tokens(ns.fields@, fvs, i).len() <= toks.len(),
        toks.subrange(pos, pos + child_tokens(ns.fields@, fvs, i).len()) == child_tokens(
            ns.fields@,
            fvs,
            i,
        ),
    ensures
        spec_read_children(ns, pc(ns.fields@, fvs, i), toks, pos) == spec_read_children(
            ns,
            pc(ns.fields@, fvs, ns.fields@.len() as int),
            toks,
            pos + child_tokens(ns.fields@, fvs, i).len(),
        ),
    decreases fvs, 0int, ns.fields@.len() - i, 1int,
{
    let fields = ns.fields@;
    let ci = child_tokens(fields, fvs, i);
    if i == fields.len() {
        assert(ci.len() == 0);
    } else {
        lemma_fields_wf_at(fields, fvs, 0, i);
        lemma_fields_schema_wf_at(fields, 0, i);
        let tail = child_tokens(fields, fvs, i + 1);
        let accs = pc(fields, fvs, i);
        match (fields[i], fvs[i]) {
            (FieldDecl::Child { ty, mult, .. }, FieldValueV::OneRec(r)) => {
                lemma_child_one_step(ns, fvs, toks, pos, i, ty, *r, mult);
            },
            (FieldDecl::Child { ty, mult, .. }, FieldValueV::OptRec(Some(r))) => {
                lemma_child_one_step(ns, fvs, toks, pos, i, ty, *r, mult);
            },
            (FieldDecl::Child { ty, .. }, FieldValueV::ListRec(rs)) => {
                let head = rec_list_tokens(ty, rs, 0);
                assert(ci == head + tail);
                assert(accs[i] == AccV::ListR(Seq::<RecordValueV>::empty()));
                assert(rs.take(0) =~= Seq::<RecordValueV>::empty());
                assert(toks.subrange(pos, pos + head.len()) =~= head) by {
                    assert forall|x: int| 0 <= x < head.len() implies toks.subrange(
                        pos,
                        pos + head.len(),
                    )[x] == head[x] by {
                        assert(toks.subrange(pos, pos + ci.len())[x] == toks[pos + x]);
                        assert(ci[x] == head[x]);
                    }
                }
                lemma_read_child_list(ns, fvs, toks, pos, i, ty, rs, 0, accs);
                assert(accs.update(i, AccV::ListR(rs)) =~= pc(fields, fvs, i + 1));
                assert(toks.subrange(pos + head.len(), pos + head.len() + tail.len()) =~= tail)
                    by {
                    assert forall|x: int| 0 <= x < tail.len() implies toks.subrange(
                        pos + head.len(),
                        pos + head.len() + tail.len(),
                    )[x] == tail[x] by {
                        assert(toks.subrange(pos, pos + ci.len())[head.len() + x] == toks[pos
                            + head.len() + x]);
                        assert(ci[head.len() + x] == tail[x]);
                    }
                }
                lemma_read_child_phase(ns, fvs, toks, pos + head.len(), i + 1);
            },
            _ => {
                assert(ci =~= Seq::<TokenV>::empty() + tail);
                assert(ci == tail);
                assert(pc(fields, fvs, i) =~= pc(fields, fvs, i + 1));
                lemma_read_child_phase(ns, fvs, toks, pos, i + 1);
            },
        }
    }
}

/// One single or optional child element.
#[verifier::rlimit(80)]
proof fn lemma_child_one_step(
    ns: NamedSchema,
    fvs: Seq<FieldValueV>,
    toks: Seq<TokenV>,
    pos: int,
    i: int,
    ty: RecordType,
    r: RecordValueV,
    mult: Mult,
)
    requires
        schema_wf(RecordType::Named(ns)),
        fields_wf(ns.fields@, fvs, 0),
        fvs.len() == ns.fields@.len(),
        0 <= i < ns.fields@.len(),
        (ns.fields@[i] matches FieldDecl::Child { ty: t2, mult: m2, .. } && t2 == ty && m2
            == mult),
        (mult == Mult::One && fvs[i] == FieldValueV::OneRec(Box::new(r)) || mult == Mult::Opt
            && fvs[i] == FieldValueV::OptRec(Some(Box::new(r)))),
        0 <= pos,
        pos + child_tokens(ns.fields@, fvs, i).len() <= toks.len(),
        toks.subrange(pos, pos + child_tokens(ns.fields@, fvs, i).len()) == child_tokens(
            ns.fields@,
            fvs,
            i,
        ),
    ensures
        spec_read_children(ns, pc(ns.fields@, fvs, i), toks, pos) == spec_read_children(
            ns,
            pc(ns.fields@, fvs, ns.fields@.len() as int),
            toks,
            pos + child_tokens(ns.fields@, fvs, i).len(),
        ),
    decreases fvs, 0int, ns.fields@.len() - i, 0int,
{
    let fields = ns.fields@;
    let ci = child_tokens(fields, fvs, i);
    let tail = child_tokens(fields, fvs, i + 1);
    let w = spec_write_record(ty, r);
    assert(ci == w + tail);
    lemma_fields_wf_at(fields, fvs, 0, i);
    assert(rv_wf(ty, r));
    lemma_fields_schema_wf_at(fields, 0, i);
    let t = lemma_write_head(ty, r);
    assert forall|x: int| 0 <= x < ci.len() implies toks[pos + x] == ci[x] by {
        assert(toks.subrange(pos, pos + ci.len())[x] == toks[pos + x]);
    }
    assert(toks[pos] == TokenV::Start(t)) by {
        assert(ci[0] == w[0]);
    }
    assert(field_claims(fields, i, t));
    assert(match_child_field(fields, t, 0) == Some(i));
    assert(toks.subrange(pos, pos + w.len()) =~= w) by {
        assert forall|x: int| 0 <= x < w.len() implies toks.subrange(pos, pos + w.len())[x]
            == w[x] by {
            assert(toks[pos + x] == ci[x]);
            assert(ci[x] == w[x]);
        }
    }
    lemma_rw_record(ty, r, toks, pos);
    let accs = pc(fields, fvs, i);
    let accs2 = accs.update(i, AccV::GotRec(r));
    assert(crate::read::attach_rec(accs, i, mult, r) == accs2);
    assert(accs2 =~= pc(fields, fvs, i + 1));
    assert(toks.subrange(pos + w.len(), pos + w.len() + tail.len()) =~= tail) by {
        assert forall|x: int| 0 <= x < tail.len() implies toks.subrange(
            pos + w.len(),
            pos + w.len() + tail.len(),
        )[x] == tail[x] by {
            assert(toks[pos + (w.len() + x)] == ci[w.len() + x]);
            assert(ci[w.len() + x] == tail[x]);
        }
    }
    lemma_read_child_phase(ns, fvs, toks, pos + w.len(), i + 1);
}

/// The flatten phase: reading the written flatten-text children fills
/// exactly the flatten fields.
#[verifier::rlimit(80)]
proof fn lemma_read_flat_phase(
    ns: NamedSchema,
    fvs: Seq<FieldValueV>,
    toks: Seq<TokenV>,
    pos: int,
    i: int,
)
    requires
        schema_wf(RecordType::Named(ns)),
        fields_wf(ns.fields@, fvs, 0),
        fvs.len() == ns.fields@.len(),
        0 <= i <= ns.fields@.len(),
        0 <= pos,
        pos + flatten_tokens(ns.fields@, fvs, i).len() <= toks.len(),
        toks.subrange(pos, pos + flatten_tokens(ns.fields@, fvs, i).len()) == flatten_tokens(
            ns.fields@,
            fvs,
            i,
        ),
    ensures
        spec_read_children(ns, pf(ns.fields@, fvs, i), toks, pos) == spec_read_children(
            ns,
            pf(ns.fields@, fvs, ns.fields@.len() as int),
            toks,
            pos + flatten_tokens(ns.fields@, fvs, i).len(),
        ),
    decreases ns.fields@.len() - i, 3int,
{
    let fields = ns.fields@;
    let fi = flatten_tokens(fields, fvs, i);
    if i == fields.len() {
        assert(fi.len() == 0);
    } else {
        lemma_fields_wf_at(fields, fvs, 0, i);
        let tail = flatten_tokens(fields, fvs, i + 1);
        match (fields[i], fvs[i]) {
            (FieldDecl::Flatten { tag, conv, cdata, kind, mult, .. }, FieldValueV::One(s)) => {
                lemma_flat_one_step(ns, fvs, toks, pos, i, tag@, conv, cdata, kind, mult, s);
            },
            (FieldDecl::Flatten { tag, conv, cdata, kind, mult, .. }, FieldValueV::Opt(Some(s))) => {
                lemma_flat_one_step(ns, fvs, toks, pos, i, tag@, conv, cdata, kind, mult, s);
            },
            (FieldDecl::Flatten { tag, conv, cdata, kind, mult, .. }, FieldValueV::List(vs)) => {
                let head = flat_list_tokens(tag@, conv, cdata, vs, 0);
                assert(fi == head + tail);
                let accs = pf(fields, fvs, i);
                assert(accs[i] == AccV::ListS(Seq::<ScalarV>::empty()));
                assert(vs.take(0) =~= Seq::<ScalarV>::empty());
                assert(toks.subrange(pos, pos + head.len()) =~= head) by {
                    assert forall|x: int| 0 <= x < head.len() implies toks.subrange(
                        pos,
                        pos + head.len(),
                    )[x] == head[x] by {
                        assert(toks.subrange(pos, pos + fi.len())[x] == toks[pos + x]);
                        assert(fi[x] == head[x]);
                    }
                }
                lemma_read_flat_list(ns, fvs, toks, pos, i, tag@, conv, cdata, kind, vs, 0, accs);
                assert(accs.update(i, AccV::ListS(vs)) =~= pf(fields, fvs, i + 1));
                assert(toks.subrange(pos + head.len(), pos + head.len() + tail.len()) =~= tail)
                    by {
                    assert forall|x: int| 0 <= x < tail.len() implies toks.subrange(
                        pos + head.len(),
                        pos + head.len() + tail.len(),
                    )[x] == tail[x] by {
                        assert(toks.subrange(pos, pos + fi.len())[head.len() + x] == toks[pos
                            + head.len() + x]);
                        assert(fi[head.len() + x] == tail[x]);
                    }
                }
                lemma_read_flat_phase(ns, fvs, toks, pos + head.len(), i + 1);
            },
            _ => {
                assert(fi =~= Seq::<TokenV>::empty() + tail);
                assert(fi == tail);
                assert(pf(fields, fvs, i) =~= pf(fields, fvs, i + 1));
                lemma_read_flat_phase(ns, fvs, toks, pos, i + 1);
            },
        }
    }
}

/// The four tokens of one flatten-text child parse back to its value.
#[verifier::rlimit(100)]
proof fn lemma_flat_tokens_read(
    ns: NamedSchema,
    toks: Seq<TokenV>,
    pos: int,
    i: int,
    tag: Seq<char>,
    conv: crate::model::Conv,
    cdata: bool,
    kind: crate::model::ScalarKind,
    s: ScalarV,
    accs: Seq<AccV>,
    mult: Mult,
)
    requires
        forall|a: int, k: Seq<char>| #[trigger] field_claims(ns.fields@, a, k),
        0 <= i < ns.fields@.len(),
        (ns.fields@[i] matches FieldDecl::Flatten { tag: g2, conv: c2, cdata: d2, kind: k2, mult: m2, .. }
            && g2@ == tag && c2 == conv && d2 == cdata && k2 == kind && m2 == mult),
        kind_of(s) == kind,
        crate::convert::scalar_v_wf(s),
        0 <= pos,
        pos + 4 <= toks.len(),
        toks.subrange(pos, pos + 4) == flat_one(tag, conv, cdata, s),
    ensures
        spec_read_children(ns, accs, toks, pos) == spec_read_children(
            ns,
            crate::read::attach_scalar(accs, i, mult, s),
            toks,
            pos + 4,
        ),
{
    let fields = ns.fields@;
    let fo = flat_one(tag, conv, cdata, s);
    assert(fo.len() == 4);
    assert forall|x: int| 0 <= x < 4 implies toks[pos + x] == fo[x] by {
        assert(toks.subrange(pos, pos + 4)[x] == toks[pos + x]);
    }
    let fmt = spec_format(false, conv, s);
    assert(fo[0] == TokenV::Start(tag));
    assert(fo[1] == TokenV::EndOpen);
    assert(fo[3] == TokenV::EndClose(tag));
    assert(toks[pos + 0] == fo[0]);
    assert(toks[pos + 1] == fo[1]);
    assert(toks[pos + 2] == fo[2]);
    assert(toks[pos + 3] == fo[3]);
    assert(toks[pos] == TokenV::Start(tag));
    assert(field_claims(fields, i, tag));
    assert(match_child_field(fields, tag, 0) is None);
    assert(match_flatten_field(fields, tag, 0) == Some(i));
    assert(spec_read_text(tag, toks, pos + 3) == crate::read::TRes::Good(
        Seq::<char>::empty(),
        pos + 4,
    ));
    assert(toks[pos + 2] == fo[2]);
    assert(spec_read_text(tag, toks, pos + 2) == crate::read::TRes::Good(
        fmt + Seq::<char>::empty(),
        pos + 4,
    ));
    assert(fmt + Seq::<char>::empty() =~= fmt);
    assert(spec_read_text(tag, toks, pos + 1) == crate::read::TRes::Good(fmt, pos + 4));
    lemma_parse_format(false, conv, s);
    assert(spec_parse(kind, conv, fmt) == Some(s));
}

/// One single or optional flatten-text child.
proof fn lemma_flat_one_step(
    ns: NamedSchema,
    fvs: Seq<FieldValueV>,
    toks: Seq<TokenV>,
    pos: int,
    i: int,
    tag: Seq<char>,
    conv: crate::model::Conv,
    cdata: bool,
    kind: crate::model::ScalarKind,
    mult: Mult,
    s: ScalarV,
)
    requires
        schema_wf(RecordType::Named(ns)),
        fields_wf(ns.fields@, fvs, 0),
        fvs.len() == ns.fields@.len(),
        0 <= i < ns.fields@.len(),
        (ns.fields@[i] matches FieldDecl::Flatten { tag: g2, conv: c2, cdata: d2, kind: k2, mult: m2, .. }
            && g2@ == tag && c2 == conv && d2 == cdata && k2 == kind && m2 == mult),
        (mult == Mult::One && fvs[i] == FieldValueV::One(s) || mult == Mult::Opt && fvs[i]
            == FieldValueV::Opt(Some(s))),
        0 <= pos,
        pos + flatten_tokens(ns.fields@, fvs, i).len() <= toks.len(),
        toks.subrange(pos, pos + flatten_tokens(ns.fields@, fvs, i).len()) == flatten_tokens(
            ns.fields@,
            fvs,
            i,
        ),
    ensures
        spec_read_children(ns, pf(ns.fields@, fvs, i), toks, pos) == spec_read_children(
            ns,
            pf(ns.fields@, fvs, ns.fields@.len() as int),
            toks,
            pos + flatten_tokens(ns.fields@, fvs, i).len(),
        ),
    decreases ns.fields@.len() - i, 2int,
{
    let fields = ns.fields@;
    let fi = flatten_tokens(fields, fvs, i);
    let tail = flatten_tokens(fields, fvs, i + 1);
    let fo = flat_one(tag, conv, cdata, s);
    assert(fi == fo + tail);
    assert(fo.len() == 4);
    lemma_fields_wf_at(fields, fvs, 0, i);
    assert(kind_of(s) == kind && crate::convert::scalar_v_wf(s));
    let accs = pf(fields, fvs, i);
    assert(toks.subrange(pos, pos + 4) =~= fo) by {
        assert forall|x: int| 0 <= x < 4 implies toks.subrange(pos, pos + 4)[x] == fo[x] by {
            assert(toks.subrange(pos, pos + fi.len())[x] == toks[pos + x]);
            assert(fi[x] == fo[x]);
        }
    }
    lemma_flat_tokens_read(ns, toks, pos, i, tag, conv, cdata, kind, s, accs, mult);
    let accs2 = crate::read::attach_scalar(accs, i, mult, s);
    assert(accs2 =~= pf(fields, fvs, i + 1));
    assert(toks.subrange(pos + 4, pos + 4 + tail.len()) =~= tail) by {
        assert forall|x: int| 0 <= x < tail.len() implies toks.subrange(
            pos + 4,
            pos + 4 + tail.len(),
        )[x] == tail[x] by {
            assert(toks.subrange(pos, pos + fi.len())[4 + x] == toks[pos + 4 + x]);
            assert(fi[4 + x] == tail[x]);
        }
    }
    lemma_read_flat_phase(ns, fvs, toks, pos + 4, i + 1);
}

/// Reading one list field's written flatten-text children appends them in
/// order.
proof fn lemma_read_flat_list(
    ns: NamedSchema,
    fvs: Seq<FieldValueV>,
    toks: Seq<TokenV>,
    pos: int,
    i: int,
    tag: Seq<char>,
    conv: crate::model::Conv,
    cdata: bool,
    kind: crate::model::ScalarKind,
    vs: Seq<ScalarV>,
    e: int,
    accs: Seq<AccV>,
)
    requires
        forall|a: int, k: Seq<char>| #[trigger] field_claims(ns.fields@, a, k),
        fvs.len() == ns.fields@.len(),
        0 <= i < ns.fields@.len(),
        (ns.fields@[i] matches FieldDecl::Flatten { tag: g2, conv: c2, cdata: d2, kind: k2, mult: Mult::List, .. }
            && g2@ == tag && c2 == conv && d2 == cdata && k2 == kind),
        crate::write::scalar_list_wf(vs, kind),
        0 <= e <= vs.len(),
        accs.len() == ns.fields@.len(),
        accs[i] == AccV::ListS(vs.take(e)),
        0 <= pos,
        pos + flat_list_tokens(tag, conv, cdata, vs, e).len() <= toks.len(),
        toks.subrange(pos, pos + flat_list_tokens(tag, conv, cdata, vs, e).len())
            == flat_list_tokens(tag, conv, cdata, vs, e),
    ensures
        spec_read_children(ns, accs, toks, pos) == spec_read_children(
            ns,
            accs.update(i, AccV::ListS(vs)),
            toks,
            pos + flat_list_tokens(tag, conv, cdata, vs, e).len(),
        ),
    decreases vs.len() - e,
{
    let fields = ns.fields@;
    let ft = flat_list_tokens(tag, conv, cdata, vs, e);
    if e == vs.len() {
        assert(vs.take(e) =~= vs);
        assert(accs.update(i, AccV::ListS(vs)) =~= accs);
    } else {
        let s = vs[e];
        let fo = flat_one(tag, conv, cdata, s);
        let tail = flat_list_tokens(tag, conv, cdata, vs, e + 1);
        assert(ft == fo + tail);
        assert(fo.len() == 4);
        assert(toks.subrange(pos, pos + 4) =~= fo) by {
            assert forall|x: int| 0 <= x < 4 implies toks.subrange(pos, pos + 4)[x] == fo[x] by {
                assert(toks.subrange(pos, pos + ft.len())[x] == toks[pos + x]);
                assert(ft[x] == fo[x]);
            }
        }
        lemma_flat_tokens_read(ns, toks, pos, i, tag, conv, cdata, kind, s, accs, Mult::List);
        let accs2 = crate::read::attach_scalar(accs, i, Mult::List, s);
        assert(accs2 == accs.update(i, AccV::ListS(vs.take(e).push(s)))) by {
            assert(crate::read::lists_of(accs[i]) == vs.take(e));
        }
        assert(vs.take(e).push(s) =~= vs.take(e + 1));
        assert(toks.subrange(pos + 4, pos + 4 + tail.len()) =~= tail) by {
            assert forall|x: int| 0 <= x < tail.len() implies toks.subrange(
                pos + 4,
                pos + 4 + tail.len(),
            )[x] == tail[x] by {
                assert(toks.subrange(pos, pos + ft.len())[4 + x] == toks[pos + 4 + x]);
                assert(ft[4 + x] == tail[x]);
            }
        }
        lemma_read_flat_list(ns, fvs, toks, pos + 4, i, tag, conv, cdata, kind, vs, e + 1, accs2);
        assert(accs2.update(i, AccV::ListS(vs)) =~= accs.update(i, AccV::ListS(vs)));
    }
}

/// Finalizing after a container read restores the original fields.
proof fn lemma_finalize_full(ns: NamedSchema, fvs: Seq<FieldValueV>, i: int)
    requires
        fvs.len() == ns.fields@.len(),
        0 <= i <= ns.fields@.len(),
        fields_wf(ns.fields@, fvs, i),
        !has_text(ns.fields@, i),
    ensures
        spec_finalize(ns, pf(ns.fields@, fvs, ns.fields@.len() as int), i) == FRes::Good(
            fvs.skip(i),
        ),
    decreases ns.fields@.len() - i,
{
    let fields = ns.fields@;
    let accs = pf(fields, fvs, fields.len() as int);
    if i == fields.len() {
        assert(fvs.skip(i) =~= Seq::<FieldValueV>::empty());
    } else {
        assert(field_value_wf(fields[i], fvs[i]));
        let a = accs[i];
        match (fields[i], fvs[i]) {
            (FieldDecl::Attr { .. }, FieldValueV::One(s)) => {
                assert(a == AccV::Got(s));
            },
            (FieldDecl::Attr { .. }, FieldValueV::Opt(o)) => {
            },
            (FieldDecl::Prefix { .. }, FieldValueV::Dict(m)) => {
                assert(a == AccV::Tab(m));
            },
            (FieldDecl::Starts { .. }, FieldValueV::Dict(m)) => {
                assert(a == AccV::Tab(m));
            },
            (FieldDecl::Child { .. }, FieldValueV::OneRec(r)) => {
                assert(a == AccV::GotRec(*r));
                assert(finalize_field(ns, fields[i], a) == Ok::<FieldValueV, ErrV>(
                    FieldValueV::OneRec(Box::new(*r)),
                ));
            },
            (FieldDecl::Child { .. }, FieldValueV::OptRec(o)) => {
                match o {
                    Some(r) => {
                        assert(a == AccV::GotRec(*r));
                    },
                    None => {
                        assert(a == AccV::Unset);
                    },
                }
            },
            (FieldDecl::Child { .. }, FieldValueV::ListRec(rs)) => {
                assert(a == AccV::ListR(rs));
                assert(crate::read::listr_of(a) == rs);
            },
            (FieldDecl::Flatten { .. }, FieldValueV::One(s)) => {
                assert(a == AccV::Got(s));
            },
            (FieldDecl::Flatten { .. }, FieldValueV::Opt(o)) => {
            },
            (FieldDecl::Flatten { .. }, FieldValueV::List(vs)) => {
                assert(a == AccV::ListS(vs));
                assert(crate::read::lists_of(a) == vs);
            },
            _ => {
                assert(false);
            },
        }
        assert(finalize_field(ns, fields[i], a) == Ok::<FieldValueV, ErrV>(fvs[i]));
        lemma_finalize_full(ns, fvs, i + 1);
        assert(seq![fvs[i]] + fvs.skip(i + 1) =~= fvs.skip(i));
    }
}

/// Round trip of one record against a named schema, all terminal forms.
#[verifier::rlimit(100)]
proof fn lemma_rw_named(ns: NamedSchema, fvs: Seq<FieldValueV>, toks: Seq<TokenV>, pos: int)
    requires
        schema_wf(RecordType::Named(ns)),
        rv_wf(RecordType::Named(ns), RecordValueV::Fields(fvs)),
        0 <= pos,
        pos + spec_write_record(RecordType::Named(ns), RecordValueV::Fields(fvs)).len()
            <= toks.len(),
        toks.subrange(
            pos,
            pos + spec_write_record(RecordType::Named(ns), RecordValueV::Fields(fvs)).len(),
        ) == spec_write_record(RecordType::Named(ns), RecordValueV::Fields(fvs)),
    ensures
        spec_read_named(ns, toks, pos) == RRes::Good(
            RecordValueV::Fields(fvs),
            pos + spec_write_record(RecordType::Named(ns), RecordValueV::Fields(fvs)).len(),
        ),
    decreases fvs, 1int, 0int, 0int,
{
    let fields = ns.fields@;
    let w = spec_write_record(RecordType::Named(ns), RecordValueV::Fields(fvs));
    if is_leaf(fields, 0) || (!has_text(fields, 0) && can_self_close(fields, 0)
        && content_is_empty(fields, fvs, 0)) {
        lemma_roundtrip_flat(ns, fvs, toks, pos);
    } else if has_text(fields, 0) {
        lemma_roundtrip_text(ns, fvs, toks, pos);
    } else {
        lemma_rw_container(ns, fvs, toks, pos);
    }
}

/// Round trip of one open container record.
#[verifier::rlimit(100)]
proof fn lemma_rw_container(ns: NamedSchema, fvs: Seq<FieldValueV>, toks: Seq<TokenV>, pos: int)
    requires
        schema_wf(RecordType::Named(ns)),
        rv_wf(RecordType::Named(ns), RecordValueV::Fields(fvs)),
        !is_leaf(ns.fields@, 0),
        !has_text(ns.fields@, 0),
        !(can_self_close(ns.fields@, 0) && content_is_empty(ns.fields@, fvs, 0)),
        0 <= pos,
        pos + spec_write_record(RecordType::Named(ns), RecordValueV::Fields(fvs)).len()
            <= toks.len(),
        toks.subrange(
            pos,
            pos + spec_write_record(RecordType::Named(ns), RecordValueV::Fields(fvs)).len(),
        ) == spec_write_record(RecordType::Named(ns), RecordValueV::Fields(fvs)),
    ensures
        spec_read_named(ns, toks, pos) == RRes::Good(
            RecordValueV::Fields(fvs),
            pos + spec_write_record(RecordType::Named(ns), RecordValueV::Fields(fvs)).len(),
        ),
    decreases fvs, 0int, ns.fields@.len() + 1, 2int,
{
    let fields = ns.fields@;
    let w = spec_write_record(RecordType::Named(ns), RecordValueV::Fields(fvs));
    {
        // open container: children, flatten-text children, end tag
        let a = attr_tokens(fields, fvs, 0);
        let m = map_tokens(fields, fvs, 0);
        let c = child_tokens(fields, fvs, 0);
        let f = flatten_tokens(fields, fvs, 0);
        let term = terminal_tokens(ns, fvs);
        assert(term == seq![TokenV::EndOpen] + c + f + seq![TokenV::EndClose(ns.tag@)]);
        assert(w == seq![TokenV::Start(ns.tag@)] + a + m + term);
        assert(w.len() == 3 + a.len() + m.len() + c.len() + f.len());
        assert forall|x: int| 0 <= x < w.len() implies toks[pos + x] == w[x] by {
            assert(toks.subrange(pos, pos + w.len())[x] == toks[pos + x]);
        }
        assert(toks[pos] == TokenV::Start(ns.tag@)) by {
            assert(w[0] == TokenV::Start(ns.tag@));
        }
        assert(init_accs(fields, 0) =~= pa(fields, fvs, 0)) by {
            lemma_init_accs_pointwise(fields, 0);
            assert forall|j: int| 0 <= j < fields.len() implies init_accs(fields, 0)[j] == pa(
                fields,
                fvs,
                0,
            )[j] by {
                assert(init_accs(fields, 0)[j - 0] == init_acc1(fields[j]));
            }
        }
        assert(toks.subrange(pos + 1, pos + 1 + a.len()) =~= a) by {
            assert forall|x: int| 0 <= x < a.len() implies toks.subrange(
                pos + 1,
                pos + 1 + a.len(),
            )[x] == a[x] by {
                assert(toks[pos + 1 + x] == w[1 + x]);
                assert(w[1 + x] == a[x]);
            }
        }
        lemma_read_attr_phase(ns, fvs, toks, pos + 1, 0);
        assert(pa(fields, fvs, fields.len() as int) =~= pm(fields, fvs, 0));
        let p1 = pos + 1 + a.len();
        assert(toks.subrange(p1, p1 + m.len()) =~= m) by {
            assert forall|x: int| 0 <= x < m.len() implies toks.subrange(p1, p1 + m.len())[x]
                == m[x] by {
                assert(toks[pos + 1 + a.len() + x] == w[1 + a.len() + x]);
                assert(w[1 + a.len() + x] == m[x]);
            }
        }
        lemma_read_map_phase(ns, fvs, toks, p1, 0);
        let p2 = p1 + m.len();
        let accs2 = pm(fields, fvs, fields.len() as int);
        assert(toks[p2] == TokenV::EndOpen) by {
            assert(w[1 + a.len() + m.len() as int] == term[0]);
        }
        assert(spec_read_attrs(ns, accs2, toks, p2) == ARes::Good(accs2, p2));
        assert(spec_read_attrs(ns, init_accs(fields, 0), toks, pos + 1) == ARes::Good(accs2, p2));
        // children
        assert(accs2 =~= pc(fields, fvs, 0));
        let p3 = p2 + 1;
        assert(toks.subrange(p3, p3 + c.len()) =~= c) by {
            assert forall|x: int| 0 <= x < c.len() implies toks.subrange(p3, p3 + c.len())[x]
                == c[x] by {
                assert(toks[pos + 2 + a.len() + m.len() + x] == w[2 + a.len() + m.len() + x]);
                assert(w[2 + a.len() + m.len() + x] == term[1 + x]);
                assert(term[1 + x] == c[x]);
            }
        }
        lemma_read_child_phase(ns, fvs, toks, p3, 0);
        assert(pc(fields, fvs, fields.len() as int) =~= pf(fields, fvs, 0));
        let p4 = p3 + c.len();
        assert(toks.subrange(p4, p4 + f.len()) =~= f) by {
            assert forall|x: int| 0 <= x < f.len() implies toks.subrange(p4, p4 + f.len())[x]
                == f[x] by {
                assert(toks[pos + 2 + a.len() + m.len() + c.len() + x] == w[2 + a.len() + m.len()
                    + c.len() + x]);
                assert(w[2 + a.len() + m.len() + c.len() + x] == term[1 + c.len() + x]);
                assert(term[1 + c.len() + x] == f[x]);
            }
        }
        lemma_read_flat_phase(ns, fvs, toks, p4, 0);
        let p5 = p4 + f.len();
        let accs3 = pf(fields, fvs, fields.len() as int);
        assert(toks[p5] == TokenV::EndClose(ns.tag@)) by {
            assert(w[2 + a.len() + m.len() + c.len() + f.len() as int] == term[1 + c.len()
                + f.len() as int]);
        }
        assert(spec_read_children(ns, accs3, toks, p5) == ARes::Good(accs3, p5 + 1));
        assert(spec_read_children(ns, pc(fields, fvs, 0), toks, p3) == ARes::Good(accs3, p5 + 1));
        lemma_finalize_full(ns, fvs, 0);
        assert(fvs.skip(0) =~= fvs);
        assert(spec_finalize(ns, accs3, 0) == FRes::Good(fvs));
        assert(crate::read::finish(ns, accs3, p5 + 1) == RRes::Good(
            RecordValueV::Fields(fvs),
            p5 + 1,
        ));
        assert(crate::read::spec_finish_container(ns, accs2, toks, p2) == RRes::Good(
            RecordValueV::Fields(fvs),
            p5 + 1,
        ));
        assert(p5 + 1 == pos + w.len());
        assert(spec_read_named(ns, toks, pos) == RRes::Good(RecordValueV::Fields(fvs), p5 + 1));
    }
}

/// Round trip of one record: reading the written token stream, at its
/// position inside any larger stream, yields exactly the original value
/// and stops at its end.
#[verifier::rlimit(80)]
pub proof fn lemma_rw_record(rt: RecordType, v: RecordValueV, toks: Seq<TokenV>, pos: int)
    requires
        schema_wf(rt),
        rv_wf(rt, v),
        0 <= pos,
        pos + spec_write_record(rt, v).len() <= toks.len(),
        toks.subrange(pos, pos + spec_write_record(rt, v).len()) == spec_write_record(rt, v),
    ensures
        spec_read_record(rt, toks, pos) == RRes::Good(v, pos + spec_write_record(rt, v).len()),
    decreases v, 2int, 0int, 0int,
{
    let w = spec_write_record(rt, v);
    match (rt, v) {
        (RecordType::Named(ns), RecordValueV::Fields(fvs)) => {
            lemma_rw_named(ns, fvs, toks, pos);
        },
        (RecordType::Newtype(_, inner), RecordValueV::Wrapped(b)) => {
            lemma_rw_record(*inner, *b, toks, pos);
            assert(RecordValueV::Wrapped(Box::new(*b)) == v);
        },
        (RecordType::Enum(name, vars), RecordValueV::Variant(i, b)) => {
            let t = lemma_write_head(vars@[i], *b);
            assert forall|x: int| 0 <= x < w.len() implies toks[pos + x] == w[x] by {
                assert(toks.subrange(pos, pos + w.len())[x] == toks[pos + x]);
            }
            assert(w.len() > 0);
            assert(toks[pos + 0] == w[0]);
            assert(toks[pos] == TokenV::Start(t));
            assert(enum_claims(vars@, i as int, t));
            assert(find_variant(vars@, t, 0) == Some(i as int));
            lemma_variants_schema_wf_at(vars@, 0, i as int);
            lemma_rw_record(vars@[i], *b, toks, pos);
            assert(spec_read_record(vars@[i], toks, pos) == RRes::Good(*b, pos + w.len()));
            assert(RecordValueV::Variant(i as int, Box::new(*b)) == v);
            assert(crate::read::spec_read_enum(name@, vars@, toks, pos) == RRes::Good(
                v,
                pos + w.len(),
            ));
        },
        _ => {
            assert(false);
        },
    }
}

proof fn lemma_variants_schema_wf_at(vars: Seq<RecordType>, i: int, j: int)
    requires
        variants_schema_wf(vars, i),
        0 <= i <= j < vars.len(),
    ensures
        schema_wf(vars[j]),
    decreases j - i,
{
    if i < j {
        lemma_variants_schema_wf_at(vars, i + 1, j);
    }
}

/// The round-trip law: for every well-formed schema and every well-formed
/// record value, writing the record and reading the written token stream
/// back yields exactly the original record.
pub proof fn lemma_write_then_read(rt: RecordType, v: RecordValueV)
    requires
        schema_wf(rt),
        rv_wf(rt, v),
    ensures
        ({
            let w = spec_write_record(rt, v);
            spec_read_record(rt, w, 0) == RRes::Good(v, w.len() as int)
        }),
{
    let w = spec_write_record(rt, v);
    assert(w.subrange(0, w.len() as int) =~= w);
    lemma_rw_record(rt, v, w, 0);
}

} // verus!
