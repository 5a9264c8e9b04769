use vstd::prelude::*;
use crate::convert::{parse_generic, parse_scalar, spec_parse, spec_parse_generic};
use crate::err::{ErrV, XmlError, err_view};
use crate::mapops::{map_insert, spec_map_insert};
use crate::model::{
    FieldDecl, FieldValue, MapEntry, Mapping, Mult, NamedSchema, RecordType, RecordValue,
    RecordValueV, Scalar, ScalarKind, ScalarV, map_view, rv_view, rvs_view, scalar_view,
    lemma_rvs_view_len,
};
use crate::strutil::{push_char, str_eq};
use crate::token::{Token, TokenV, token_view, toks_view};
use crate::write::{has_text, text_check};

verus! {

broadcast use vstd::seq::group_seq_axioms, vstd::std_specs::vec::axiom_vec_decreases_to_view, vstd::seq::axiom_seq_index_decreases;

// ---------------------------------------------------------------------------
// Read-engine accumulators and result shapes, on the mathematical side.
// ---------------------------------------------------------------------------

/// The state of one field while its element is being read.
pub enum AccV {
    Unset,
    Got(ScalarV),
    GotRec(RecordValueV),
    ListS(Seq<ScalarV>),
    ListR(Seq<RecordValueV>),
    Tab(Seq<(Seq<char>, ScalarV)>),
}

pub enum RRes {
    Good(RecordValueV, int),
    Bad(ErrV),
}

pub enum ARes {
    Good(Seq<AccV>, int),
    Bad(ErrV),
}

pub enum CRes {
    Good(Seq<AccV>),
    Bad(ErrV),
}

pub enum TRes {
    Good(Seq<char>, int),
    Bad(ErrV),
}

pub enum SRes {
    Good(int),
    Bad(ErrV),
}

pub enum FRes {
    Good(Seq<crate::model::FieldValueV>),
    Bad(ErrV),
}

/// Initial accumulators: lists and mappings start empty, everything else
/// starts absent.
pub open spec fn init_accs(fields: Seq<FieldDecl>, i: int) -> Seq<AccV>
    decreases fields.len() - i,
{
    if i < 0 || i >= fields.len() {
        Seq::empty()
    } else {
        seq![
            match fields[i] {
                FieldDecl::Child { mult: Mult::List, .. } => AccV::ListR(Seq::empty()),
                FieldDecl::Flatten { mult: Mult::List, .. } => AccV::ListS(Seq::empty()),
                FieldDecl::Prefix { .. } => AccV::Tab(Seq::empty()),
                FieldDecl::Starts { .. } => AccV::Tab(Seq::empty()),
                _ => AccV::Unset,
            },
        ] + init_accs(fields, i + 1)
    }
}

/// The first attribute field whose declared name is exactly `k`.
pub open spec fn match_attr_field(fields: Seq<FieldDecl>, k: Seq<char>, i: int) -> Option<int>
    decreases fields.len() - i,
{
    if i < 0 || i >= fields.len() {
        None
    } else {
        match fields[i] {
            FieldDecl::Attr { attr, .. } => if attr@ == k {
                Some(i)
            } else {
                match_attr_field(fields, k, i + 1)
            },
            _ => match_attr_field(fields, k, i + 1),
        }
    }
}

/// Whether `k` is `prefix` followed by `:` and a suffix.
pub open spec fn prefix_match(prefix: Seq<char>, k: Seq<char>) -> bool {
    k.len() > prefix.len() && k.take(prefix.len() as int) == prefix && k[prefix.len() as int]
        == ':'
}

pub open spec fn prefix_suffix(prefix: Seq<char>, k: Seq<char>) -> Seq<char> {
    k.skip(prefix.len() as int + 1)
}

/// The first mapping field that claims attribute key `k`, with the mapping
/// key it stores: `prefix:suffix` for both roles, and for `Startswith` the
/// bare prefix maps to the empty key.
pub open spec fn match_map_field(fields: Seq<FieldDecl>, k: Seq<char>, i: int) -> Option<
    (int, Seq<char>),
>
    decreases fields.len() - i,
{
    if i < 0 || i >= fields.len() {
        None
    } else {
        match fields[i] {
            FieldDecl::Prefix { prefix, .. } => if prefix_match(prefix@, k) {
                Some((i, prefix_suffix(prefix@, k)))
            } else {
                match_map_field(fields, k, i + 1)
            },
            FieldDecl::Starts { prefix, .. } => if k == prefix@ {
                Some((i, Seq::empty()))
            } else if prefix_match(prefix@, k) {
                Some((i, prefix_suffix(prefix@, k)))
            } else {
                match_map_field(fields, k, i + 1)
            },
            _ => match_map_field(fields, k, i + 1),
        }
    }
}

/// The first child field that declares tag `t`.
pub open spec fn match_child_field(fields: Seq<FieldDecl>, t: Seq<char>, i: int) -> Option<int>
    decreases fields.len() - i,
{
    if i < 0 || i >= fields.len() {
        None
    } else {
        match fields[i] {
            FieldDecl::Child { tags, .. } => if tag_in(tags@, t, 0) {
                Some(i)
            } else {
                match_child_field(fields, t, i + 1)
            },
            _ => match_child_field(fields, t, i + 1),
        }
    }
}

pub open spec fn tag_in(tags: Seq<String>, t: Seq<char>, i: int) -> bool
    decreases tags.len() - i,
{
    if i < 0 || i >= tags.len() {
        false
    } else {
        tags[i]@ == t || tag_in(tags, t, i + 1)
    }
}

/// The first flatten-text field with tag `t`.
pub open spec fn match_flatten_field(fields: Seq<FieldDecl>, t: Seq<char>, i: int) -> Option<int>
    decreases fields.len() - i,
{
    if i < 0 || i >= fields.len() {
        None
    } else {
        match fields[i] {
            FieldDecl::Flatten { tag, .. } => if tag@ == t {
                Some(i)
            } else {
                match_flatten_field(fields, t, i + 1)
            },
            _ => match_flatten_field(fields, t, i + 1),
        }
    }
}

/// The first text field.
pub open spec fn text_field_idx(fields: Seq<FieldDecl>, i: int) -> Option<int>
    decreases fields.len() - i,
{
    if i < 0 || i >= fields.len() {
        None
    } else {
        match fields[i] {
            FieldDecl::Text { .. } => Some(i),
            _ => text_field_idx(fields, i + 1),
        }
    }
}

/// Whether an encountered tag selects this record type: its own tag for a
/// named schema, the wrapped type's for a newtype, any variant's for an enum.
pub open spec fn rt_tag_matches(rt: RecordType, t: Seq<char>) -> bool
    decreases rt, 0int,
{
    match rt {
        RecordType::Named(ns) => ns.tag@ == t,
        RecordType::Newtype(_, inner) => rt_tag_matches(*inner, t),
        RecordType::Enum(_, vars) => any_variant_matches(vars@, t, 0),
    }
}

pub open spec fn any_variant_matches(vars: Seq<RecordType>, t: Seq<char>, i: int) -> bool
    decreases vars, vars.len() - i,
{
    if i < 0 || i >= vars.len() {
        false
    } else {
        rt_tag_matches(vars[i], t) || any_variant_matches(vars, t, i + 1)
    }
}

/// The first variant matching tag `t`.
pub open spec fn find_variant(vars: Seq<RecordType>, t: Seq<char>, i: int) -> Option<int>
    decreases vars, vars.len() - i,
{
    if i < 0 || i >= vars.len() {
        None
    } else if rt_tag_matches(vars[i], t) {
        Some(i)
    } else {
        find_variant(vars, t, i + 1)
    }
}

/// The default for a scalar kind, substituted for an absent field whose
/// declaration carries the default flag.
pub open spec fn default_sv(kind: ScalarKind) -> ScalarV {
    match kind {
        ScalarKind::Str => ScalarV::Str(Seq::empty()),
        ScalarKind::Bool => ScalarV::Bool(false),
        ScalarKind::Int => ScalarV::Int(0),
    }
}

/// The field-wise default value of a record type.
pub open spec fn default_rv(rt: RecordType) -> RecordValueV
    decreases rt, 0int,
{
    match rt {
        RecordType::Named(ns) => RecordValueV::Fields(default_fields(ns.fields@, 0)),
        RecordType::Newtype(_, inner) => RecordValueV::Wrapped(Box::new(default_rv(*inner))),
        RecordType::Enum(_, vars) => if vars@.len() > 0 {
            RecordValueV::Variant(0, Box::new(default_rv(vars@[0])))
        } else {
            RecordValueV::Fields(Seq::empty())
        },
    }
}

pub open spec fn default_fields(fields: Seq<FieldDecl>, i: int) -> Seq<crate::model::FieldValueV>
    decreases fields, fields.len() - i,
{
    if i < 0 || i >= fields.len() {
        Seq::empty()
    } else {
        seq![default_fv(fields[i])] + default_fields(fields, i + 1)
    }
}

pub open spec fn default_fv(fd: FieldDecl) -> crate::model::FieldValueV
    decreases fd, 0int,
{
    match fd {
        FieldDecl::Attr { kind, mult, .. } => match mult {
            Mult::Opt => crate::model::FieldValueV::Opt(None),
            _ => crate::model::FieldValueV::One(default_sv(kind)),
        },
        FieldDecl::Text { kind, .. } => crate::model::FieldValueV::One(default_sv(kind)),
        FieldDecl::Flatten { kind, mult, .. } => match mult {
            Mult::Opt => crate::model::FieldValueV::Opt(None),
            Mult::List => crate::model::FieldValueV::List(Seq::empty()),
            Mult::One => crate::model::FieldValueV::One(default_sv(kind)),
        },
        FieldDecl::Prefix { .. } => crate::model::FieldValueV::Dict(Seq::empty()),
        FieldDecl::Starts { .. } => crate::model::FieldValueV::Dict(Seq::empty()),
        FieldDecl::Child { ty, mult, .. } => match mult {
            Mult::Opt => crate::model::FieldValueV::OptRec(None),
            Mult::List => crate::model::FieldValueV::ListRec(Seq::empty()),
            Mult::One => crate::model::FieldValueV::OneRec(Box::new(default_rv(ty))),
        },
    }
}

// ---------------------------------------------------------------------------
// The read engine, as a mathematical function on token views.
// ---------------------------------------------------------------------------

/// Applies one attribute to the accumulators: an exact attribute-field
/// match first, then the mapping fields, then the strictness policy.
pub open spec fn spec_apply_attr(
    ns: NamedSchema,
    accs: Seq<AccV>,
    k: Seq<char>,
    v: Seq<char>,
) -> CRes {
    match match_attr_field(ns.fields@, k, 0) {
        Some(i) => match field_kind_conv(ns.fields@[i]) {
            (kind, conv) => match spec_parse(kind, conv, v) {
                Some(sv) => CRes::Good(accs.update(i, AccV::Got(sv))),
                None => CRes::Bad(ErrV::FromStr(v)),
            },
        },
        None => match match_map_field(ns.fields@, k, 0) {
            Some((i, suffix)) => match field_kind_conv(ns.fields@[i]) {
                (kind, _) => match spec_parse_generic(kind, v) {
                    Some(sv) => CRes::Good(
                        accs.update(i, AccV::Tab(spec_map_insert(tab_of(accs[i]), suffix, sv))),
                    ),
                    None => CRes::Bad(ErrV::FromStr(v)),
                },
            },
            None => if ns.strict_attr {
                CRes::Bad(ErrV::UnknownField { name: ns.name@, field: k })
            } else {
                CRes::Good(accs)
            },
        },
    }
}

pub open spec fn field_kind_conv(fd: FieldDecl) -> (ScalarKind, crate::model::Conv) {
    match fd {
        FieldDecl::Attr { kind, conv, .. } => (kind, conv),
        FieldDecl::Text { kind, conv, .. } => (kind, conv),
        FieldDecl::Flatten { kind, conv, .. } => (kind, conv),
        FieldDecl::Prefix { kind, .. } => (kind, crate::model::Conv::Std),
        FieldDecl::Starts { kind, .. } => (kind, crate::model::Conv::Std),
        FieldDecl::Child { .. } => (ScalarKind::Str, crate::model::Conv::Std),
    }
}

pub open spec fn tab_of(a: AccV) -> Seq<(Seq<char>, ScalarV)> {
    match a {
        AccV::Tab(t) => t,
        _ => Seq::empty(),
    }
}

pub open spec fn lists_of(a: AccV) -> Seq<ScalarV> {
    match a {
        AccV::ListS(t) => t,
        _ => Seq::empty(),
    }
}

pub open spec fn listr_of(a: AccV) -> Seq<RecordValueV> {
    match a {
        AccV::ListR(t) => t,
        _ => Seq::empty(),
    }
}

/// Consumes the attribute tokens of the current start tag.
pub open spec fn spec_read_attrs(ns: NamedSchema, accs: Seq<AccV>, toks: Seq<TokenV>, pos: int) -> ARes
    decreases toks.len() - pos,
{
    if pos < 0 || pos >= toks.len() {
        ARes::Good(accs, pos)
    } else {
        match toks[pos] {
            TokenV::Attr(k, v) => match spec_apply_attr(ns, accs, k, v) {
                CRes::Good(accs2) => spec_read_attrs(ns, accs2, toks, pos + 1),
                CRes::Bad(e) => ARes::Bad(e),
            },
            _ => ARes::Good(accs, pos),
        }
    }
}

/// Reads the element's own raw text, bounded by the matching end tag.
pub open spec fn spec_read_text(tag: Seq<char>, toks: Seq<TokenV>, pos: int) -> TRes
    decreases toks.len() - pos,
{
    if pos < 0 || pos >= toks.len() {
        TRes::Bad(ErrV::UnexpectedEof)
    } else {
        match toks[pos] {
            TokenV::EndOpen => spec_read_text(tag, toks, pos + 1),
            TokenV::Text(s) => match spec_read_text(tag, toks, pos + 1) {
                TRes::Good(rest, np) => TRes::Good(s + rest, np),
                TRes::Bad(e) => TRes::Bad(e),
            },
            TokenV::Cdata(s) => match spec_read_text(tag, toks, pos + 1) {
                TRes::Good(rest, np) => TRes::Good(s + rest, np),
                TRes::Bad(e) => TRes::Bad(e),
            },
            TokenV::EndClose(t) => if t == tag {
                TRes::Good(Seq::empty(), pos + 1)
            } else {
                TRes::Bad(ErrV::UnexpectedToken(t))
            },
            TokenV::EndEmpty => TRes::Good(Seq::empty(), pos + 1),
            TokenV::Attr(k, _) => TRes::Bad(ErrV::UnexpectedToken(k)),
            TokenV::Start(t) => TRes::Bad(ErrV::UnexpectedToken(t)),
        }
    }
}

/// Skips an entire unknown element, tracking nesting depth.
pub open spec fn spec_skip(toks: Seq<TokenV>, pos: int, depth: int) -> SRes
    decreases toks.len() - pos,
{
    if depth <= 0 {
        SRes::Good(pos)
    } else if pos < 0 || pos >= toks.len() {
        SRes::Bad(ErrV::UnexpectedEof)
    } else {
        match toks[pos] {
            TokenV::Start(_) => spec_skip(toks, pos + 1, depth + 1),
            TokenV::EndEmpty => spec_skip(toks, pos + 1, depth - 1),
            TokenV::EndClose(_) => spec_skip(toks, pos + 1, depth - 1),
            _ => spec_skip(toks, pos + 1, depth),
        }
    }
}

/// Assembles the final field values: lists and mappings as accumulated, an
/// absent scalar from its default flag or the declared optionality, and
/// otherwise a `MissingField` naming the record and the field.
pub open spec fn spec_finalize(ns: NamedSchema, accs: Seq<AccV>, i: int) -> FRes
    decreases ns.fields@.len() - i,
{
    if i < 0 || i >= ns.fields@.len() {
        FRes::Good(Seq::empty())
    } else if accs.len() != ns.fields@.len() {
        FRes::Bad(ErrV::UnexpectedEof)
    } else {
        match finalize_field(ns, ns.fields@[i], accs[i]) {
            Ok(fv) => match spec_finalize(ns, accs, i + 1) {
                FRes::Good(rest) => FRes::Good(seq![fv] + rest),
                FRes::Bad(e) => FRes::Bad(e),
            },
            Err(e) => FRes::Bad(e),
        }
    }
}

pub open spec fn missing(ns: NamedSchema, fd: FieldDecl) -> ErrV {
    ErrV::MissingField { name: ns.name@, field: field_name_of(fd)@ }
}

pub open spec fn field_name_of(fd: FieldDecl) -> String {
    match fd {
        FieldDecl::Attr { name, .. } => name,
        FieldDecl::Text { name, .. } => name,
        FieldDecl::Flatten { name, .. } => name,
        FieldDecl::Prefix { name, .. } => name,
        FieldDecl::Starts { name, .. } => name,
        FieldDecl::Child { name, .. } => name,
    }
}

pub open spec fn finalize_field(ns: NamedSchema, fd: FieldDecl, a: AccV) -> Result<
    crate::model::FieldValueV,
    ErrV,
> {
    match fd {
        FieldDecl::Attr { kind, mult, dflt, .. } => match (mult, a) {
            (Mult::Opt, AccV::Got(s)) => Ok(crate::model::FieldValueV::Opt(Some(s))),
            (Mult::Opt, AccV::Unset) => Ok(crate::model::FieldValueV::Opt(None)),
            (_, AccV::Got(s)) => Ok(crate::model::FieldValueV::One(s)),
            (_, AccV::Unset) => if dflt {
                Ok(crate::model::FieldValueV::One(default_sv(kind)))
            } else {
                Err(missing(ns, fd))
            },
            _ => Err(missing(ns, fd)),
        },
        FieldDecl::Text { .. } => match a {
            AccV::Got(s) => Ok(crate::model::FieldValueV::One(s)),
            _ => Err(missing(ns, fd)),
        },
        FieldDecl::Flatten { kind, mult, dflt, .. } => match (mult, a) {
            (Mult::List, _) => Ok(crate::model::FieldValueV::List(lists_of(a))),
            (Mult::Opt, AccV::Got(s)) => Ok(crate::model::FieldValueV::Opt(Some(s))),
            (Mult::Opt, AccV::Unset) => Ok(crate::model::FieldValueV::Opt(None)),
            (Mult::One, AccV::Got(s)) => Ok(crate::model::FieldValueV::One(s)),
            (Mult::One, AccV::Unset) => if dflt {
                Ok(crate::model::FieldValueV::One(default_sv(kind)))
            } else {
                Err(missing(ns, fd))
            },
            _ => Err(missing(ns, fd)),
        },
        FieldDecl::Prefix { .. } => Ok(crate::model::FieldValueV::Dict(tab_of(a))),
        FieldDecl::Starts { .. } => Ok(crate::model::FieldValueV::Dict(tab_of(a))),
        FieldDecl::Child { ty, mult, dflt, .. } => match (mult, a) {
            (Mult::List, _) => Ok(crate::model::FieldValueV::ListRec(listr_of(a))),
            (Mult::Opt, AccV::GotRec(r)) => Ok(
                crate::model::FieldValueV::OptRec(Some(Box::new(r))),
            ),
            (Mult::Opt, AccV::Unset) => Ok(crate::model::FieldValueV::OptRec(None)),
            (Mult::One, AccV::GotRec(r)) => Ok(crate::model::FieldValueV::OneRec(Box::new(r))),
            (Mult::One, AccV::Unset) => if dflt {
                Ok(crate::model::FieldValueV::OneRec(Box::new(default_rv(ty))))
            } else {
                Err(missing(ns, fd))
            },
            _ => Err(missing(ns, fd)),
        },
    }
}

/// Attaches one child record to its field's accumulator.
pub open spec fn attach_rec(accs: Seq<AccV>, i: int, mult: Mult, v: RecordValueV) -> Seq<AccV> {
    match mult {
        Mult::List => accs.update(i, AccV::ListR(listr_of(accs[i]).push(v))),
        _ => accs.update(i, AccV::GotRec(v)),
    }
}

/// Attaches one flatten-text value to its field's accumulator.
pub open spec fn attach_scalar(accs: Seq<AccV>, i: int, mult: Mult, s: ScalarV) -> Seq<AccV> {
    match mult {
        Mult::List => accs.update(i, AccV::ListS(lists_of(accs[i]).push(s))),
        _ => accs.update(i, AccV::Got(s)),
    }
}

pub open spec fn field_mult(fd: FieldDecl) -> Mult {
    match fd {
        FieldDecl::Attr { mult, .. } => mult,
        FieldDecl::Flatten { mult, .. } => mult,
        FieldDecl::Child { mult, .. } => mult,
        _ => Mult::One,
    }
}

/// The child-reading loop of a container element: nested records, flatten
/// text, the strictness policy for unknown elements, and the enclosing end
/// tag.
pub open spec fn spec_read_children(
    ns: NamedSchema,
    accs: Seq<AccV>,
    toks: Seq<TokenV>,
    pos: int,
) -> ARes
    decreases ns, toks.len() - pos, 0int,
{
    if pos < 0 || pos >= toks.len() {
        ARes::Bad(ErrV::UnexpectedEof)
    } else {
        match toks[pos] {
            TokenV::Text(_) => spec_read_children(ns, accs, toks, pos + 1),
            TokenV::Cdata(_) => spec_read_children(ns, accs, toks, pos + 1),
            TokenV::EndClose(t) => if t == ns.tag@ {
                ARes::Good(accs, pos + 1)
            } else {
                ARes::Bad(ErrV::UnexpectedToken(t))
            },
            TokenV::Start(t) => match match_child_field(ns.fields@, t, 0) {
                Some(i) => if !(0 <= i < ns.fields@.len()) {
                    ARes::Bad(ErrV::UnexpectedToken(t))
                } else { match ns.fields@[i] {
                    FieldDecl::Child { ty, mult, .. } => match spec_read_record(ty, toks, pos) {
                        RRes::Good(v, np) => if pos < np <= toks.len() {
                            spec_read_children(ns, attach_rec(accs, i, mult, v), toks, np)
                        } else {
                            ARes::Bad(ErrV::UnexpectedEof)
                        },
                        RRes::Bad(e) => ARes::Bad(e),
                    },
                    _ => ARes::Bad(ErrV::UnexpectedToken(t)),
                } },
                None => match match_flatten_field(ns.fields@, t, 0) {
                    Some(i) => match spec_read_text(t, toks, pos + 1) {
                        TRes::Good(content, np) => match field_kind_conv(ns.fields@[i]) {
                            (kind, conv) => match spec_parse(kind, conv, content) {
                                Some(sv) => if pos < np <= toks.len() {
                                    spec_read_children(
                                        ns,
                                        attach_scalar(accs, i, field_mult(ns.fields@[i]), sv),
                                        toks,
                                        np,
                                    )
                                } else {
                                    ARes::Bad(ErrV::UnexpectedEof)
                                },
                                None => ARes::Bad(ErrV::FromStr(content)),
                            },
                        },
                        TRes::Bad(e) => ARes::Bad(e),
                    },
                    None => if ns.strict_elem {
                        ARes::Bad(ErrV::UnknownField { name: ns.name@, field: t })
                    } else {
                        match spec_skip(toks, pos + 1, 1) {
                            SRes::Good(np) => if pos < np <= toks.len() {
                                spec_read_children(ns, accs, toks, np)
                            } else {
                                ARes::Bad(ErrV::UnexpectedEof)
                            },
                            SRes::Bad(e) => ARes::Bad(e),
                        }
                    },
                },
            },
            TokenV::Attr(k, _) => ARes::Bad(ErrV::UnexpectedToken(k)),
            TokenV::EndOpen => ARes::Bad(ErrV::UnexpectedToken(Seq::empty())),
            TokenV::EndEmpty => ARes::Bad(ErrV::UnexpectedToken(Seq::empty())),
        }
    }
}

/// Reads one element against a named schema: advance to the matching start
/// tag (skipping other elements), consume the attributes, then either the
/// element's own text or its children, and assemble the record.
pub open spec fn spec_read_named(ns: NamedSchema, toks: Seq<TokenV>, pos: int) -> RRes
    decreases ns, toks.len() - pos, 1int,
{
    if pos < 0 || pos >= toks.len() {
        RRes::Bad(ErrV::UnexpectedEof)
    } else {
        match toks[pos] {
            TokenV::Text(_) => spec_read_named(ns, toks, pos + 1),
            TokenV::Cdata(_) => spec_read_named(ns, toks, pos + 1),
            TokenV::Start(t) => if t == ns.tag@ {
                match spec_read_attrs(ns, init_accs(ns.fields@, 0), toks, pos + 1) {
                    ARes::Good(accs, p2) => if has_text(ns.fields@, 0) {
                        spec_finish_text(ns, accs, toks, p2)
                    } else if pos <= p2 <= toks.len() {
                        spec_finish_container(ns, accs, toks, p2)
                    } else {
                        RRes::Bad(ErrV::UnexpectedEof)
                    },
                    ARes::Bad(e) => RRes::Bad(e),
                }
            } else {
                match spec_skip(toks, pos + 1, 1) {
                    SRes::Good(np) => if pos < np <= toks.len() {
                        spec_read_named(ns, toks, np)
                    } else {
                        RRes::Bad(ErrV::UnexpectedEof)
                    },
                    SRes::Bad(e) => RRes::Bad(e),
                }
            },
            TokenV::Attr(k, _) => RRes::Bad(ErrV::UnexpectedToken(k)),
            TokenV::EndOpen => RRes::Bad(ErrV::UnexpectedToken(Seq::empty())),
            TokenV::EndEmpty => RRes::Bad(ErrV::UnexpectedToken(Seq::empty())),
            TokenV::EndClose(t) => RRes::Bad(ErrV::UnexpectedToken(t)),
        }
    }
}

/// After the attributes of a text-bearing schema: its raw text, parsed with
/// the text field's converter.
pub open spec fn spec_finish_text(
    ns: NamedSchema,
    accs: Seq<AccV>,
    toks: Seq<TokenV>,
    pos: int,
) -> RRes {
    match spec_read_text(ns.tag@, toks, pos) {
        TRes::Good(content, np) => match text_field_idx(ns.fields@, 0) {
            Some(i) => match field_kind_conv(ns.fields@[i]) {
                (kind, conv) => match spec_parse(kind, conv, content) {
                    Some(sv) => finish(ns, accs.update(i, AccV::Got(sv)), np),
                    None => RRes::Bad(ErrV::FromStr(content)),
                },
            },
            None => finish(ns, accs, np),
        },
        TRes::Bad(e) => RRes::Bad(e),
    }
}

/// After the attributes of a container schema: a self-closing tag finalizes
/// immediately; otherwise the children are read up to the end tag.
pub open spec fn spec_finish_container(
    ns: NamedSchema,
    accs: Seq<AccV>,
    toks: Seq<TokenV>,
    pos: int,
) -> RRes
    decreases ns, toks.len() - pos, 0int,
{
    if pos < 0 || pos >= toks.len() {
        RRes::Bad(ErrV::UnexpectedEof)
    } else {
        match toks[pos] {
            TokenV::EndEmpty => finish(ns, accs, pos + 1),
            TokenV::EndOpen => match spec_read_children(ns, accs, toks, pos + 1) {
                ARes::Good(accs2, np) => finish(ns, accs2, np),
                ARes::Bad(e) => RRes::Bad(e),
            },
            TokenV::Start(t) => RRes::Bad(ErrV::UnexpectedToken(t)),
            TokenV::Attr(k, _) => RRes::Bad(ErrV::UnexpectedToken(k)),
            TokenV::Text(s) => RRes::Bad(ErrV::UnexpectedToken(s)),
            TokenV::Cdata(s) => RRes::Bad(ErrV::UnexpectedToken(s)),
            TokenV::EndClose(t) => RRes::Bad(ErrV::UnexpectedToken(t)),
        }
    }
}

pub open spec fn finish(ns: NamedSchema, accs: Seq<AccV>, np: int) -> RRes {
    match spec_finalize(ns, accs, 0) {
        FRes::Good(fvs) => RRes::Good(RecordValueV::Fields(fvs), np),
        FRes::Bad(e) => RRes::Bad(e),
    }
}

/// Reads one record of the given type from the token stream: the engine's
/// whole behaviour, as a mathematical function.
pub open spec fn spec_read_record(rt: RecordType, toks: Seq<TokenV>, pos: int) -> RRes
    decreases rt, toks.len() - pos, 2int,
{
    match rt {
        RecordType::Named(ns) => spec_read_named(ns, toks, pos),
        RecordType::Newtype(_, inner) => match spec_read_record(*inner, toks, pos) {
            RRes::Good(v, np) => RRes::Good(RecordValueV::Wrapped(Box::new(v)), np),
            RRes::Bad(e) => RRes::Bad(e),
        },
        RecordType::Enum(name, vars) => spec_read_enum(name@, vars@, toks, pos),
    }
}

/// Enum dispatch: the first variant whose tag matches the encountered start
/// tag reads the element; no match is an unknown-element error.
pub open spec fn spec_read_enum(
    name: Seq<char>,
    vars: Seq<RecordType>,
    toks: Seq<TokenV>,
    pos: int,
) -> RRes
    decreases vars, toks.len() - pos, 2int,
{
    if pos < 0 || pos >= toks.len() {
        RRes::Bad(ErrV::UnexpectedEof)
    } else {
        match toks[pos] {
            TokenV::Text(_) => spec_read_enum(name, vars, toks, pos + 1),
            TokenV::Cdata(_) => spec_read_enum(name, vars, toks, pos + 1),
            TokenV::Start(t) => match find_variant(vars, t, 0) {
                Some(i) => if !(0 <= i < vars.len()) {
                    RRes::Bad(ErrV::UnknownField { name: name, field: t })
                } else { match spec_read_record(vars[i], toks, pos) {
                    RRes::Good(v, np) => RRes::Good(
                        RecordValueV::Variant(i, Box::new(v)),
                        np,
                    ),
                    RRes::Bad(e) => RRes::Bad(e),
                } },
                None => RRes::Bad(ErrV::UnknownField { name: name, field: t }),
            },
            TokenV::Attr(k, _) => RRes::Bad(ErrV::UnexpectedToken(k)),
            TokenV::EndOpen => RRes::Bad(ErrV::UnexpectedToken(Seq::empty())),
            TokenV::EndEmpty => RRes::Bad(ErrV::UnexpectedToken(Seq::empty())),
            TokenV::EndClose(t) => RRes::Bad(ErrV::UnexpectedToken(t)),
        }
    }
}

// ---------------------------------------------------------------------------
// The read engine, executable and proved against the spec above.
// ---------------------------------------------------------------------------

/// The state of one field while its element is being read.
pub enum Acc {
    Unset,
    Got(Scalar),
    GotRec(RecordValue),
    ListS(Vec<Scalar>),
    ListR(Vec<RecordValue>),
    Tab(Mapping),
}

pub open spec fn acc_view(a: Acc) -> AccV
    decreases a,
{
    match a {
        Acc::Unset => AccV::Unset,
        Acc::Got(s) => AccV::Got(scalar_view(s)),
        Acc::GotRec(r) => AccV::GotRec(rv_view(r)),
        Acc::ListS(vs) => AccV::ListS(vs@.map_values(|s: Scalar| scalar_view(s))),
        Acc::ListR(rs) => AccV::ListR(rvs_view(rs@, 0)),
        Acc::Tab(m) => AccV::Tab(map_view(m)),
    }
}

pub open spec fn accs_view(s: Seq<Acc>, i: int) -> Seq<AccV>
    decreases s, s.len() - i,
{
    if i < 0 || i >= s.len() {
        Seq::empty()
    } else {
        seq![acc_view(s[i])] + accs_view(s, i + 1)
    }
}

pub proof fn lemma_accs_view_len(s: Seq<Acc>, i: int)
    requires
        0 <= i <= s.len(),
    ensures
        accs_view(s, i).len() == s.len() - i,
        forall|j: int| i <= j < s.len() ==> accs_view(s, i)[j - i] == acc_view(s[j]),
    decreases s.len() - i,
{
    if i < s.len() {
        lemma_accs_view_len(s, i + 1);
    }
}

pub proof fn lemma_accs_view0(s: Seq<Acc>)
    ensures
        accs_view(s, 0).len() == s.len(),
        forall|j: int| 0 <= j < s.len() ==> accs_view(s, 0)[j] == acc_view(s[j]),
{
    lemma_accs_view_len(s, 0);
    assert forall|j: int| 0 <= j < s.len() implies accs_view(s, 0)[j] == acc_view(s[j]) by {
        assert(accs_view(s, 0)[j - 0] == acc_view(s[j]));
    }
}

pub proof fn lemma_accs_update(s: Seq<Acc>, i: int, a: Acc)
    requires
        0 <= i < s.len(),
    ensures
        accs_view(s.update(i, a), 0) == accs_view(s, 0).update(i, acc_view(a)),
{
    lemma_accs_view0(s);
    lemma_accs_view0(s.update(i, a));
    assert(accs_view(s.update(i, a), 0) =~= accs_view(s, 0).update(i, acc_view(a)));
}

/// A copy of a scalar.
pub fn scalar_clone(s: &Scalar) -> (r: Scalar)
    ensures
        scalar_view(r) == scalar_view(*s),
{
    match s {
        Scalar::Str(x) => Scalar::Str(x.clone()),
        Scalar::Bool(b) => Scalar::Bool(*b),
        Scalar::Int(v) => Scalar::Int(*v),
    }
}

/// A copy of a mapping.
pub fn mapping_clone(m: &Mapping) -> (r: Mapping)
    ensures
        map_view(r) == map_view(*m),
{
    let mut entries: Vec<MapEntry> = Vec::new();
    let n = m.entries.len();
    let mut i: usize = 0;
    while i < n
        invariant
            n == m.entries@.len(),
            i <= n,
            entries@.len() == i,
            forall|j: int|
                0 <= j < i ==> entries@[j].key@ == m.entries@[j].key@ && scalar_view(
                    #[trigger] entries@[j].val,
                ) == scalar_view(m.entries@[j].val),
        decreases n - i,
    {
        let e = &m.entries[i];
        entries.push(MapEntry { key: e.key.clone(), val: scalar_clone(&e.val) });
        i = i + 1;
    }
    let r = Mapping { entries };
    proof {
        assert(map_view(r) =~= map_view(*m));
    }
    r
}

/// Initial accumulators for a field list.
fn init_accs_exec(fields: &Vec<FieldDecl>, i: usize) -> (r: Vec<Acc>)
    requires
        i <= fields@.len(),
    ensures
        accs_view(r@, 0) == init_accs(fields@, i as int),
        r@.len() == fields@.len() - i,
    decreases fields@.len() - i,
{
    if i >= fields.len() {
        let r: Vec<Acc> = Vec::new();
        proof {
            assert(accs_view(r@, 0) =~= init_accs(fields@, i as int));
        }
        r
    } else {
        let head: Acc = match &fields[i] {
            FieldDecl::Child { mult: Mult::List, .. } => Acc::ListR(Vec::new()),
            FieldDecl::Flatten { mult: Mult::List, .. } => Acc::ListS(Vec::new()),
            FieldDecl::Prefix { .. } => Acc::Tab(Mapping { entries: Vec::new() }),
            FieldDecl::Starts { .. } => Acc::Tab(Mapping { entries: Vec::new() }),
            _ => Acc::Unset,
        };
        let ghost gh = head;
        let mut rest = init_accs_exec(fields, i + 1);
        let ghost pre_rest = rest@;
        rest.insert(0, head);
        proof {
            lemma_accs_view0(rest@);
            lemma_accs_view0(pre_rest);
            match gh {
                Acc::Tab(m) => {
                    assert(map_view(m) =~= Seq::<(Seq<char>, ScalarV)>::empty());
                },
                Acc::ListR(l) => {
                    assert(rvs_view(l@, 0) =~= Seq::<RecordValueV>::empty());
                },
                Acc::ListS(l) => {
                    assert(l@.map_values(|s: Scalar| scalar_view(s)) =~= Seq::<ScalarV>::empty());
                },
                _ => {},
            }
            assert(accs_view(rest@, 0) =~= init_accs(fields@, i as int));
        }
        rest
    }
}

/// The first attribute field named `k`.
fn match_attr_exec(fields: &Vec<FieldDecl>, k: &str, i: usize) -> (r: Option<usize>)
    requires
        i <= fields@.len(),
    ensures
        (r matches Some(j) ==> match_attr_field(fields@, k@, i as int) == Some(j as int) && j
            < fields@.len() && fields@[j as int] is Attr),
        (r is None ==> match_attr_field(fields@, k@, i as int) is None),
    decreases fields@.len() - i,
{
    if i >= fields.len() {
        None
    } else {
        match &fields[i] {
            FieldDecl::Attr { attr, .. } => {
                if str_eq(attr.as_str(), k) {
                    Some(i)
                } else {
                    match_attr_exec(fields, k, i + 1)
                }
            },
            _ => match_attr_exec(fields, k, i + 1),
        }
    }
}

/// Whether `k` is `prefix` plus `:` plus a suffix.
fn prefix_match_exec(prefix: &str, k: &str) -> (r: bool)
    ensures
        r == prefix_match(prefix@, k@),
{
    let pl = prefix.unicode_len();
    let kl = k.unicode_len();
    if kl <= pl {
        return false;
    }
    if !crate::escape::match_at(k, 0, prefix) {
        proof {
            assert(k@.subrange(0, prefix@.len() as int) =~= k@.take(prefix@.len() as int));
        }
        return false;
    }
    proof {
        assert(k@.subrange(0, prefix@.len() as int) =~= k@.take(prefix@.len() as int));
    }
    k.get_char(pl) == ':'
}

/// The characters of `k` from `start` on.
fn str_suffix(k: &str, start: usize) -> (r: String)
    requires
        start <= k@.len(),
    ensures
        r@ == k@.skip(start as int),
{
    let n = k.unicode_len();
    let mut out = String::new();
    let mut i: usize = start;
    while i < n
        invariant
            n == k@.len(),
            start <= i <= n,
            out@.len() == i - start,
            forall|j: int| 0 <= j < out@.len() ==> out@[j] == k@[start + j],
        decreases n - i,
    {
        push_char(&mut out, k.get_char(i));
        i = i + 1;
    }
    proof {
        assert(out@ =~= k@.skip(start as int));
    }
    out
}

/// The first mapping field claiming attribute key `k`, and the mapping key.
fn match_map_exec(fields: &Vec<FieldDecl>, k: &str, i: usize) -> (r: Option<(usize, String)>)
    requires
        i <= fields@.len(),
    ensures
        (r matches Some(p) ==> match_map_field(fields@, k@, i as int) == Some(
            (p.0 as int, p.1@),
        ) && p.0 < fields@.len() && (fields@[p.0 as int] is Prefix || fields@[p.0 as int] is Starts)),
        (r is None ==> match_map_field(fields@, k@, i as int) is None),
    decreases fields@.len() - i,
{
    if i >= fields.len() {
        None
    } else {
        match &fields[i] {
            FieldDecl::Prefix { prefix, .. } => {
                if prefix_match_exec(prefix.as_str(), k) {
                    let kl = k.unicode_len();
                    let pl = prefix.as_str().unicode_len();
                    let suf = str_suffix(k, pl + 1);
                    Some((i, suf))
                } else {
                    match_map_exec(fields, k, i + 1)
                }
            },
            FieldDecl::Starts { prefix, .. } => {
                if str_eq(k, prefix.as_str()) {
                    let empty = String::new();
                    Some((i, empty))
                } else if prefix_match_exec(prefix.as_str(), k) {
                    let kl = k.unicode_len();
                    let pl = prefix.as_str().unicode_len();
                    let suf = str_suffix(k, pl + 1);
                    Some((i, suf))
                } else {
                    match_map_exec(fields, k, i + 1)
                }
            },
            _ => match_map_exec(fields, k, i + 1),
        }
    }
}

/// The first child field declaring tag `t`.
fn match_child_exec(fields: &Vec<FieldDecl>, t: &str, i: usize) -> (r: Option<usize>)
    requires
        i <= fields@.len(),
    ensures
        (r matches Some(j) ==> match_child_field(fields@, t@, i as int) == Some(j as int) && j
            < fields@.len() && fields@[j as int] is Child),
        (r is None ==> match_child_field(fields@, t@, i as int) is None),
    decreases fields@.len() - i,
{
    if i >= fields.len() {
        None
    } else {
        match &fields[i] {
            FieldDecl::Child { tags, .. } => {
                if tag_in_exec(tags, t, 0) {
                    Some(i)
                } else {
                    match_child_exec(fields, t, i + 1)
                }
            },
            _ => match_child_exec(fields, t, i + 1),
        }
    }
}

fn tag_in_exec(tags: &Vec<String>, t: &str, i: usize) -> (r: bool)
    requires
        i <= tags@.len(),
    ensures
        r == tag_in(tags@, t@, i as int),
    decreases tags@.len() - i,
{
    if i >= tags.len() {
        false
    } else {
        str_eq(tags[i].as_str(), t) || tag_in_exec(tags, t, i + 1)
    }
}

/// The first flatten-text field with tag `t`.
fn match_flatten_exec(fields: &Vec<FieldDecl>, t: &str, i: usize) -> (r: Option<usize>)
    requires
        i <= fields@.len(),
    ensures
        (r matches Some(j) ==> match_flatten_field(fields@, t@, i as int) == Some(j as int) && j
            < fields@.len() && fields@[j as int] is Flatten),
        (r is None ==> match_flatten_field(fields@, t@, i as int) is None),
    decreases fields@.len() - i,
{
    if i >= fields.len() {
        None
    } else {
        match &fields[i] {
            FieldDecl::Flatten { tag, .. } => {
                if str_eq(tag.as_str(), t) {
                    Some(i)
                } else {
                    match_flatten_exec(fields, t, i + 1)
                }
            },
            _ => match_flatten_exec(fields, t, i + 1),
        }
    }
}

/// The first text field.
fn text_idx_exec(fields: &Vec<FieldDecl>, i: usize) -> (r: Option<usize>)
    requires
        i <= fields@.len(),
    ensures
        (r matches Some(j) ==> text_field_idx(fields@, i as int) == Some(j as int) && j
            < fields@.len() && fields@[j as int] is Text),
        (r is None ==> text_field_idx(fields@, i as int) is None),
    decreases fields@.len() - i,
{
    if i >= fields.len() {
        None
    } else {
        match &fields[i] {
            FieldDecl::Text { .. } => Some(i),
            _ => text_idx_exec(fields, i + 1),
        }
    }
}

/// Whether a tag selects this record type.
pub fn rt_tag_matches_exec(rt: &RecordType, t: &str) -> (r: bool)
    ensures
        r == rt_tag_matches(*rt, t@),
    decreases *rt, 0int,
{
    match rt {
        RecordType::Named(ns) => str_eq(ns.tag.as_str(), t),
        RecordType::Newtype(_, inner) => rt_tag_matches_exec(inner, t),
        RecordType::Enum(_, vars) => any_variant_exec(vars, t, 0),
    }
}

fn any_variant_exec(vars: &Vec<RecordType>, t: &str, i: usize) -> (r: bool)
    requires
        i <= vars@.len(),
    ensures
        r == any_variant_matches(vars@, t@, i as int),
    decreases vars@, vars@.len() - i,
{
    if i >= vars.len() {
        false
    } else {
        rt_tag_matches_exec(&vars[i], t) || any_variant_exec(vars, t, i + 1)
    }
}

fn find_variant_exec(vars: &Vec<RecordType>, t: &str, i: usize) -> (r: Option<usize>)
    requires
        i <= vars@.len(),
    ensures
        (r matches Some(j) ==> find_variant(vars@, t@, i as int) == Some(j as int) && j
            < vars@.len()),
        (r is None ==> find_variant(vars@, t@, i as int) is None),
    decreases vars@, vars@.len() - i,
{
    if i >= vars.len() {
        None
    } else if rt_tag_matches_exec(&vars[i], t) {
        Some(i)
    } else {
        find_variant_exec(vars, t, i + 1)
    }
}

/// The default scalar of a kind.
pub fn default_scalar(kind: ScalarKind) -> (r: Scalar)
    ensures
        scalar_view(r) == default_sv(kind),
{
    match kind {
        ScalarKind::Str => Scalar::Str(String::new()),
        ScalarKind::Bool => Scalar::Bool(false),
        ScalarKind::Int => Scalar::Int(0),
    }
}

/// The field-wise default value of a record type.
pub fn default_record(rt: &RecordType) -> (r: RecordValue)
    ensures
        rv_view(r) == default_rv(*rt),
    decreases *rt, 1int,
{
    match rt {
        RecordType::Named(ns) => {
            let fvs = default_fields_exec(&ns.fields, 0);
            RecordValue::Fields(fvs)
        },
        RecordType::Newtype(_, inner) => RecordValue::Wrapped(Box::new(default_record(inner))),
        RecordType::Enum(_, vars) => {
            if vars.len() > 0 {
                RecordValue::Variant(0, Box::new(default_record(&vars[0])))
            } else {
                let l0: Vec<FieldValue> = Vec::new();
                proof {
                    assert(crate::model::fvs_view(l0@, 0)
                        =~= Seq::<crate::model::FieldValueV>::empty());
                }
                RecordValue::Fields(l0)
            }
        },
    }
}

fn default_fields_exec(fields: &Vec<FieldDecl>, i: usize) -> (r: Vec<FieldValue>)
    requires
        i <= fields@.len(),
    ensures
        crate::model::fvs_view(r@, 0) == default_fields(fields@, i as int),
        r@.len() == fields@.len() - i,
    decreases fields@, fields@.len() - i, 2int,
{
    if i >= fields.len() {
        let r: Vec<FieldValue> = Vec::new();
        proof {
            assert(crate::model::fvs_view(r@, 0) =~= default_fields(fields@, i as int));
        }
        r
    } else {
        let head = default_fv_exec(&fields[i]);
        let mut rest = default_fields_exec(fields, i + 1);
        let ghost pre_rest = rest@;
        rest.insert(0, head);
        proof {
            crate::model::lemma_fvs_view0(rest@);
            crate::model::lemma_fvs_view0(pre_rest);
            assert(crate::model::fvs_view(rest@, 0) =~= default_fields(fields@, i as int));
        }
        rest
    }
}

fn default_fv_exec(fd: &FieldDecl) -> (r: FieldValue)
    ensures
        crate::model::fv_view(r) == default_fv(*fd),
    decreases *fd, 0int,
{
    match fd {
        FieldDecl::Attr { kind, mult, .. } => match mult {
            Mult::Opt => FieldValue::Opt(None),
            _ => FieldValue::One(default_scalar(*kind)),
        },
        FieldDecl::Text { kind, .. } => FieldValue::One(default_scalar(*kind)),
        FieldDecl::Flatten { kind, mult, .. } => match mult {
            Mult::Opt => FieldValue::Opt(None),
            Mult::List => {
                let l0: Vec<Scalar> = Vec::new();
                proof {
                    assert(l0@.map_values(|s: Scalar| scalar_view(s)) =~= Seq::<ScalarV>::empty());
                }
                FieldValue::List(l0)
            },
            Mult::One => FieldValue::One(default_scalar(*kind)),
        },
        FieldDecl::Prefix { .. } => {
            let m0 = Mapping { entries: Vec::new() };
            proof {
                assert(map_view(m0) =~= Seq::<(Seq<char>, ScalarV)>::empty());
            }
            FieldValue::Dict(m0)
        },
        FieldDecl::Starts { .. } => {
            let m0 = Mapping { entries: Vec::new() };
            proof {
                assert(map_view(m0) =~= Seq::<(Seq<char>, ScalarV)>::empty());
            }
            FieldValue::Dict(m0)
        },
        FieldDecl::Child { ty, mult, .. } => match mult {
            Mult::Opt => FieldValue::OptRec(None),
            Mult::List => {
                let l0: Vec<RecordValue> = Vec::new();
                proof {
                    assert(rvs_view(l0@, 0) =~= Seq::<RecordValueV>::empty());
                }
                FieldValue::ListRec(l0)
            },
            Mult::One => FieldValue::OneRec(default_record(ty)),
        },
    }
}

fn field_kind_conv_exec(fd: &FieldDecl) -> (r: (ScalarKind, crate::model::Conv))
    ensures
        r == field_kind_conv(*fd),
{
    match fd {
        FieldDecl::Attr { kind, conv, .. } => (*kind, *conv),
        FieldDecl::Text { kind, conv, .. } => (*kind, *conv),
        FieldDecl::Flatten { kind, conv, .. } => (*kind, *conv),
        FieldDecl::Prefix { kind, .. } => (*kind, crate::model::Conv::Std),
        FieldDecl::Starts { kind, .. } => (*kind, crate::model::Conv::Std),
        FieldDecl::Child { .. } => (ScalarKind::Str, crate::model::Conv::Std),
    }
}

/// Applies one attribute to the accumulators.
fn apply_attr(ns: &NamedSchema, accs: &mut Vec<Acc>, k: &String, v: &String) -> (r: Result<
    (),
    XmlError,
>)
    requires
        old(accs)@.len() == ns.fields@.len(),
    ensures
        (r is Ok ==> (spec_apply_attr(*ns, accs_view(old(accs)@, 0), k@, v@) matches CRes::Good(a2)
            && accs_view(final(accs)@, 0) == a2 && final(accs)@.len() == ns.fields@.len())),
        (r matches Err(e) ==> spec_apply_attr(*ns, accs_view(old(accs)@, 0), k@, v@)
            == CRes::Bad(err_view(e))),
{
    proof {
        lemma_accs_view0(old(accs)@);
    }
    match match_attr_exec(&ns.fields, k.as_str(), 0) {
        Some(i) => {
            let (kind, conv) = field_kind_conv_exec(&ns.fields[i]);
            match parse_scalar(kind, conv, v.as_str()) {
                Some(sc) => {
                    proof {
                        lemma_accs_update(accs@, i as int, Acc::Got(sc));
                    }
                    accs.set(i, Acc::Got(sc));
                    Ok(())
                },
                None => Err(XmlError::FromStr(v.clone())),
            }
        },
        None => {
            match match_map_exec(&ns.fields, k.as_str(), 0) {
                Some((i, suffix)) => {
                    let (kind, _) = field_kind_conv_exec(&ns.fields[i]);
                    match parse_generic(kind, v.as_str()) {
                        Some(sc) => {
                            let cur = match &accs[i] {
                                Acc::Tab(m) => mapping_clone(m),
                                _ => Mapping { entries: Vec::new() },
                            };
                            let mut m2 = cur;
                            proof {
                                if !(accs@[i as int] is Tab) {
                                    assert(map_view(m2) =~= tab_of(acc_view(accs@[i as int])));
                                }
                            }
                            map_insert(&mut m2, suffix, sc);
                            proof {
                                lemma_accs_update(accs@, i as int, Acc::Tab(m2));
                            }
                            let ghost pre = accs@;
                            accs.set(i, Acc::Tab(m2));
                            proof {
                                assert(accs_view(pre, 0)[i as int] == acc_view(pre[i as int]));
                            }
                            Ok(())
                        },
                        None => Err(XmlError::FromStr(v.clone())),
                    }
                },
                None => {
                    if ns.strict_attr {
                        Err(XmlError::UnknownField { name: ns.name.clone(), field: k.clone() })
                    } else {
                        Ok(())
                    }
                },
            }
        },
    }
}

/// Consumes the attribute tokens of the current start tag.
fn r_attrs(ns: &NamedSchema, accs: &mut Vec<Acc>, toks: &Vec<Token>, pos: usize) -> (r: Result<
    usize,
    XmlError,
>)
    requires
        old(accs)@.len() == ns.fields@.len(),
        pos <= toks@.len(),
    ensures
        (r matches Ok(np) ==> (spec_read_attrs(*ns, accs_view(old(accs)@, 0), toks_view(toks@), pos as int)
            matches ARes::Good(a2, np2) && np2 == np as int && accs_view(final(accs)@, 0) == a2
            && pos <= np <= toks@.len() && final(accs)@.len() == ns.fields@.len())),
        (r matches Err(e) ==> spec_read_attrs(*ns, accs_view(old(accs)@, 0), toks_view(toks@), pos as int)
            == ARes::Bad(err_view(e))),
    decreases toks@.len() - pos,
{
    let ghost tv = toks_view(toks@);
    if pos >= toks.len() {
        return Ok(pos);
    }
    proof {
        assert(tv[pos as int] == token_view(toks@[pos as int]));
    }
    match &toks[pos] {
        Token::Attr(k, v) => {
            match apply_attr(ns, accs, k, v) {
                Ok(()) => r_attrs(ns, accs, toks, pos + 1),
                Err(e) => Err(e),
            }
        },
        _ => Ok(pos),
    }
}

/// Reads raw text content bounded by the matching end tag.
fn r_text(tag: &String, toks: &Vec<Token>, pos: usize) -> (r: Result<(String, usize), XmlError>)
    requires
        pos <= toks@.len(),
    ensures
        (r matches Ok(p) ==> spec_read_text(tag@, toks_view(toks@), pos as int) == TRes::Good(
            p.0@,
            p.1 as int,
        ) && pos < p.1 <= toks@.len()),
        (r matches Err(e) ==> spec_read_text(tag@, toks_view(toks@), pos as int) == TRes::Bad(
            err_view(e),
        )),
    decreases toks@.len() - pos,
{
    let ghost tv = toks_view(toks@);
    proof {
        assert(tv.len() == toks@.len());
    }
    if pos >= toks.len() {
        return Err(XmlError::UnexpectedEof);
    }
    proof {
        assert(tv[pos as int] == token_view(toks@[pos as int]));
    }
    match &toks[pos] {
        Token::EndOpen => r_text(tag, toks, pos + 1),
        Token::Text(s) => {
            match r_text(tag, toks, pos + 1) {
                Ok((rest, np)) => {
                    let mut o = s.clone();
                    o.append(rest.as_str());
                    Ok((o, np))
                },
                Err(e) => Err(e),
            }
        },
        Token::Cdata(s) => {
            match r_text(tag, toks, pos + 1) {
                Ok((rest, np)) => {
                    let mut o = s.clone();
                    o.append(rest.as_str());
                    Ok((o, np))
                },
                Err(e) => Err(e),
            }
        },
        Token::EndClose(t) => {
            if str_eq(t.as_str(), tag.as_str()) {
                Ok((String::new(), pos + 1))
            } else {
                Err(XmlError::UnexpectedToken(t.clone()))
            }
        },
        Token::EndEmpty => Ok((String::new(), pos + 1)),
        Token::Attr(k, _) => Err(XmlError::UnexpectedToken(k.clone())),
        Token::Start(t) => Err(XmlError::UnexpectedToken(t.clone())),
    }
}

/// Skips an entire element, tracking nesting depth.
fn r_skip(toks: &Vec<Token>, pos: usize) -> (r: Result<usize, XmlError>)
    requires
        pos <= toks@.len(),
    ensures
        (r matches Ok(np) ==> spec_skip(toks_view(toks@), pos as int, 1) == SRes::Good(np as int)
            && pos <= np <= toks@.len()),
        (r matches Err(e) ==> spec_skip(toks_view(toks@), pos as int, 1) == SRes::Bad(err_view(e))),
{
    let ghost tv = toks_view(toks@);
    let n = toks.len();
    let mut p = pos;
    let mut depth: u128 = 1;
    while depth > 0
        invariant
            n == toks@.len(),
            tv == toks_view(toks@),
            pos <= p <= n,
            depth as int <= 1 + (p - pos),
            spec_skip(tv, pos as int, 1) == spec_skip(tv, p as int, depth as int),
        decreases n - p,
    {
        if p >= n {
            return Err(XmlError::UnexpectedEof);
        }
        proof {
            assert(tv[p as int] == token_view(toks@[p as int]));
        }
        match &toks[p] {
            Token::Start(_) => {
                depth = depth + 1;
            },
            Token::EndEmpty => {
                depth = depth - 1;
            },
            Token::EndClose(_) => {
                depth = depth - 1;
            },
            _ => {},
        }
        p = p + 1;
    }
    Ok(p)
}

/// Assembles the final field values from the accumulators.
fn fin(ns: &NamedSchema, accs: Vec<Acc>, i: usize, Ghost(av): Ghost<Seq<AccV>>) -> (r: Result<
    Vec<FieldValue>,
    XmlError,
>)
    requires
        av.len() == ns.fields@.len(),
        i <= av.len(),
        accs@.len() == av.len() - i,
        accs_view(accs@, 0) == av.skip(i as int),
    ensures
        (r matches Ok(fvs) ==> spec_finalize(*ns, av, i as int) == FRes::Good(
            crate::model::fvs_view(fvs@, 0),
        )),
        (r matches Err(e) ==> spec_finalize(*ns, av, i as int) == FRes::Bad(err_view(e))),
    decreases av.len() - i,
{
    let mut accs = accs;
    let ghost accs_in = accs@;
    if i >= ns.fields.len() {
        let r: Vec<FieldValue> = Vec::new();
        proof {
            assert(crate::model::fvs_view(r@, 0) =~= Seq::<crate::model::FieldValueV>::empty());
        }
        return Ok(r);
    }
    proof {
        lemma_accs_view0(accs@);
        assert(acc_view(accs@[0]) == av.skip(i as int)[0]);
        assert(av.skip(i as int)[0] == av[i as int]);
    }
    let ghost ga = accs_in[0];
    let a = accs.remove(0);
    proof {
        assert(accs@ =~= accs_in.skip(1));
        lemma_accs_view0(accs@);
        lemma_accs_view0(accs_in);
        assert forall|j: int| 0 <= j < accs@.len() implies accs_view(accs@, 0)[j] == av.skip(
            i + 1,
        )[j] by {
            assert(accs@[j] == accs_in[j + 1]);
            assert(accs_view(accs_in, 0)[j + 1] == acc_view(accs_in[j + 1]));
            assert(av.skip(i as int)[j + 1] == av[i + 1 + j]);
            assert(av.skip(i + 1)[j] == av[i + 1 + j]);
        }
        assert(accs_view(accs@, 0) =~= av.skip(i + 1));
    }
    let fd = &ns.fields[i];
    let fv: FieldValue = match (fd, a) {
        (FieldDecl::Attr { kind, mult, dflt, name, .. }, a) => {
            match (mult, a) {
                (Mult::Opt, Acc::Got(s)) => FieldValue::Opt(Some(s)),
                (Mult::Opt, Acc::Unset) => FieldValue::Opt(None),
                (_, Acc::Got(s)) => FieldValue::One(s),
                (_, Acc::Unset) => {
                    if *dflt {
                        FieldValue::One(default_scalar(*kind))
                    } else {
                        return Err(XmlError::MissingField {
                            name: ns.name.clone(),
                            field: name.clone(),
                        });
                    }
                },
                _ => {
                    return Err(XmlError::MissingField {
                        name: ns.name.clone(),
                        field: name.clone(),
                    });
                },
            }
        },
        (FieldDecl::Text { name, .. }, a) => {
            match a {
                Acc::Got(s) => FieldValue::One(s),
                _ => {
                    return Err(XmlError::MissingField {
                        name: ns.name.clone(),
                        field: name.clone(),
                    });
                },
            }
        },
        (FieldDecl::Flatten { kind, mult, dflt, name, .. }, a) => {
            match (mult, a) {
                (Mult::List, a) => {
                    match a {
                        Acc::ListS(l) => FieldValue::List(l),
                        _ => {
                            let l0: Vec<Scalar> = Vec::new();
                            proof {
                                assert(l0@.map_values(|s: Scalar| scalar_view(s))
                                    =~= Seq::<ScalarV>::empty());
                            }
                            FieldValue::List(l0)
                        },
                    }
                },
                (Mult::Opt, Acc::Got(s)) => FieldValue::Opt(Some(s)),
                (Mult::Opt, Acc::Unset) => FieldValue::Opt(None),
                (Mult::One, Acc::Got(s)) => FieldValue::One(s),
                (Mult::One, Acc::Unset) => {
                    if *dflt {
                        FieldValue::One(default_scalar(*kind))
                    } else {
                        return Err(XmlError::MissingField {
                            name: ns.name.clone(),
                            field: name.clone(),
                        });
                    }
                },
                _ => {
                    return Err(XmlError::MissingField {
                        name: ns.name.clone(),
                        field: name.clone(),
                    });
                },
            }
        },
        (FieldDecl::Prefix { .. }, a) => {
            match a {
                Acc::Tab(m) => FieldValue::Dict(m),
                _ => {
                    let m0 = Mapping { entries: Vec::new() };
                    proof {
                        assert(map_view(m0) =~= Seq::<(Seq<char>, ScalarV)>::empty());
                    }
                    FieldValue::Dict(m0)
                },
            }
        },
        (FieldDecl::Starts { .. }, a) => {
            match a {
                Acc::Tab(m) => FieldValue::Dict(m),
                _ => {
                    let m0 = Mapping { entries: Vec::new() };
                    proof {
                        assert(map_view(m0) =~= Seq::<(Seq<char>, ScalarV)>::empty());
                    }
                    FieldValue::Dict(m0)
                },
            }
        },
        (FieldDecl::Child { ty, mult, dflt, name, .. }, a) => {
            match (mult, a) {
                (Mult::List, a) => {
                    match a {
                        Acc::ListR(l) => FieldValue::ListRec(l),
                        _ => {
                            let l0: Vec<RecordValue> = Vec::new();
                            proof {
                                assert(rvs_view(l0@, 0) =~= Seq::<RecordValueV>::empty());
                            }
                            FieldValue::ListRec(l0)
                        },
                    }
                },
                (Mult::Opt, Acc::GotRec(r)) => FieldValue::OptRec(Some(r)),
                (Mult::Opt, Acc::Unset) => FieldValue::OptRec(None),
                (Mult::One, Acc::GotRec(r)) => FieldValue::OneRec(r),
                (Mult::One, Acc::Unset) => {
                    if *dflt {
                        FieldValue::OneRec(default_record(ty))
                    } else {
                        return Err(XmlError::MissingField {
                            name: ns.name.clone(),
                            field: name.clone(),
                        });
                    }
                },
                _ => {
                    return Err(XmlError::MissingField {
                        name: ns.name.clone(),
                        field: name.clone(),
                    });
                },
            }
        },
    };
    let ghost gfv = fv;
    match fin(ns, accs, i + 1, Ghost(av)) {
        Ok(mut rest) => {
            let ghost pre_rest = rest@;
            rest.insert(0, fv);
            proof {
                crate::model::lemma_fvs_view0(rest@);
                crate::model::lemma_fvs_view0(pre_rest);
                match spec_finalize(*ns, av, i + 1) {
                    FRes::Good(restv) => {
                        assert(crate::model::fvs_view(rest@, 0) =~= seq![
                            crate::model::fv_view(fv),
                        ] + restv);
                    },
                    FRes::Bad(_) => {},
                }
            }
            Ok(rest)
        },
        Err(e) => Err(e),
    }
}

/// The child-reading loop of a container element.
fn r_children(ns: &NamedSchema, accs: &mut Vec<Acc>, toks: &Vec<Token>, pos: usize) -> (r: Result<
    usize,
    XmlError,
>)
    requires
        old(accs)@.len() == ns.fields@.len(),
        pos <= toks@.len(),
    ensures
        (r matches Ok(np) ==> (spec_read_children(*ns, accs_view(old(accs)@, 0), toks_view(toks@), pos as int)
            matches ARes::Good(a2, np2) && np2 == np as int && accs_view(final(accs)@, 0) == a2
            && pos < np <= toks@.len() && final(accs)@.len() == ns.fields@.len())),
        (r matches Err(e) ==> spec_read_children(*ns, accs_view(old(accs)@, 0), toks_view(toks@), pos as int)
            == ARes::Bad(err_view(e))),
    decreases *ns, toks@.len() - pos, 3int,
{
    let ghost tv = toks_view(toks@);
    if pos >= toks.len() {
        return Err(XmlError::UnexpectedEof);
    }
    proof {
        assert(tv[pos as int] == token_view(toks@[pos as int]));
        lemma_accs_view0(accs@);
    }
    match &toks[pos] {
        Token::Text(_) => r_children(ns, accs, toks, pos + 1),
        Token::Cdata(_) => r_children(ns, accs, toks, pos + 1),
        Token::EndClose(t) => {
            if str_eq(t.as_str(), ns.tag.as_str()) {
                Ok(pos + 1)
            } else {
                Err(XmlError::UnexpectedToken(t.clone()))
            }
        },
        Token::Start(t) => {
            match match_child_exec(&ns.fields, t.as_str(), 0) {
                Some(i) => {
                    match &ns.fields[i] {
                        FieldDecl::Child { ty, mult, .. } => {
                            match r_record(ty, toks, pos) {
                                Ok((v, np)) => {
                                    match mult {
                                        Mult::List => {
                                            let cur = accs.remove(i);
                                            let mut lst = match cur {
                                                Acc::ListR(l) => l,
                                                _ => Vec::new(),
                                            };
                                            let ghost lv = rvs_view(lst@, 0);
                                            proof {
                                                crate::model::lemma_rvs_view0(lst@);
                                                if !(acc_view(old(accs)@[i as int]) is ListR) {
                                                    assert(rvs_view(lst@, 0)
                                                        =~= Seq::<RecordValueV>::empty());
                                                }
                                            }
                                            lst.push(v);
                                            proof {
                                                crate::model::lemma_rvs_view0(lst@);
                                                assert(rvs_view(lst@, 0) =~= lv.push(rv_view(v)));
                                            }
                                            accs.insert(i, Acc::ListR(lst));
                                            proof {
                                                assert(accs@ =~= old(accs)@.update(
                                                    i as int,
                                                    accs@[i as int],
                                                ));
                                                lemma_accs_update(
                                                    old(accs)@,
                                                    i as int,
                                                    accs@[i as int],
                                                );
                                            }
                                            r_children(ns, accs, toks, np)
                                        },
                                        _ => {
                                            proof {
                                                lemma_accs_update(
                                                    accs@,
                                                    i as int,
                                                    Acc::GotRec(v),
                                                );
                                            }
                                            accs.set(i, Acc::GotRec(v));
                                            r_children(ns, accs, toks, np)
                                        },
                                    }
                                },
                                Err(e) => Err(e),
                            }
                        },
                        _ => Err(XmlError::UnexpectedToken(t.clone())),
                    }
                },
                None => {
                    match match_flatten_exec(&ns.fields, t.as_str(), 0) {
                        Some(i) => {
                            match r_text(t, toks, pos + 1) {
                                Ok((content, np)) => {
                                    let (kind, conv) = field_kind_conv_exec(&ns.fields[i]);
                                    match parse_scalar(kind, conv, content.as_str()) {
                                        Some(sc) => {
                                            let mlt = match &ns.fields[i] {
                                                FieldDecl::Flatten { mult, .. } => *mult,
                                                _ => Mult::One,
                                            };
                                            proof {
                                                assert(field_mult(ns.fields@[i as int]) == mlt);
                                            }
                                            match mlt {
                                                Mult::List => {
                                                    let cur = accs.remove(i);
                                                    let mut lst = match cur {
                                                        Acc::ListS(l) => l,
                                                        _ => Vec::new(),
                                                    };
                                                    let ghost lv = lst@.map_values(
                                                        |s: Scalar| scalar_view(s),
                                                    );
                                                    proof {
                                                        if !(acc_view(old(accs)@[i as int]) is ListS) {
                                                            assert(lv =~= Seq::<ScalarV>::empty());
                                                        }
                                                    }
                                                    lst.push(sc);
                                                    proof {
                                                        assert(lst@.map_values(
                                                            |s: Scalar| scalar_view(s),
                                                        ) =~= lv.push(scalar_view(sc)));
                                                    }
                                                    accs.insert(i, Acc::ListS(lst));
                                                    proof {
                                                        assert(accs@ =~= old(accs)@.update(
                                                            i as int,
                                                            accs@[i as int],
                                                        ));
                                                        lemma_accs_update(
                                                            old(accs)@,
                                                            i as int,
                                                            accs@[i as int],
                                                        );
                                                    }
                                                    r_children(ns, accs, toks, np)
                                                },
                                                _ => {
                                                    proof {
                                                        lemma_accs_update(
                                                            accs@,
                                                            i as int,
                                                            Acc::Got(sc),
                                                        );
                                                    }
                                                    accs.set(i, Acc::Got(sc));
                                                    r_children(ns, accs, toks, np)
                                                },
                                            }
                                        },
                                        None => Err(XmlError::FromStr(content)),
                                    }
                                },
                                Err(e) => Err(e),
                            }
                        },
                        None => {
                            if ns.strict_elem {
                                Err(XmlError::UnknownField {
                                    name: ns.name.clone(),
                                    field: t.clone(),
                                })
                            } else {
                                match r_skip(toks, pos + 1) {
                                    Ok(np) => r_children(ns, accs, toks, np),
                                    Err(e) => Err(e),
                                }
                            }
                        },
                    }
                },
            }
        },
        Token::Attr(k, _) => Err(XmlError::UnexpectedToken(k.clone())),
        Token::EndOpen => Err(XmlError::UnexpectedToken(String::new())),
        Token::EndEmpty => Err(XmlError::UnexpectedToken(String::new())),
    }
}

/// Reads one element against a named schema.
fn r_named(ns: &NamedSchema, toks: &Vec<Token>, pos: usize) -> (r: Result<
    (RecordValue, usize),
    XmlError,
>)
    requires
        pos <= toks@.len(),
    ensures
        (r matches Ok(p) ==> spec_read_named(*ns, toks_view(toks@), pos as int) == RRes::Good(
            rv_view(p.0),
            p.1 as int,
        ) && pos < p.1 <= toks@.len()),
        (r matches Err(e) ==> spec_read_named(*ns, toks_view(toks@), pos as int) == RRes::Bad(
            err_view(e),
        )),
    decreases *ns, toks@.len() - pos, 4int,
{
    let ghost tv = toks_view(toks@);
    proof {
        assert(tv.len() == toks@.len());
    }
    if pos >= toks.len() {
        return Err(XmlError::UnexpectedEof);
    }
    proof {
        assert(tv[pos as int] == token_view(toks@[pos as int]));
    }
    match &toks[pos] {
        Token::Text(_) => r_named(ns, toks, pos + 1),
        Token::Cdata(_) => r_named(ns, toks, pos + 1),
        Token::Start(t) => {
            if str_eq(t.as_str(), ns.tag.as_str()) {
                let mut accs = init_accs_exec(&ns.fields, 0);
                let ghost accs0 = accs_view(accs@, 0);
                match r_attrs(ns, &mut accs, toks, pos + 1) {
                    Ok(p2) => {
                        proof {
                            assert(accs0 == init_accs(ns.fields@, 0));
                            assert(spec_read_attrs(*ns, accs0, tv, pos + 1) matches ARes::Good(
                                a2,
                                np2,
                            ) && a2 == accs_view(accs@, 0) && np2 == p2 as int);
                            assert(spec_read_named(*ns, tv, pos as int) == (
                            if has_text(ns.fields@, 0) {
                                spec_finish_text(*ns, accs_view(accs@, 0), tv, p2 as int)
                            } else if pos as int <= p2 as int <= tv.len() {
                                spec_finish_container(*ns, accs_view(accs@, 0), tv, p2 as int)
                            } else {
                                RRes::Bad(ErrV::UnexpectedEof)
                            }));
                        }
                        if text_check(&ns.fields, 0) {
                            match r_text(&ns.tag, toks, p2) {
                                Ok((content, p3)) => {
                                    match text_idx_exec(&ns.fields, 0) {
                                        Some(ti) => {
                                            let (kind, conv) = field_kind_conv_exec(
                                                &ns.fields[ti],
                                            );
                                            match parse_scalar(kind, conv, content.as_str()) {
                                                Some(sc) => {
                                                    proof {
                                                        lemma_accs_update(
                                                            accs@,
                                                            ti as int,
                                                            Acc::Got(sc),
                                                        );
                                                    }
                                                    accs.set(ti, Acc::Got(sc));
                                                    let ghost av = accs_view(accs@, 0);
                                                    proof {
                                                        lemma_accs_view0(accs@);
                                                        assert(accs_view(accs@, 0) =~= av.skip(0));
                                                    }
                                                    match fin(ns, accs, 0, Ghost(av)) {
                                                        Ok(fvs) => Ok(
                                                            (RecordValue::Fields(fvs), p3),
                                                        ),
                                                        Err(e) => Err(e),
                                                    }
                                                },
                                                None => Err(XmlError::FromStr(content)),
                                            }
                                        },
                                        None => {
                                            let ghost av = accs_view(accs@, 0);
                                            proof {
                                                lemma_accs_view0(accs@);
                                                assert(accs_view(accs@, 0) =~= av.skip(0));
                                            }
                                            match fin(ns, accs, 0, Ghost(av)) {
                                                Ok(fvs) => Ok((RecordValue::Fields(fvs), p3)),
                                                Err(e) => Err(e),
                                            }
                                        },
                                    }
                                },
                                Err(e) => Err(e),
                            }
                        } else {
                            if p2 >= toks.len() {
                                return Err(XmlError::UnexpectedEof);
                            }
                            proof {
                                assert(tv[p2 as int] == token_view(toks@[p2 as int]));
                            }
                            match &toks[p2] {
                                Token::EndEmpty => {
                                    let ghost av = accs_view(accs@, 0);
                                    proof {
                                        lemma_accs_view0(accs@);
                                        assert(accs_view(accs@, 0) =~= av.skip(0));
                                    }
                                    match fin(ns, accs, 0, Ghost(av)) {
                                        Ok(fvs) => Ok((RecordValue::Fields(fvs), p2 + 1)),
                                        Err(e) => Err(e),
                                    }
                                },
                                Token::EndOpen => {
                                    match r_children(ns, &mut accs, toks, p2 + 1) {
                                        Ok(np) => {
                                            let ghost av = accs_view(accs@, 0);
                                            proof {
                                                lemma_accs_view0(accs@);
                                                assert(accs_view(accs@, 0) =~= av.skip(0));
                                            }
                                            match fin(ns, accs, 0, Ghost(av)) {
                                                Ok(fvs) => Ok((RecordValue::Fields(fvs), np)),
                                                Err(e) => Err(e),
                                            }
                                        },
                                        Err(e) => Err(e),
                                    }
                                },
                                Token::Start(t2) => Err(XmlError::UnexpectedToken(t2.clone())),
                                Token::Attr(k, _) => Err(XmlError::UnexpectedToken(k.clone())),
                                Token::Text(s) => Err(XmlError::UnexpectedToken(s.clone())),
                                Token::Cdata(s) => Err(XmlError::UnexpectedToken(s.clone())),
                                Token::EndClose(t2) => Err(XmlError::UnexpectedToken(t2.clone())),
                            }
                        }
                    },
                    Err(e) => Err(e),
                }
            } else {
                match r_skip(toks, pos + 1) {
                    Ok(np) => r_named(ns, toks, np),
                    Err(e) => Err(e),
                }
            }
        },
        Token::Attr(k, _) => Err(XmlError::UnexpectedToken(k.clone())),
        Token::EndOpen => Err(XmlError::UnexpectedToken(String::new())),
        Token::EndEmpty => Err(XmlError::UnexpectedToken(String::new())),
        Token::EndClose(t) => Err(XmlError::UnexpectedToken(t.clone())),
    }
}

/// Enum dispatch over the encountered start tag.
fn r_enum(name: &String, vars: &Vec<RecordType>, toks: &Vec<Token>, pos: usize) -> (r: Result<
    (RecordValue, usize),
    XmlError,
>)
    requires
        pos <= toks@.len(),
    ensures
        (r matches Ok(p) ==> spec_read_enum(name@, vars@, toks_view(toks@), pos as int)
            == RRes::Good(rv_view(p.0), p.1 as int) && pos < p.1 <= toks@.len()),
        (r matches Err(e) ==> spec_read_enum(name@, vars@, toks_view(toks@), pos as int)
            == RRes::Bad(err_view(e))),
    decreases vars@, toks@.len() - pos, 4int,
{
    let ghost tv = toks_view(toks@);
    proof {
        assert(tv.len() == toks@.len());
    }
    if pos >= toks.len() {
        return Err(XmlError::UnexpectedEof);
    }
    proof {
        assert(tv[pos as int] == token_view(toks@[pos as int]));
    }
    match &toks[pos] {
        Token::Text(_) => r_enum(name, vars, toks, pos + 1),
        Token::Cdata(_) => r_enum(name, vars, toks, pos + 1),
        Token::Start(t) => {
            match find_variant_exec(vars, t.as_str(), 0) {
                Some(i) => {
                    match r_record(&vars[i], toks, pos) {
                        Ok((v, np)) => Ok((RecordValue::Variant(i, Box::new(v)), np)),
                        Err(e) => Err(e),
                    }
                },
                None => Err(XmlError::UnknownField { name: name.clone(), field: t.clone() }),
            }
        },
        Token::Attr(k, _) => Err(XmlError::UnexpectedToken(k.clone())),
        Token::EndOpen => Err(XmlError::UnexpectedToken(String::new())),
        Token::EndEmpty => Err(XmlError::UnexpectedToken(String::new())),
        Token::EndClose(t) => Err(XmlError::UnexpectedToken(t.clone())),
    }
}

/// Reads one record of the given type from the token stream, returning the
/// value and the position after the element.
pub fn r_record(rt: &RecordType, toks: &Vec<Token>, pos: usize) -> (r: Result<
    (RecordValue, usize),
    XmlError,
>)
    requires
        pos <= toks@.len(),
    ensures
        (r matches Ok(p) ==> spec_read_record(*rt, toks_view(toks@), pos as int) == RRes::Good(
            rv_view(p.0),
            p.1 as int,
        ) && pos < p.1 <= toks@.len()),
        (r matches Err(e) ==> spec_read_record(*rt, toks_view(toks@), pos as int) == RRes::Bad(
            err_view(e),
        )),
    decreases *rt, toks@.len() - pos, 5int,
{
    match rt {
        RecordType::Named(ns) => r_named(ns, toks, pos),
        RecordType::Newtype(_, inner) => {
            match r_record(inner, toks, pos) {
                Ok((v, np)) => Ok((RecordValue::Wrapped(Box::new(v)), np)),
                Err(e) => Err(e),
            }
        },
        RecordType::Enum(name, vars) => r_enum(name, vars, toks, pos),
    }
}

/// Reads one record from a token stream, requiring the whole stream to have
/// been produced for this record: the engine's public reading entry point.
pub fn read_record(rt: &RecordType, toks: &Vec<Token>) -> (r: Result<RecordValue, XmlError>)
    ensures
        (r matches Ok(v) ==> (spec_read_record(*rt, toks_view(toks@), 0) matches RRes::Good(vv, _)
            && vv == rv_view(v))),
        (r matches Err(e) ==> spec_read_record(*rt, toks_view(toks@), 0) == RRes::Bad(err_view(e))),
{
    match r_record(rt, toks, 0) {
        Ok((v, _)) => Ok(v),
        Err(e) => Err(e),
    }
}

} // verus!
