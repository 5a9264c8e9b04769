use vstd::prelude::*;
use crate::convert::{kind_of, scalar_v_wf, spec_format, spec_parse};
use crate::err::ErrV;
use crate::model::{Conv, FieldDecl, FieldValueV, Mult, NamedSchema, RecordType, RecordValueV, ScalarKind, ScalarV};
use crate::read::{
    ARes, AccV, finalize_field, match_attr_field, match_child_field, match_flatten_field,
    missing, spec_apply_attr, spec_read_children, CRes,
};
use crate::token::TokenV;
use crate::write::{
    can_self_close, content_is_empty, fields_wf, has_text, is_leaf, spec_write_record,
    terminal_tokens, text_tokens,
};

verus! {

// ---------------------------------------------------------------------------
// Laws of the engines, stated and proved over the mathematical interpreters.
// ---------------------------------------------------------------------------

/// A text-bearing element's body always ends with the literal end tag: the
/// write engine never self-closes it.
proof fn lemma_text_tokens_shape(
    tag: Seq<char>,
    fields: Seq<FieldDecl>,
    fvs: Seq<FieldValueV>,
    i: int,
)
    requires
        fields.len() == fvs.len(),
        fields_wf(fields, fvs, i),
        0 <= i,
        has_text(fields, i),
    ensures
        text_tokens(tag, fields, fvs, i).len() > 0,
        text_tokens(tag, fields, fvs, i).last() == TokenV::EndClose(tag),
    decreases fields.len() - i,
{
    let tt = text_tokens(tag, fields, fvs, i);
    let tl = text_tokens(tag, fields, fvs, i + 1);
    if fields[i] is Text {
        assert(fields_wf(fields, fvs, i));
        assert(crate::write::field_value_wf(fields[i], fvs[i]));
        assert(fvs[i] is One);
        if has_text(fields, i + 1) {
            lemma_text_tokens_shape(tag, fields, fvs, i + 1);
            assert(tt.last() == tl.last());
        } else {
            lemma_no_text_tokens(tag, fields, fvs, i + 1);
            assert(tt.last() == TokenV::EndClose(tag));
        }
    } else {
        assert(has_text(fields, i + 1));
        lemma_text_tokens_shape(tag, fields, fvs, i + 1);
        assert(tt =~= Seq::<TokenV>::empty() + tl);
        assert(tt.last() == tl.last());
    }
}

/// Without a text field there is no text body.
proof fn lemma_no_text_tokens(
    tag: Seq<char>,
    fields: Seq<FieldDecl>,
    fvs: Seq<FieldValueV>,
    i: int,
)
    requires
        !has_text(fields, i),
    ensures
        text_tokens(tag, fields, fvs, i) == Seq::<TokenV>::empty(),
    decreases fields.len() - i,
{
    if 0 <= i < fields.len() && fields.len() == fvs.len() {
        lemma_no_text_tokens(tag, fields, fvs, i + 1);
        assert(text_tokens(tag, fields, fvs, i) =~= Seq::empty());
    }
}

/// Self-close law: the written element is self-closed exactly when the
/// schema is a leaf (attributes only), or it is a container whose child and
/// flatten-text fields are all optional or lists and all currently empty.
/// A text-bearing schema is never self-closed.
pub proof fn lemma_self_close(ns: NamedSchema, fvs: Seq<FieldValueV>)
    requires
        fvs.len() == ns.fields@.len(),
        fields_wf(ns.fields@, fvs, 0),
    ensures
        ({
            let toks = spec_write_record(RecordType::Named(ns), RecordValueV::Fields(fvs));
            (toks.len() > 0 && toks.last() == TokenV::EndEmpty) <==> (is_leaf(ns.fields@, 0) || (
            !has_text(ns.fields@, 0) && can_self_close(ns.fields@, 0) && content_is_empty(
                ns.fields@,
                fvs,
                0,
            )))
        }),
{
    let toks = spec_write_record(RecordType::Named(ns), RecordValueV::Fields(fvs));
    let fields = ns.fields@;
    let term = terminal_tokens(ns, fvs);
    if is_leaf(fields, 0) {
        assert(toks.last() == TokenV::EndEmpty);
    } else if has_text(fields, 0) {
        lemma_text_tokens_shape(ns.tag@, fields, fvs, 0);
        assert(toks.last() == TokenV::EndClose(ns.tag@));
    } else if can_self_close(fields, 0) && content_is_empty(fields, fvs, 0) {
        assert(toks.last() == TokenV::EndEmpty);
    } else {
        assert(term.last() == TokenV::EndClose(ns.tag@));
        assert(toks.last() == TokenV::EndClose(ns.tag@));
    }
}

/// Boolean formatting law: in attribute position a boolean is written as
/// `1` or `0`; in text and flatten-text position as `true` or `false`; and
/// reading accepts both vocabularies.
pub proof fn lemma_bool_formats(b: bool)
    ensures
        spec_format(true, Conv::Std, ScalarV::Bool(b)) == (if b {
            seq!['1']
        } else {
            seq!['0']
        }),
        spec_format(false, Conv::Std, ScalarV::Bool(b)) == (if b {
            seq!['t', 'r', 'u', 'e']
        } else {
            seq!['f', 'a', 'l', 's', 'e']
        }),
        spec_parse(ScalarKind::Bool, Conv::Std, spec_format(true, Conv::Std, ScalarV::Bool(b)))
            == Some(ScalarV::Bool(b)),
        spec_parse(ScalarKind::Bool, Conv::Std, spec_format(false, Conv::Std, ScalarV::Bool(b)))
            == Some(ScalarV::Bool(b)),
{
}

/// The whole boolean reading vocabulary, case-sensitively.
pub proof fn lemma_bool_vocabulary()
    ensures
        forall|s: Seq<char>|
            spec_parse(ScalarKind::Bool, Conv::Std, s) == Some(ScalarV::Bool(true)) <==> (s == seq![
                't',
            ] || s == seq!['t', 'r', 'u', 'e'] || s == seq!['y'] || s == seq!['y', 'e', 's'] || s
                == seq!['o', 'n'] || s == seq!['1']),
        forall|s: Seq<char>|
            spec_parse(ScalarKind::Bool, Conv::Std, s) == Some(ScalarV::Bool(false)) <==> (s
                == seq!['f'] || s == seq!['f', 'a', 'l', 's', 'e'] || s == seq!['n'] || s == seq![
                'n',
                'o',
            ] || s == seq!['o', 'f', 'f'] || s == seq!['0']),
{
}

/// Missing-field law: after a read, an absent required scalar or child
/// yields `MissingField` naming the exact record type and field; an absent
/// optional field becomes `None` with no error; the default flag
/// substitutes the kind's default instead.
pub proof fn lemma_missing_field(ns: NamedSchema, fd: FieldDecl)
    ensures
        (fd matches FieldDecl::Attr { mult: Mult::One, dflt: false, .. } ==> finalize_field(
            ns,
            fd,
            AccV::Unset,
        ) == Err::<FieldValueV, ErrV>(missing(ns, fd))),
        (fd matches FieldDecl::Flatten { mult: Mult::One, dflt: false, .. } ==> finalize_field(
            ns,
            fd,
            AccV::Unset,
        ) == Err::<FieldValueV, ErrV>(missing(ns, fd))),
        (fd matches FieldDecl::Child { mult: Mult::One, dflt: false, .. } ==> finalize_field(
            ns,
            fd,
            AccV::Unset,
        ) == Err::<FieldValueV, ErrV>(missing(ns, fd))),
        (fd matches FieldDecl::Attr { mult: Mult::Opt, .. } ==> finalize_field(ns, fd, AccV::Unset)
            == Ok::<FieldValueV, ErrV>(FieldValueV::Opt(None))),
        (fd matches FieldDecl::Flatten { mult: Mult::Opt, .. } ==> finalize_field(
            ns,
            fd,
            AccV::Unset,
        ) == Ok::<FieldValueV, ErrV>(FieldValueV::Opt(None))),
        (fd matches FieldDecl::Child { mult: Mult::Opt, .. } ==> finalize_field(
            ns,
            fd,
            AccV::Unset,
        ) == Ok::<FieldValueV, ErrV>(FieldValueV::OptRec(None))),
        missing(ns, fd) == (ErrV::MissingField {
            name: ns.name@,
            field: crate::read::field_name_of(fd)@,
        }),
{
}

/// Strict-mode law for attributes: an attribute key no field claims aborts
/// the read with `UnknownField` naming the record and the key when the flag
/// is set, and is ignored without a trace when it is not.
pub proof fn lemma_strict_unknown_attribute(
    ns: NamedSchema,
    accs: Seq<AccV>,
    k: Seq<char>,
    v: Seq<char>,
)
    requires
        crate::read::match_attr_field(ns.fields@, k, 0) is None,
        crate::read::match_map_field(ns.fields@, k, 0) is None,
    ensures
        ns.strict_attr ==> spec_apply_attr(ns, accs, k, v) == CRes::Bad(ErrV::UnknownField {
            name: ns.name@,
            field: k,
        }),
        !ns.strict_attr ==> spec_apply_attr(ns, accs, k, v) == CRes::Good(accs),
{
}

/// Strict-mode law for elements: a child tag no field claims aborts the
/// read with `UnknownField` when the flag is set; otherwise the whole
/// subtree is skipped and reading continues after it.
pub proof fn lemma_strict_unknown_element(
    ns: NamedSchema,
    accs: Seq<AccV>,
    toks: Seq<TokenV>,
    pos: int,
    t: Seq<char>,
)
    requires
        0 <= pos < toks.len(),
        toks[pos] == TokenV::Start(t),
        match_child_field(ns.fields@, t, 0) is None,
        match_flatten_field(ns.fields@, t, 0) is None,
        ns.strict_elem,
    ensures
        spec_read_children(ns, accs, toks, pos) == ARes::Bad(ErrV::UnknownField {
            name: ns.name@,
            field: t,
        }),
{
}

/// Custom-converter law: a field with the custom converter round-trips
/// through the converter's own inverse, in either position, for every value
/// the engines can hold.
pub proof fn lemma_custom_converter_roundtrip(attr_pos: bool, sv: ScalarV)
    requires
        scalar_v_wf(sv),
    ensures
        spec_parse(kind_of(sv), Conv::Rev, spec_format(attr_pos, Conv::Rev, sv)) == Some(sv),
{
    crate::convert::lemma_parse_format(attr_pos, Conv::Rev, sv);
}

} // verus!
