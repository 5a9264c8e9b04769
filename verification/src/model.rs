use vstd::prelude::*;

verus! {

broadcast use vstd::seq::group_seq_axioms, vstd::std_specs::vec::axiom_vec_decreases_to_view, vstd::seq::axiom_seq_index_decreases;

// ---------------------------------------------------------------------------
// Schema model: the declarative description of one record type.
// ---------------------------------------------------------------------------

/// The shape of a scalar value.
#[derive(Debug, Clone, Copy, PartialEq, Eq, Structural)]
pub enum ScalarKind {
    /// A string copied through as-is (escaping happens at the stream layer).
    Str,
    /// A boolean; reading accepts `t,true,y,yes,on,1` and `f,false,n,no,off,0`.
    Bool,
    /// A signed decimal integer.
    Int,
}

/// The converter used for one field: the generic per-kind conversion, or a
/// custom converter that entirely replaces both directions. Converters are
/// a closed set because a schema is plain data here: a field cannot hold a
/// pair of functions, so each custom conversion is one variant of its own,
/// injected into the field declaration at schema construction.
#[derive(Debug, Clone, Copy, PartialEq, Eq, Structural)]
pub enum Conv {
    /// The value shape's own parse and format rules.
    Std,
    /// A custom converter: the raw text is reversed before the generic parse,
    /// and the generic rendering is reversed before being emitted.
    Rev,
}

/// Multiplicity of a field's value.
#[derive(Debug, Clone, Copy, PartialEq, Eq, Structural)]
pub enum Mult {
    One,
    Opt,
    List,
}

/// One field of a named schema: exactly one role, immutable once declared.
/// `name` is the record-side field name used in error reports.
#[derive(Debug, PartialEq)]
pub enum FieldDecl {
    /// Bound to one XML attribute; `mult` is `One` or `Opt`.
    Attr { name: String, attr: String, kind: ScalarKind, conv: Conv, mult: Mult, dflt: bool },
    /// Nested record(s) read from child elements whose tag is in `tags`.
    Child { name: String, tags: Vec<String>, ty: RecordType, mult: Mult, dflt: bool },
    /// The element's own text content.
    Text { name: String, kind: ScalarKind, conv: Conv, cdata: bool },
    /// Text wrapped in a dedicated child tag.
    Flatten { name: String, tag: String, kind: ScalarKind, conv: Conv, mult: Mult, cdata: bool, dflt: bool },
    /// A mapping stored as `prefix:key` attributes. A mapping field is
    /// always present: absent on the wire means empty, so it carries no
    /// multiplicity.
    Prefix { name: String, prefix: String, kind: ScalarKind },
    /// Like `Prefix`, and the bare `prefix` attribute maps to the empty key.
    Starts { name: String, prefix: String, kind: ScalarKind },
}

/// A named schema: a tag, strictness flags and an ordered field list.
#[derive(Debug, PartialEq)]
pub struct NamedSchema {
    /// The record-type name, used in `MissingField` / `UnknownField` errors.
    pub name: String,
    /// The element tag.
    pub tag: String,
    /// Reject unknown attributes instead of ignoring them.
    pub strict_attr: bool,
    /// Reject unknown child elements instead of skipping their subtree.
    pub strict_elem: bool,
    pub fields: Vec<FieldDecl>,
}

/// A record type: a named schema, a newtype delegating to an inner type, or
/// an enum of variants dispatched on the encountered tag.
#[derive(Debug, PartialEq)]
pub enum RecordType {
    Named(NamedSchema),
    Newtype(String, Box<RecordType>),
    Enum(String, Vec<RecordType>),
}

// ---------------------------------------------------------------------------
// Record values and their mathematical views.
// ---------------------------------------------------------------------------

/// A typed scalar value.
#[derive(Debug, Clone, PartialEq)]
pub enum Scalar {
    Str(String),
    Bool(bool),
    Int(i64),
}

/// One entry of a mapping field.
#[derive(Debug, Clone, PartialEq)]
pub struct MapEntry {
    pub key: String,
    pub val: Scalar,
}

/// A mapping field's value: entries kept strictly sorted by key, so that
/// writing is deterministic and keys are unique.
#[derive(Debug, Clone, PartialEq)]
pub struct Mapping {
    pub entries: Vec<MapEntry>,
}

/// The value of one field, matching its declaration's role and multiplicity.
#[derive(Debug, PartialEq)]
pub enum FieldValue {
    One(Scalar),
    Opt(Option<Scalar>),
    List(Vec<Scalar>),
    Dict(Mapping),
    OneRec(RecordValue),
    OptRec(Option<RecordValue>),
    ListRec(Vec<RecordValue>),
}

/// A record value: fields of a named schema, a wrapped inner value, or an
/// enum variant (by declaration index) with its inner value.
#[derive(Debug, PartialEq)]
pub enum RecordValue {
    Fields(Vec<FieldValue>),
    Wrapped(Box<RecordValue>),
    Variant(usize, Box<RecordValue>),
}

/// Mathematical shadow of `Scalar`.
pub enum ScalarV {
    Str(Seq<char>),
    Bool(bool),
    Int(int),
}

/// Mathematical shadow of `FieldValue`.
pub enum FieldValueV {
    One(ScalarV),
    Opt(Option<ScalarV>),
    List(Seq<ScalarV>),
    Dict(Seq<(Seq<char>, ScalarV)>),
    OneRec(Box<RecordValueV>),
    OptRec(Option<Box<RecordValueV>>),
    ListRec(Seq<RecordValueV>),
}

/// Mathematical shadow of `RecordValue`.
pub enum RecordValueV {
    Fields(Seq<FieldValueV>),
    Wrapped(Box<RecordValueV>),
    Variant(int, Box<RecordValueV>),
}

pub open spec fn scalar_view(s: Scalar) -> ScalarV {
    match s {
        Scalar::Str(x) => ScalarV::Str(x@),
        Scalar::Bool(b) => ScalarV::Bool(b),
        Scalar::Int(i) => ScalarV::Int(i as int),
    }
}

pub open spec fn map_view(m: Mapping) -> Seq<(Seq<char>, ScalarV)> {
    m.entries@.map_values(|e: MapEntry| (e.key@, scalar_view(e.val)))
}

pub open spec fn fv_view(f: FieldValue) -> FieldValueV
    decreases f,
{
    match f {
        FieldValue::One(s) => FieldValueV::One(scalar_view(s)),
        FieldValue::Opt(o) => FieldValueV::Opt(match o {
            Some(s) => Some(scalar_view(s)),
            None => None,
        }),
        FieldValue::List(vs) => FieldValueV::List(vs@.map_values(|s: Scalar| scalar_view(s))),
        FieldValue::Dict(m) => FieldValueV::Dict(map_view(m)),
        FieldValue::OneRec(r) => FieldValueV::OneRec(Box::new(rv_view(r))),
        FieldValue::OptRec(o) => FieldValueV::OptRec(match o {
            Some(r) => Some(Box::new(rv_view(r))),
            None => None,
        }),
        FieldValue::ListRec(rs) => FieldValueV::ListRec(rvs_view(rs@, 0)),
    }
}

pub open spec fn rv_view(v: RecordValue) -> RecordValueV
    decreases v,
{
    match v {
        RecordValue::Fields(fs) => RecordValueV::Fields(fvs_view(fs@, 0)),
        RecordValue::Wrapped(b) => RecordValueV::Wrapped(Box::new(rv_view(*b))),
        RecordValue::Variant(i, b) => RecordValueV::Variant(i as int, Box::new(rv_view(*b))),
    }
}

/// View of the field values of `s` from index `i` on.
pub open spec fn fvs_view(s: Seq<FieldValue>, i: int) -> Seq<FieldValueV>
    decreases s, s.len() - i,
{
    if i < 0 || i >= s.len() {
        Seq::empty()
    } else {
        seq![fv_view(s[i])] + fvs_view(s, i + 1)
    }
}

/// View of the record values of `s` from index `i` on.
pub open spec fn rvs_view(s: Seq<RecordValue>, i: int) -> Seq<RecordValueV>
    decreases s, s.len() - i,
{
    if i < 0 || i >= s.len() {
        Seq::empty()
    } else {
        seq![rv_view(s[i])] + rvs_view(s, i + 1)
    }
}

pub proof fn lemma_fvs_view_len(s: Seq<FieldValue>, i: int)
    requires
        0 <= i <= s.len(),
    ensures
        fvs_view(s, i).len() == s.len() - i,
        forall|j: int| i <= j < s.len() ==> fvs_view(s, i)[j - i] == fv_view(s[j]),
    decreases s.len() - i,
{
    if i < s.len() {
        lemma_fvs_view_len(s, i + 1);
    }
}

pub proof fn lemma_fvs_view0(s: Seq<FieldValue>)
    ensures
        fvs_view(s, 0).len() == s.len(),
        forall|j: int| 0 <= j < s.len() ==> fvs_view(s, 0)[j] == fv_view(s[j]),
{
    lemma_fvs_view_len(s, 0);
    assert forall|j: int| 0 <= j < s.len() implies fvs_view(s, 0)[j] == fv_view(s[j]) by {
        assert(fvs_view(s, 0)[j - 0] == fv_view(s[j]));
    }
}

pub proof fn lemma_rvs_view0(s: Seq<RecordValue>)
    ensures
        rvs_view(s, 0).len() == s.len(),
        forall|j: int| 0 <= j < s.len() ==> rvs_view(s, 0)[j] == rv_view(s[j]),
{
    lemma_rvs_view_len(s, 0);
    assert forall|j: int| 0 <= j < s.len() implies rvs_view(s, 0)[j] == rv_view(s[j]) by {
        assert(rvs_view(s, 0)[j - 0] == rv_view(s[j]));
    }
}

pub proof fn lemma_rvs_view_len(s: Seq<RecordValue>, i: int)
    requires
        0 <= i <= s.len(),
    ensures
        rvs_view(s, i).len() == s.len() - i,
        forall|j: int| i <= j < s.len() ==> rvs_view(s, i)[j - i] == rv_view(s[j]),
    decreases s.len() - i,
{
    if i < s.len() {
        lemma_rvs_view_len(s, i + 1);
    }
}

} // verus!
