use hard_xml::mapops::map_insert;
use hard_xml::{
    Conv, FieldDecl, FieldValue, MapEntry, Mapping, Mult, NamedSchema, RecordType, RecordValue,
    Scalar, ScalarKind, XmlError, from_xml_str, to_xml_string,
};

fn s(x: &str) -> String {
    String::from(x)
}

fn map_data_schema() -> RecordType {
    RecordType::Named(NamedSchema {
        name: s("MapData"),
        tag: s("mapdata"),
        strict_attr: false,
        strict_elem: false,
        fields: vec![FieldDecl::Prefix { name: s("v"), prefix: s("v"), kind: ScalarKind::Int }],
    })
}

#[test]
fn map_test() {
    let mut v = Mapping { entries: Vec::new() };
    map_insert(&mut v, s("foo"), Scalar::Int(1));
    map_insert(&mut v, s("fbb"), Scalar::Int(2));

    let map_data = RecordValue::Fields(vec![FieldValue::Dict(v)]);

    assert_eq!(
        r#"<mapdata v:fbb="2" v:foo="1"/>"#,
        to_xml_string(&map_data_schema(), &map_data)
    );
}

fn with_tag_schema() -> RecordType {
    RecordType::Named(NamedSchema {
        name: s("Withtag"),
        tag: s("withtag"),
        strict_attr: false,
        strict_elem: false,
        fields: vec![FieldDecl::Attr {
            name: s("att1"),
            attr: s("att1"),
            kind: ScalarKind::Str,
            conv: Conv::Rev,
            mult: Mult::One,
            dflt: false,
        }],
    })
}

#[test]
fn with_tag_test() {
    let schema = with_tag_schema();

    assert_eq!(
        from_xml_str(&schema, r#"<withtag att1="att1"/>"#).unwrap(),
        RecordValue::Fields(vec![FieldValue::One(Scalar::Str(s("1tta")))])
    );

    // match with a reversed string written by the custom converter.
    assert_eq!(
        to_xml_string(
            &schema,
            &RecordValue::Fields(vec![FieldValue::One(Scalar::Str(s("att1")))])
        ),
        r#"<withtag att1="1tta"/>"#,
    );
}

fn bool_schema(attr_conv: Conv) -> RecordType {
    RecordType::Named(NamedSchema {
        name: s("Flags"),
        tag: s("flags"),
        strict_attr: false,
        strict_elem: false,
        fields: vec![
            FieldDecl::Attr {
                name: s("on"),
                attr: s("on"),
                kind: ScalarKind::Bool,
                conv: attr_conv,
                mult: Mult::One,
                dflt: false,
            },
            FieldDecl::Flatten {
                name: s("note"),
                tag: s("note"),
                kind: ScalarKind::Bool,
                conv: Conv::Std,
                mult: Mult::One,
                cdata: false,
                dflt: false,
            },
        ],
    })
}

#[test]
fn bool_attr_writes_digits_and_text_writes_words() {
    let schema = bool_schema(Conv::Std);
    let v = RecordValue::Fields(vec![
        FieldValue::One(Scalar::Bool(true)),
        FieldValue::One(Scalar::Bool(false)),
    ]);
    assert_eq!(
        to_xml_string(&schema, &v),
        r#"<flags on="1"><note>false</note></flags>"#
    );
}

#[test]
fn bool_read_accepts_both_vocabularies() {
    let schema = bool_schema(Conv::Std);
    for (text, on, note) in [
        (r#"<flags on="yes"><note>false</note></flags>"#, true, false),
        (r#"<flags on="0"><note>true</note></flags>"#, false, true),
        (r#"<flags on="off"><note>false</note></flags>"#, false, false),
        (r#"<flags on="t"><note>true</note></flags>"#, true, true),
    ] {
        let v = from_xml_str(&schema, text).unwrap();
        assert_eq!(
            v,
            RecordValue::Fields(vec![
                FieldValue::One(Scalar::Bool(on)),
                FieldValue::One(Scalar::Bool(note)),
            ])
        );
    }
    // outside both vocabularies: a value-parse error carrying the raw text
    let bad = from_xml_str(&schema, r#"<flags on="TRUE"><note>false</note></flags>"#);
    assert_eq!(bad.unwrap_err(), XmlError::FromStr(s("TRUE")));
}

fn strict_schema(strict_attr: bool, strict_elem: bool) -> RecordType {
    RecordType::Named(NamedSchema {
        name: s("Ex"),
        tag: s("ex"),
        strict_attr,
        strict_elem,
        fields: vec![],
    })
}

#[test]
fn strict_unknown_attribute_rejected() {
    let r = from_xml_str(&strict_schema(true, true), r#"<ex foo='bar'/>"#);
    assert_eq!(
        r.unwrap_err(),
        XmlError::UnknownField { name: s("Ex"), field: s("foo") }
    );
}

#[test]
fn lenient_unknown_attribute_ignored() {
    let r = from_xml_str(&strict_schema(false, false), r#"<ex foo='bar'/>"#);
    assert_eq!(r.unwrap(), RecordValue::Fields(vec![]));
}

#[test]
fn strict_unknown_element_rejected() {
    let r = from_xml_str(&strict_schema(false, true), r#"<ex><unknown/></ex>"#);
    assert_eq!(
        r.unwrap_err(),
        XmlError::UnknownField { name: s("Ex"), field: s("unknown") }
    );
}

#[test]
fn lenient_unknown_element_skipped() {
    let r = from_xml_str(
        &strict_schema(false, false),
        r#"<ex><unknown a="1"><inner>t</inner></unknown></ex>"#,
    );
    assert_eq!(r.unwrap(), RecordValue::Fields(vec![]));
}

fn required_attr_schema(dflt: bool) -> RecordType {
    RecordType::Named(NamedSchema {
        name: s("Root"),
        tag: s("root"),
        strict_attr: false,
        strict_elem: false,
        fields: vec![FieldDecl::Attr {
            name: s("attr"),
            attr: s("attr"),
            kind: ScalarKind::Bool,
            conv: Conv::Std,
            mult: Mult::One,
            dflt,
        }],
    })
}

#[test]
fn missing_required_field_names_record_and_field() {
    let r = from_xml_str(&required_attr_schema(false), r#"<root/>"#);
    assert_eq!(
        r.unwrap_err(),
        XmlError::MissingField { name: s("Root"), field: s("attr") }
    );
}

#[test]
fn default_flag_fills_absent_field() {
    let r = from_xml_str(&required_attr_schema(true), r#"<root/>"#).unwrap();
    assert_eq!(r, RecordValue::Fields(vec![FieldValue::One(Scalar::Bool(false))]));
    let r2 = from_xml_str(&required_attr_schema(true), r#"<root attr="1"/>"#).unwrap();
    assert_eq!(r2, RecordValue::Fields(vec![FieldValue::One(Scalar::Bool(true))]));
}

#[test]
fn prefix_mapping_reads_both_entries() {
    let r = from_xml_str(&map_data_schema(), r#"<mapdata v:foo="1" v:fbb="2"/>"#).unwrap();
    let mut expected = Mapping { entries: Vec::new() };
    map_insert(&mut expected, s("fbb"), Scalar::Int(2));
    map_insert(&mut expected, s("foo"), Scalar::Int(1));
    assert_eq!(r, RecordValue::Fields(vec![FieldValue::Dict(expected)]));
}

fn startswith_schema() -> RecordType {
    RecordType::Named(NamedSchema {
        name: s("Sw"),
        tag: s("sw"),
        strict_attr: false,
        strict_elem: false,
        fields: vec![FieldDecl::Starts { name: s("p"), prefix: s("p"), kind: ScalarKind::Int }],
    })
}

#[test]
fn startswith_bare_prefix_maps_to_empty_key() {
    let r = from_xml_str(&startswith_schema(), r#"<sw p="7" p:x="9"/>"#).unwrap();
    assert_eq!(
        r,
        RecordValue::Fields(vec![FieldValue::Dict(Mapping {
            entries: vec![
                MapEntry { key: s(""), val: Scalar::Int(7) },
                MapEntry { key: s("x"), val: Scalar::Int(9) },
            ],
        })])
    );
    // writing puts the empty key back as the bare prefix attribute
    assert_eq!(to_xml_string(&startswith_schema(), &r), r#"<sw p="7" p:x="9"/>"#);
}

fn ab_enum() -> RecordType {
    let a = RecordType::Named(NamedSchema {
        name: s("A"),
        tag: s("a"),
        strict_attr: false,
        strict_elem: false,
        fields: vec![],
    });
    let b = RecordType::Named(NamedSchema {
        name: s("B"),
        tag: s("b"),
        strict_attr: false,
        strict_elem: false,
        fields: vec![],
    });
    RecordType::Enum(s("Tag"), vec![a, b])
}

#[test]
fn enum_read_resolves_by_tag() {
    let r = from_xml_str(&ab_enum(), r#"<b/>"#).unwrap();
    assert_eq!(
        r,
        RecordValue::Variant(1, Box::new(RecordValue::Fields(vec![])))
    );
    assert_eq!(to_xml_string(&ab_enum(), &r), r#"<b/>"#);
    let ra = from_xml_str(&ab_enum(), r#"<a></a>"#).unwrap();
    assert_eq!(
        ra,
        RecordValue::Variant(0, Box::new(RecordValue::Fields(vec![])))
    );
}

#[test]
fn int_attribute_formats_and_parses() {
    let schema = RecordType::Named(NamedSchema {
        name: s("Parent"),
        tag: s("parent"),
        strict_attr: false,
        strict_elem: false,
        fields: vec![FieldDecl::Attr {
            name: s("attr"),
            attr: s("attr"),
            kind: ScalarKind::Int,
            conv: Conv::Std,
            mult: Mult::One,
            dflt: false,
        }],
    });
    let v = RecordValue::Fields(vec![FieldValue::One(Scalar::Int(42))]);
    assert_eq!(to_xml_string(&schema, &v), r#"<parent attr="42"/>"#);
    assert_eq!(
        from_xml_str(&schema, r#"<parent attr="48"></parent>"#).unwrap(),
        RecordValue::Fields(vec![FieldValue::One(Scalar::Int(48))])
    );
    assert_eq!(
        from_xml_str(&schema, r#"<parent attr="-7"/>"#).unwrap(),
        RecordValue::Fields(vec![FieldValue::One(Scalar::Int(-7))])
    );
    assert_eq!(
        from_xml_str(&schema, r#"<parent attr="+9"/>"#).unwrap(),
        RecordValue::Fields(vec![FieldValue::One(Scalar::Int(9))])
    );
    // overflow and malformed numbers are value-parse errors
    assert_eq!(
        from_xml_str(&schema, r#"<parent attr="9223372036854775808"/>"#).unwrap_err(),
        XmlError::FromStr(s("9223372036854775808"))
    );
    assert_eq!(
        from_xml_str(&schema, r#"<parent attr="4x"/>"#).unwrap_err(),
        XmlError::FromStr(s("4x"))
    );
}

#[test]
fn unexpected_eof_on_empty_input() {
    let r = from_xml_str(&strict_schema(false, false), "");
    assert_eq!(r.unwrap_err(), XmlError::UnexpectedEof);
}

#[test]
fn stray_token_is_unexpected() {
    let toks = vec![hard_xml::token::Token::EndOpen];
    let r = hard_xml::read_record(&strict_schema(false, false), &toks);
    assert_eq!(r.unwrap_err(), XmlError::UnexpectedToken(s("")));
}

#[test]
fn error_messages_name_the_field() {
    let e = XmlError::UnknownField { name: s("Ex"), field: s("foo") };
    assert_eq!(e.message(), r#"unknown field "foo" in element "Ex""#);
    let m = XmlError::MissingField { name: s("Root"), field: s("attr") };
    assert_eq!(m.message(), r#"missing field "attr" in element "Root""#);
}
