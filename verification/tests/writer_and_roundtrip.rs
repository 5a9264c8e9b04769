use hard_xml::{
    Conv, FieldDecl, FieldValue, Mapping, Mult, NamedSchema, RecordType, RecordValue, Scalar,
    ScalarKind, XmlWriter, from_xml_str, to_xml_string, tokenize,
};
use hard_xml::mapops::map_insert;
use hard_xml::token::Token;

fn s(x: &str) -> String {
    String::from(x)
}

#[test]
fn writer_builds_an_element_by_hand() {
    let mut w = XmlWriter::new(String::new());
    w.write_element_start("parent");
    w.write_attribute("attr1", "va<l");
    w.write_element_end_open();
    w.write_text("a&b");
    w.write_element_end_close("parent");
    assert_eq!(
        w.into_inner(),
        r#"<parent attr1="va&lt;l">a&amp;b</parent>"#
    );
}

#[test]
fn writer_self_close_and_cdata() {
    let mut w = XmlWriter::new(String::new());
    w.write_element_start("leaf");
    w.write_element_end_empty();
    assert_eq!(w.inner.as_str(), "<leaf/>");

    let mut w2 = XmlWriter::new(String::new());
    w2.write_cdata_text(r#"hello("deities!");"#);
    assert_eq!(w2.into_inner(), r#"<![CDATA[hello("deities!");]]>"#);
}

#[test]
fn writer_flatten_text_and_prefix() {
    let mut w = XmlWriter::new(String::new());
    w.write_flatten_text("code", "x<y", false);
    assert_eq!(w.inner.as_str(), "<code>x&lt;y</code>");

    let mut w2 = XmlWriter::new(String::new());
    let mut m = Mapping { entries: Vec::new() };
    map_insert(&mut m, s("foo"), Scalar::Int(1));
    map_insert(&mut m, s("fbb"), Scalar::Int(2));
    w2.write_prefix("v", &m);
    assert_eq!(w2.into_inner(), r#" v:fbb="2" v:foo="1""#);
}

fn child_schema() -> RecordType {
    RecordType::Named(NamedSchema {
        name: s("Child"),
        tag: s("child"),
        strict_attr: false,
        strict_elem: false,
        fields: vec![FieldDecl::Text {
            name: s("text"),
            kind: ScalarKind::Str,
            conv: Conv::Std,
            cdata: false,
        }],
    })
}

fn parent_schema() -> RecordType {
    RecordType::Named(NamedSchema {
        name: s("Parent"),
        tag: s("parent"),
        strict_attr: false,
        strict_elem: false,
        fields: vec![
            FieldDecl::Attr {
                name: s("attr1"),
                attr: s("attr1"),
                kind: ScalarKind::Str,
                conv: Conv::Std,
                mult: Mult::One,
                dflt: false,
            },
            FieldDecl::Attr {
                name: s("attr2"),
                attr: s("attr2"),
                kind: ScalarKind::Str,
                conv: Conv::Std,
                mult: Mult::Opt,
                dflt: false,
            },
            FieldDecl::Child {
                name: s("child"),
                tags: vec![s("child")],
                ty: child_schema(),
                mult: Mult::List,
                dflt: false,
            },
            FieldDecl::Flatten {
                name: s("extra"),
                tag: s("extra"),
                kind: ScalarKind::Str,
                conv: Conv::Std,
                mult: Mult::Opt,
                cdata: false,
                dflt: false,
            },
        ],
    })
}

fn parent_value(
    attr1: &str,
    attr2: Option<&str>,
    kids: Vec<&str>,
    extra: Option<&str>,
) -> RecordValue {
    RecordValue::Fields(vec![
        FieldValue::One(Scalar::Str(s(attr1))),
        FieldValue::Opt(attr2.map(|x| Scalar::Str(s(x)))),
        FieldValue::ListRec(
            kids.into_iter()
                .map(|t| RecordValue::Fields(vec![FieldValue::One(Scalar::Str(s(t)))]))
                .collect(),
        ),
        FieldValue::Opt(extra.map(|x| Scalar::Str(s(x)))),
    ])
}

#[test]
fn empty_optional_children_self_close() {
    let v = parent_value("val", None, vec![], None);
    assert_eq!(to_xml_string(&parent_schema(), &v), r#"<parent attr1="val"/>"#);
}

#[test]
fn nested_children_round_trip() {
    let v = parent_value("va&l", Some("x"), vec!["hi", "ho<"], Some("e"));
    let text = to_xml_string(&parent_schema(), &v);
    assert_eq!(
        text,
        r#"<parent attr1="va&amp;l" attr2="x"><child>hi</child><child>ho&lt;</child><extra>e</extra></parent>"#
    );
    let back = from_xml_str(&parent_schema(), &text).unwrap();
    assert_eq!(back, v);
}

#[test]
fn text_element_never_self_closes() {
    let v = RecordValue::Fields(vec![FieldValue::One(Scalar::Str(s("")))]);
    assert_eq!(to_xml_string(&child_schema(), &v), "<child></child>");
    let back = from_xml_str(&child_schema(), "<child></child>").unwrap();
    assert_eq!(back, v);
}

#[test]
fn cdata_flag_changes_writing_only() {
    let schema = RecordType::Named(NamedSchema {
        name: s("Parent"),
        tag: s("parent"),
        strict_attr: false,
        strict_elem: false,
        fields: vec![FieldDecl::Text {
            name: s("content"),
            kind: ScalarKind::Str,
            conv: Conv::Std,
            cdata: true,
        }],
    });
    let v = RecordValue::Fields(vec![FieldValue::One(Scalar::Str(s("content")))]);
    assert_eq!(to_xml_string(&schema, &v), r#"<parent><![CDATA[content]]></parent>"#);
    // reading works whether or not the text came wrapped in CDATA
    assert_eq!(from_xml_str(&schema, r#"<parent><![CDATA[content]]></parent>"#).unwrap(), v);
    assert_eq!(from_xml_str(&schema, r#"<parent>content</parent>"#).unwrap(), v);
}

#[test]
fn newtype_delegates_to_inner() {
    let schema = RecordType::Newtype(s("Wrapper"), Box::new(child_schema()));
    let v = RecordValue::Wrapped(Box::new(RecordValue::Fields(vec![FieldValue::One(
        Scalar::Str(s("inner")),
    )])));
    let text = to_xml_string(&schema, &v);
    assert_eq!(text, "<child>inner</child>");
    assert_eq!(from_xml_str(&schema, &text).unwrap(), v);
}

#[test]
fn tokenize_splits_a_document() {
    let toks = tokenize(r#"<a x="1">t</a>"#).unwrap();
    assert_eq!(
        toks,
        vec![
            Token::Start(s("a")),
            Token::Attr(s("x"), s("1")),
            Token::EndOpen,
            Token::Text(s("t")),
            Token::EndClose(s("a")),
        ]
    );
}

#[test]
fn declaration_and_comments_are_skipped() {
    let r = from_xml_str(
        &child_schema(),
        "<?xml version=\"1.0\"?><!-- note --><child>hey</child>",
    )
    .unwrap();
    assert_eq!(
        r,
        RecordValue::Fields(vec![FieldValue::One(Scalar::Str(s("hey")))])
    );
}

#[test]
fn flatten_text_list_collects_every_child() {
    let schema = RecordType::Named(NamedSchema {
        name: s("Bag"),
        tag: s("bag"),
        strict_attr: false,
        strict_elem: false,
        fields: vec![FieldDecl::Flatten {
            name: s("item"),
            tag: s("item"),
            kind: ScalarKind::Int,
            conv: Conv::Std,
            mult: Mult::List,
            cdata: false,
            dflt: false,
        }],
    });
    let text = "<bag><item>1</item><item>2</item><item>3</item></bag>";
    let v = from_xml_str(&schema, text).unwrap();
    assert_eq!(
        v,
        RecordValue::Fields(vec![FieldValue::List(vec![
            Scalar::Int(1),
            Scalar::Int(2),
            Scalar::Int(3),
        ])])
    );
    assert_eq!(to_xml_string(&schema, &v), text);
}

#[test]
fn bad_entity_is_a_parser_error() {
    let r = from_xml_str(&child_schema(), "<child>a&bogus;b</child>");
    assert!(matches!(r, Err(hard_xml::XmlError::Parser(_))));
}
