use applib::xml::{collect_nodes, extract_nodes_from_xml, read_text_in_node, render_nodes, NodeCopy, XmlAttribute, XmlError};

const HOTELS: &str = r#"
        <Hotels>
            <Hotel>
                <Id>483291</Id>
                <Name>
                    <![CDATA[18 coins cafe and hostel]]>
                </Name>
                <Rating>2</Rating>
            </Hotel>
            <Hotel>
                <Id>693291</Id>
                <Name>
                    <![CDATA[The food]]>
                </Name>
                <Rating>4</Rating>
            </Hotel>
        </Hotels>
        "#;

fn inner_texts(doc: &str, open: &str, close: &str) -> Vec<String> {
    let mut out = Vec::new();
    let mut rest = doc;
    while let Some(p) = rest.find(open) {
        let after = &rest[p + open.len()..];
        let q = after.find(close).unwrap();
        out.push(after[..q].to_string());
        rest = &after[q + close.len()..];
    }
    out
}

#[test]
fn test_find_and_count_hotels() {
    let node = "Hotel";
    let res = extract_nodes_from_xml(HOTELS, node).ok().unwrap();
    let text = String::from_utf8(res.0).unwrap();
    assert_eq!(res.1, 2);
    let inner = inner_texts(HOTELS, "<Hotel>", "</Hotel>");
    let expected = format!("<Hotel>{}</Hotel><Hotel>{}</Hotel>", inner[0], inner[1]);
    assert_eq!(text, expected);
}

#[test]
fn extract_keeps_attributes_in_order() {
    let xml = r#"<Hotels><Hotel id="7"  code='x1'>a<b/>c</Hotel><Other>z</Other><Hotel>d</Hotel></Hotels>"#;
    let (bytes, count) = extract_nodes_from_xml(xml, "Hotel").ok().unwrap();
    assert_eq!(count, 2);
    assert_eq!(String::from_utf8(bytes).unwrap(), r#"<Hotel id="7" code="x1">a<b/>c</Hotel><Hotel>d</Hotel>"#);
}

#[test]
fn extract_nested_same_name_is_one_copy() {
    let xml = "<r><Hotel>x<Hotel>y</Hotel>z</Hotel></r>";
    let (bytes, count) = extract_nodes_from_xml(xml, "Hotel").ok().unwrap();
    assert_eq!(count, 1);
    assert_eq!(String::from_utf8(bytes).unwrap(), "<Hotel>x<Hotel>y</Hotel>z</Hotel>");
}

#[test]
fn extract_ignores_self_closed_elements() {
    let (bytes, count) = extract_nodes_from_xml("<r><Hotel/><Hotel>q</Hotel></r>", "Hotel").ok().unwrap();
    assert_eq!(count, 1);
    assert_eq!(bytes, b"<Hotel>q</Hotel>".to_vec());
}

#[test]
fn extract_from_document_without_matches() {
    let (bytes, count) = extract_nodes_from_xml("<Hotels><Room>1</Room></Hotels>", "Hotel").ok().unwrap();
    assert_eq!(count, 0);
    assert!(bytes.is_empty());
    let (bytes, count) = extract_nodes_from_xml("", "Hotel").ok().unwrap();
    assert_eq!(count, 0);
    assert!(bytes.is_empty());
}

#[test]
fn extract_unclosed_element_is_an_error() {
    match extract_nodes_from_xml("<r><Hotel>never closed", "Hotel") {
        Err(XmlError::Read(m)) => {
            assert_eq!(m, "ill-formed document: start tag not closed: `</Hotel>` not found before end of input")
        }
        _ => panic!("expected a read error"),
    }
}

#[test]
fn extract_malformed_attribute_is_an_error() {
    match extract_nodes_from_xml("<r><Hotel id=7>x</Hotel></r>", "Hotel") {
        Err(XmlError::Attribute(m)) => assert_eq!(m, "UnquotedValue(9)"),
        _ => panic!("expected an attribute error"),
    }
}

fn check_extraction_shape(xml: &str, node: &str) {
    let (bytes, count) = extract_nodes_from_xml(xml, node).ok().unwrap();
    assert!(bytes.len() >= count * (2 * node.len() + 5));
    assert_eq!(count == 0, bytes.is_empty());
    assert!(String::from_utf8(bytes).is_ok());
}

#[test]
fn extraction_output_is_utf8_and_holds_each_element_whole() {
    check_extraction_shape(HOTELS, "Hotel");
    check_extraction_shape(HOTELS, "Hotels");
    check_extraction_shape(HOTELS, "Room");
    check_extraction_shape("<r><Hôtel nom=\"Été\">café</Hôtel><Hôtel/></r>", "Hôtel");
    check_extraction_shape("<r><n></n><n></n></r>", "n");
    let (bytes, count) = extract_nodes_from_xml("<r><n></n><n></n></r>", "n").ok().unwrap();
    assert_eq!(count, 2);
    assert_eq!(bytes.len(), 2 * (2 * 1 + 5));
}

#[test]
fn extraction_keeps_non_ascii_attributes() {
    let (bytes, count) = extract_nodes_from_xml("<r><h nom=\"Été\">café</h></r>", "h").ok().unwrap();
    assert_eq!(count, 1);
    assert_eq!(String::from_utf8(bytes).unwrap(), "<h nom=\"Été\">café</h>");
}

#[test]
fn extract_stops_at_a_syntax_error() {
    // An unclosed markup at the end stops the reading; what came before stays.
    let (bytes, count) = extract_nodes_from_xml("<r><Hotel>a</Hotel><", "Hotel").ok().unwrap();
    assert_eq!(count, 1);
    assert_eq!(bytes, b"<Hotel>a</Hotel>".to_vec());
}

#[test]
fn collect_nodes_gives_attributes_and_text() {
    let copies = collect_nodes(r#"<a><n k="v">t</n></a>"#, "n").ok().unwrap();
    assert_eq!(copies.len(), 1);
    assert_eq!(copies[0].attributes.len(), 1);
    assert_eq!(copies[0].attributes[0].key, b"k".to_vec());
    assert_eq!(copies[0].attributes[0].value, b"v".to_vec());
    assert_eq!(copies[0].text, "t");
}

#[test]
fn render_nodes_writes_tags_around_text() {
    let copies = vec![
        NodeCopy {
            attributes: vec![XmlAttribute { key: b"a".to_vec(), value: b"1".to_vec() }, XmlAttribute { key: b"b".to_vec(), value: b"&amp;".to_vec() }],
            text: "x".to_string(),
        },
        NodeCopy { attributes: vec![], text: "".to_string() },
    ];
    let (bytes, count) = render_nodes("N", &copies);
    assert_eq!(count, 2);
    assert_eq!(String::from_utf8(bytes).unwrap(), r#"<N a="1" b="&amp;">x</N><N></N>"#);
}

#[test]
fn render_concatenation_is_concatenation_of_renderings() {
    let a = vec![NodeCopy { attributes: vec![], text: "1".to_string() }];
    let b = vec![NodeCopy { attributes: vec![], text: "2".to_string() }];
    let both = vec![NodeCopy { attributes: vec![], text: "1".to_string() }, NodeCopy { attributes: vec![], text: "2".to_string() }];
    let ra = render_nodes("h", &a).0;
    let rb = render_nodes("h", &b).0;
    let rab = render_nodes("h", &both).0;
    assert_eq!([ra, rb].concat(), rab);
}

#[test]
fn read_text_in_node_reads_inside_the_root() {
    let text = read_text_in_node("<Hotels><Hotel>1</Hotel><Hotel>2</Hotel></Hotels>", "Hotels").ok().unwrap();
    assert_eq!(text, "<Hotel>1</Hotel><Hotel>2</Hotel>");
}

#[test]
fn read_text_in_node_without_end_is_an_error() {
    assert!(matches!(read_text_in_node("<Hotels><Hotel>1</Hotel>", "Hotels"), Err(XmlError::Read(_))));
    match read_text_in_node("<Hotels><Hotel>1</Hotel>", "Hotels") {
        Err(XmlError::Read(m)) => {
            assert_eq!(m, "ill-formed document: start tag not closed: `</Hotels>` not found before end of input")
        }
        _ => panic!("expected a read error"),
    }
}

#[test]
fn read_text_in_node_reports_a_bad_first_event() {
    match read_text_in_node("</a><a>x</a>", "a") {
        Err(XmlError::Read(m)) => assert_eq!(m, "ill-formed document: close tag `</a>` does not match any open tag"),
        _ => panic!("expected a read error"),
    }
}

#[test]
fn read_text_in_node_of_empty_document_is_an_error() {
    assert!(read_text_in_node("", "Hotels").is_err());
}

#[test]
fn xml_error_message_is_its_text() {
    assert_eq!(XmlError::Utf8("bad".to_string()).message(), "bad");
}

#[test]
fn collect_nodes_of_empty_input_is_empty() {
    assert_eq!(collect_nodes("", "Hotel").ok().unwrap().len(), 0);
}

#[test]
fn copied_texts_are_pieces_of_the_input_in_order() {
    let xml = "<r><n>first</n><m/><n>second</n></r>";
    let copies = collect_nodes(xml, "n").ok().unwrap();
    let mut from = 0;
    for c in &copies {
        let at = from + xml[from..].find(c.text.as_str()).unwrap();
        assert!(at + c.text.len() + 2 <= xml.len());
        from = at + c.text.len() + 2;
    }
    assert_eq!(copies.len(), 2);
}

#[test]
fn read_text_is_a_piece_of_the_input() {
    let xml = "<Hotels>abc<x/></Hotels>";
    let text = read_text_in_node(xml, "Hotels").ok().unwrap();
    assert!(xml.contains(text.as_str()));
}

#[test]
fn self_closed_and_other_elements_are_not_copied() {
    let (bytes, count) = extract_nodes_from_xml("<Hotels><Hotel/><Other>y</Other></Hotels>", "Hotel").ok().unwrap();
    assert_eq!((bytes, count), (vec![], 0));
}

#[test]
fn read_text_keeps_entities_as_written() {
    assert_eq!(read_text_in_node("<Hotels>a &amp; b</Hotels>", "Hotels").ok().unwrap(), "a &amp; b");
}

#[test]
fn read_text_after_a_declaration_misses_the_end() {
    assert!(read_text_in_node("<?xml version=\"1.0\"?><Hotels><Hotel>A</Hotel></Hotels>", "Hotels").is_err());
}
