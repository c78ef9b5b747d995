use xml_tree::parse_xml_content;

#[test]
fn verify_xml_structure_maintained() {
    let xml = "\
    <I>\
        <J>\
            <L>Q</L>\
            <H>B</H>\
        </J>\
    </I>";
    let result = parse_xml_content(xml);
    assert_eq!(
        Some(String::from("Q")),
        result
            .get("I")
            .unwrap()
            .get("J")
            .unwrap()
            .get("L")
            .unwrap()
            .get_value()
    );
    assert_eq!(
        Some(String::from("B")),
        result
            .get("I")
            .unwrap()
            .get("J")
            .unwrap()
            .get("H")
            .unwrap()
            .get_value()
    );
}

#[test]
fn verify_confusing_xml() {
    let xml = "\
    <I>\
        <I>\
            <I>\
                <J>Q</J>
            </I>\
            <J>B</J>\
        </I>\
    </J>";
    let result = parse_xml_content(xml);
    assert_eq!(
        Some(String::from("Q")),
        result
            .get("I")
            .unwrap()
            .get("I")
            .unwrap()
            .get("I")
            .unwrap()
            .get("J")
            .unwrap()
            .get_value()
    );
    assert_eq!(
        Some(String::from("B")),
        result
            .get("I")
            .unwrap()
            .get("I")
            .unwrap()
            .get("J")
            .unwrap()
            .get_value()
    );
}

#[test]
fn duplicate_tag_overwrite() {
    let result = parse_xml_content("<I></I><I>M</I>");
    let element = result.get("I").unwrap();
    assert_eq!(Some(String::from("M")), element.get_value());
    assert!(element.is_leaf());
}

#[test]
fn leaf_with_no_text() {
    let result = parse_xml_content("<I></I>");
    let element = result.get("I").unwrap();
    assert_eq!(None, element.get_value());
    assert!(element.is_leaf());
}

#[test]
fn queries_are_idempotent() {
    let result = parse_xml_content("<A><B>x</B></A>");
    let outer = result.get("A").unwrap();
    assert_eq!(outer.get("B").unwrap().get_value(), outer.get("B").unwrap().get_value());
    assert_eq!(outer.get_value(), outer.get_value());
    assert_eq!(outer.get("C").is_none(), outer.get("C").is_none());
    assert_eq!(Some(String::from("x")), outer.get("B").unwrap().get_value());
}

#[test]
fn root_holds_every_top_level_tag() {
    let result = parse_xml_content("<A>1</A><B></B><A>2</A>");
    assert!(result.get("A").is_some());
    assert!(result.get("B").is_some());
    assert!(result.get("C").is_none());
    assert_eq!(None, result.get_value());
    assert_eq!(Some(String::from("2")), result.get("A").unwrap().get_value());
}

#[test]
fn later_text_overwrites_earlier_text() {
    let result = parse_xml_content("<A>one<B></B>two</A>");
    let element = result.get("A").unwrap();
    assert_eq!(Some(String::from("two")), element.get_value());
    assert!(element.get("B").is_some());
}

#[test]
fn text_after_child_belongs_to_parent() {
    let result = parse_xml_content("<A><B>x</B>tail</A>");
    assert_eq!(Some(String::from("tail")), result.get("A").unwrap().get_value());
    assert_eq!(
        Some(String::from("x")),
        result.get("A").unwrap().get("B").unwrap().get_value()
    );
}

#[test]
fn unterminated_element_is_kept() {
    let result = parse_xml_content("<A><B>x</B>");
    assert_eq!(
        Some(String::from("x")),
        result.get("A").unwrap().get("B").unwrap().get_value()
    );
}
