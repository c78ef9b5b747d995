use xml_tree::get_next_tag;
use xml_tree::get_starting_tag;
use xml_tree::is_ending_tag;
use xml_tree::Event;

#[test]
fn verify_tags_order() {
    // the token stream of "<I><J><K>M</K></J></I>"
    let events = vec![
        Event::Start(String::from("I")),
        Event::Start(String::from("J")),
        Event::Start(String::from("K")),
        Event::Text(String::from("M")),
        Event::End(String::from("K")),
        Event::End(String::from("J")),
        Event::End(String::from("I")),
    ];
    assert_eq!(Some("I"), get_starting_tag(&events[0]));
    assert_eq!(Some("J"), get_starting_tag(&events[1]));
    assert_eq!(Some("K"), get_starting_tag(&events[2]));
    assert!(is_ending_tag("K", &events[4]));
    assert!(is_ending_tag("J", &events[5]));
    assert!(is_ending_tag("I", &events[6]));
}

#[test]
fn search_for_inner_tag() {
    // the token stream of "<I></I><L>\n        <I>M</I></L><J></J>",
    // document start and end and the whitespace run kept as other tokens
    let events = vec![
        Event::Other,
        Event::Start(String::from("I")),
        Event::End(String::from("I")),
        Event::Start(String::from("L")),
        Event::Other,
        Event::Start(String::from("I")),
        Event::Text(String::from("M")),
        Event::End(String::from("I")),
        Event::End(String::from("L")),
        Event::Start(String::from("J")),
        Event::End(String::from("J")),
        Event::Other,
    ];
    let mut pos: usize = 2;
    assert!(get_next_tag(&events, &mut pos, "I").is_leaf());
    pos += 1;
    assert!(get_next_tag(&events, &mut pos, "L").get("I").is_some());
    pos += 1;
    assert!(get_next_tag(&events, &mut pos, "J").is_leaf());
}

#[test]
fn classification_rejects_other_kinds() {
    let start = Event::Start(String::from("A"));
    let end = Event::End(String::from("A"));
    let text = Event::Text(String::from("A"));
    let other = Event::Other;
    assert_eq!(None, get_starting_tag(&end));
    assert_eq!(None, get_starting_tag(&text));
    assert_eq!(None, get_starting_tag(&other));
    assert!(!is_ending_tag("A", &start));
    assert!(!is_ending_tag("A", &text));
    assert!(!is_ending_tag("A", &other));
    assert!(!is_ending_tag("B", &end));
}

#[test]
fn builder_tolerates_exhaustion() {
    let events: Vec<Event> = vec![Event::Start(String::from("B")), Event::Text(String::from("x"))];
    let mut pos: usize = 0;
    let element = get_next_tag(&events, &mut pos, "A");
    assert_eq!(2, pos);
    assert_eq!(None, element.get_value());
    let inner = element.get("B").unwrap();
    assert_eq!(Some(String::from("x")), inner.get_value());
}

#[test]
fn unmatched_end_tag_is_ignored() {
    // the token stream of "<A><B>x</A>": the end tag named A is consumed by
    // the element named B, does not close it, and the stream runs out
    let events = vec![
        Event::Start(String::from("A")),
        Event::Start(String::from("B")),
        Event::Text(String::from("x")),
        Event::End(String::from("A")),
    ];
    let mut pos: usize = 0;
    let root = get_next_tag(&events, &mut pos, "R");
    assert_eq!(4, pos);
    let outer = root.get("A").unwrap();
    let inner = outer.get("B").unwrap();
    assert_eq!(Some(String::from("x")), inner.get_value());
}
