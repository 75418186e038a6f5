use link_keeper::link::Link;
use link_keeper::raw_format::{add_to_raw, format_log, json_array_text, link_object_text};

fn link(url: &str, category: Option<&str>) -> Link {
    Link::new(url.to_string(), category.map(|c| c.to_string()))
}

#[test]
fn first_add_gives_an_array_of_one_object() {
    let text = add_to_raw(&vec![], &link("https://a.example", None)).unwrap();
    assert_eq!(text, "[{\"url\":\"https://a.example\"}]");
}

#[test]
fn category_is_written_when_present() {
    let text = add_to_raw(&vec![], &link("https://a.example", Some("rust"))).unwrap();
    assert_eq!(text, "[{\"url\":\"https://a.example\",\"category\":\"rust\"}]");
}

#[test]
fn log_after_three_adds_holds_three_objects_in_order() {
    let mut logged: Vec<Link> = vec![];
    let adds = vec![link("a", None), link("b", Some("c")), link("d", None)];
    let mut text = String::new();
    for l in &adds {
        text = add_to_raw(&logged, l).unwrap();
        logged.push(l.clone());
    }
    assert_eq!(text, "[{\"url\":\"a\"},{\"url\":\"b\",\"category\":\"c\"},{\"url\":\"d\"}]");
    let value: serde_json::Value = serde_json::from_str(&text).unwrap();
    let items = value.as_array().unwrap();
    assert_eq!(items.len(), 3);
    assert_eq!(items[0]["url"], "a");
    assert_eq!(items[1]["url"], "b");
    assert_eq!(items[1]["category"], "c");
    assert_eq!(items[2]["url"], "d");
}

#[test]
fn control_characters_are_escaped_in_hex() {
    let text = add_to_raw(&vec![], &link("a\u{1}b\u{1f}/\u{8}\u{c}\r\t", None)).unwrap();
    assert_eq!(text, "[{\"url\":\"a\\u0001b\\u001f/\\b\\f\\r\\t\"}]");
}

#[test]
fn strings_are_escaped_as_json() {
    let text = add_to_raw(&vec![], &link("a\"b\\c", Some("x\ny"))).unwrap();
    assert_eq!(text, "[{\"url\":\"a\\\"b\\\\c\",\"category\":\"x\\ny\"}]");
}

#[test]
fn empty_log_is_an_empty_array() {
    assert_eq!(format_log(&vec![]).unwrap(), "[]");
}

#[test]
fn object_and_array_framing() {
    assert_eq!(link_object_text("\"u\"", None), "{\"url\":\"u\"}");
    assert_eq!(link_object_text("\"u\"", Some("\"c\"")), "{\"url\":\"u\",\"category\":\"c\"}");
    assert_eq!(json_array_text(&vec!["1".to_string(), "2".to_string()]), "[1,2]");
    assert_eq!(json_array_text(&vec![]), "[]");
}
