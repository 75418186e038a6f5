use link_keeper::link::Link;
use link_keeper::markdown_guard::is_plain_markdown;
use link_keeper::keeper::{LinkKeeper, Settings};
use link_keeper::markdown::{format_data, links_from_blocks, markdown_with_link, parse_links, MdBlock, MdSpan};

fn link(url: &str, category: Option<&str>) -> Link {
    Link::new(url.to_string(), category.map(|c| c.to_string()))
}

#[test]
fn first_link_in_category_gives_one_heading_and_one_line() {
    let text = markdown_with_link("", &link("https://a.example", Some("rust")));
    assert_eq!(text, "\n## rust\n[https://a.example](https://a.example)\n\n");
    assert_eq!(text.matches("## ").count(), 1);
    assert_eq!(text.matches("](").count(), 1);
}

#[test]
fn first_link_without_category_has_no_heading() {
    let text = markdown_with_link("", &link("https://a.example", None));
    assert_eq!(text, "[https://a.example](https://a.example)\n\n");
}

#[test]
fn two_links_of_one_category_share_a_heading() {
    let first = markdown_with_link("", &link("https://a.example", Some("rust")));
    let second = markdown_with_link(&first, &link("https://b.example", Some("rust")));
    assert_eq!(
        second,
        "\n## rust\n[https://a.example](https://a.example)\n\n[https://b.example](https://b.example)\n\n"
    );
    assert_eq!(second.matches("## rust").count(), 1);
}

#[test]
fn render_then_parse_gives_the_link_back() {
    let original = link("https://a.example/page", Some("reading list"));
    let text = format_data(&vec![original.clone()]);
    let parsed = parse_links(&text);
    assert_eq!(parsed.len(), 1);
    assert_eq!(parsed[0].get_url(), "https://a.example/page");
    assert_eq!(parsed[0].get_category(), Some("reading list".to_string()));
    assert!(parsed[0] == original);
}

#[test]
fn uncategorised_links_come_first_then_categories_in_first_seen_order() {
    let links = vec![
        link("a", Some("x")),
        link("n", None),
        link("b", Some("y")),
        link("c", Some("x")),
    ];
    assert_eq!(
        format_data(&links),
        "[n](n)\n\n\n## x\n[a](a)\n\n[c](c)\n\n\n## y\n[b](b)\n\n"
    );
}

#[test]
fn empty_list_renders_as_empty_text() {
    assert_eq!(format_data(&vec![]), "");
}

#[test]
fn parse_files_links_under_the_last_heading() {
    let text = "[u](u)\n\n## one\n[a](a)\n\n## two\n[b](b)\n\n";
    let parsed = parse_links(text);
    assert_eq!(parsed.len(), 3);
    assert!(parsed[0] == link("u", None));
    assert!(parsed[1] == link("a", Some("one")));
    assert!(parsed[2] == link("b", Some("two")));
}

#[test]
fn adding_to_an_index_with_two_categories_keeps_both() {
    let text = "\n## one\n[a](a)\n\n\n## two\n[b](b)\n\n";
    let updated = markdown_with_link(text, &link("c", Some("one")));
    assert_eq!(updated, "\n## one\n[a](a)\n\n[c](c)\n\n\n## two\n[b](b)\n\n");
}

#[test]
fn blocks_walk_files_links_under_headings() {
    let blocks = vec![
        MdBlock::Paragraph(vec![MdSpan::Link("u".to_string(), "u".to_string())]),
        MdBlock::Header(vec![MdSpan::Text("one".to_string())]),
        MdBlock::Other,
        MdBlock::Paragraph(vec![
            MdSpan::Link("a".to_string(), "a".to_string()),
            MdSpan::Other,
            MdSpan::Link("b".to_string(), "b".to_string()),
        ]),
        MdBlock::Header(vec![MdSpan::Text(String::new())]),
        MdBlock::Paragraph(vec![MdSpan::Link("c".to_string(), "c".to_string())]),
    ];
    let links = links_from_blocks(&blocks);
    assert_eq!(links.len(), 4);
    assert!(links[0] == link("u", None));
    assert!(links[1] == link("a", Some("one")));
    assert!(links[2] == link("b", Some("one")));
    assert!(links[3] == link("c", Some("one")));
}

#[test]
fn empty_category_is_no_category() {
    let k = LinkKeeper::new(Settings::in_config_dir("/c"));
    assert_eq!(k.add("u", Some("")).get_category(), None);
}

#[test]
fn plain_markdown_check() {
    assert!(is_plain_markdown(""));
    assert!(is_plain_markdown("\n## rust\n[https://a.example](https://a.example)\n\n"));
    assert!(is_plain_markdown("```rust\ncode\n```\n"));
    assert!(!is_plain_markdown("ab\u{e9}```\n"));
    assert!(is_plain_markdown("a\u{e9}```\n"));
    assert!(!is_plain_markdown("> quoted\n"));
    assert!(!is_plain_markdown("text\n  - item\n"));
    assert!(!is_plain_markdown("1. first\n"));
    assert!(!is_plain_markdown("ii. second\n"));
    assert!(is_plain_markdown("-not a list\n1x\nii.no\n"));
}
