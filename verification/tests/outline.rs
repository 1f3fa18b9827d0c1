use mdtangle::event::{LinkKind, MdEvent, MdTag};
use mdtangle::outline::{indented_lines, Shown};

fn shown(event: MdEvent, text: &str) -> Shown {
    Shown::new(event, String::from(text))
}

fn sample() -> Vec<Shown> {
    vec![
        shown(MdEvent::Start(MdTag::Paragraph), "Start(Paragraph)"),
        shown(MdEvent::Text(String::from("intro")), "Text(intro)"),
        shown(MdEvent::End(MdTag::Paragraph), "End(Paragraph)"),
        shown(MdEvent::Start(MdTag::List(None)), "Start(List)"),
        shown(MdEvent::Start(MdTag::Item), "Start(Item)"),
        shown(MdEvent::Text(String::from("a")), "Text(a)"),
        shown(MdEvent::Start(MdTag::BlockQuote), "Start(BlockQuote)"),
        shown(MdEvent::Text(String::from("q")), "Text(q)"),
        shown(MdEvent::End(MdTag::BlockQuote), "End(BlockQuote)"),
        shown(MdEvent::End(MdTag::Item), "End(Item)"),
        shown(MdEvent::End(MdTag::List(None)), "End(List)"),
        shown(MdEvent::Rule, "Rule"),
    ]
}

#[test]
fn outline_of_nothing() {
    assert_eq!(indented_lines(&vec![], true).len(), 0);
    assert_eq!(indented_lines(&vec![], false).len(), 0);
}

#[test]
fn outline_with_tags() {
    assert_eq!(
        indented_lines(&sample(), true),
        vec![
            "Start(Paragraph)",
            "Text(intro)",
            "End(Paragraph)",
            "Start(List)",
            "\tStart(Item)",
            "\tText(a)",
            "\tStart(BlockQuote)",
            "\t\tText(q)",
            "\t\tEnd(BlockQuote)",
            "\tEnd(Item)",
            "\tEnd(List)",
            "Rule",
        ]
    );
}

#[test]
fn outline_without_tags() {
    assert_eq!(indented_lines(&sample(), false), vec!["Text(intro)", "\tText(a)", "\t\tText(q)", "Rule"]);
}

#[test]
fn tables_nest_too() {
    let items = vec![
        shown(MdEvent::Start(MdTag::Table), "table"),
        shown(MdEvent::Start(MdTag::TableHead), "head"),
        shown(MdEvent::Text(String::from("h")), "h"),
        shown(MdEvent::End(MdTag::TableHead), "/head"),
        shown(MdEvent::End(MdTag::Table), "/table"),
        shown(MdEvent::SoftBreak, "break"),
    ];
    assert_eq!(indented_lines(&items, true), vec!["table", "\thead", "\th", "\t/head", "\t/table", "break"]);
}

#[test]
fn other_elements_do_not_nest() {
    let items = vec![
        shown(MdEvent::Start(MdTag::Heading(2)), "h2"),
        shown(MdEvent::Start(MdTag::Emphasis), "em"),
        shown(MdEvent::Start(MdTag::Link(LinkKind::Inline, String::new(), String::new())), "a"),
        shown(MdEvent::Start(MdTag::Item), "item"),
        shown(MdEvent::Code(String::from("c")), "code"),
    ];
    assert_eq!(indented_lines(&items, true), vec!["h2", "em", "a", "item", "code"]);
}

#[test]
fn closing_at_the_margin_stays_at_the_margin() {
    let items = vec![
        shown(MdEvent::End(MdTag::List(None)), "/list"),
        shown(MdEvent::End(MdTag::BlockQuote), "/quote"),
        shown(MdEvent::Html(String::from("<p>")), "html"),
        shown(MdEvent::Start(MdTag::List(Some(1))), "list"),
        shown(MdEvent::TaskListMarker(true), "task"),
    ];
    assert_eq!(indented_lines(&items, true), vec!["/list", "/quote", "html", "list", "\ttask"]);
}

#[test]
fn depth_counts_even_where_tags_are_hidden() {
    let items = vec![
        shown(MdEvent::Start(MdTag::List(None)), "list"),
        shown(MdEvent::Start(MdTag::List(None)), "list"),
        shown(MdEvent::Start(MdTag::BlockQuote), "quote"),
        shown(MdEvent::FootnoteReference(String::from("n")), "note"),
        shown(MdEvent::End(MdTag::BlockQuote), "/quote"),
        shown(MdEvent::HardBreak, "break"),
    ];
    assert_eq!(indented_lines(&items, false), vec!["\t\t\tnote", "\t\tbreak"]);
}
