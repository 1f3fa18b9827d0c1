use mdtangle::event::{LinkKind, MdEvent, MdTag};
use mdtangle::info::BlockKind;
use mdtangle::render::{readme_text, RenderError};

fn text(t: &str) -> MdEvent {
    MdEvent::Text(String::from(t))
}

fn render(events: Vec<MdEvent>) -> String {
    readme_text(&events).unwrap()
}

fn link(kind: LinkKind) -> MdTag {
    MdTag::Link(kind, String::from("url"), String::from("title"))
}

#[test]
fn nothing_renders_as_nothing() {
    assert_eq!(render(vec![]), "");
}

#[test]
fn text_and_html_are_copied() {
    assert_eq!(render(vec![text("a & b"), MdEvent::Html(String::from("<br/>")), text("c")]), "a & b<br/>c");
}

#[test]
fn inline_code_gets_backticks_and_a_newline() {
    assert_eq!(render(vec![MdEvent::Code(String::from("x + 1"))]), "`x + 1`\n");
}

#[test]
fn rule_and_breaks() {
    assert_eq!(render(vec![MdEvent::Rule]), "\n---\n");
    assert_eq!(render(vec![text("a"), MdEvent::SoftBreak, text("b"), MdEvent::HardBreak]), "a\nb\n");
}

#[test]
fn task_markers() {
    assert_eq!(render(vec![MdEvent::TaskListMarker(true)]), "[X] ");
    assert_eq!(render(vec![MdEvent::TaskListMarker(false)]), "[ ] ");
}

#[test]
fn footnote_reference_is_its_label() {
    assert_eq!(render(vec![MdEvent::FootnoteReference(String::from("note1"))]), "note1");
}

#[test]
fn headings_by_level() {
    assert_eq!(
        render(vec![MdEvent::Start(MdTag::Heading(1)), text("Title"), MdEvent::End(MdTag::Heading(1))]),
        "\n# Title\n"
    );
    assert_eq!(
        render(vec![MdEvent::Start(MdTag::Heading(3)), text("Sub"), MdEvent::End(MdTag::Heading(3))]),
        "\n### Sub\n"
    );
    assert_eq!(render(vec![MdEvent::Start(MdTag::Heading(6))]), "\n###### ");
    assert_eq!(render(vec![MdEvent::Start(MdTag::Heading(0))]), "\n ");
}

#[test]
fn block_quote_opens_with_a_mark() {
    assert_eq!(
        render(vec![MdEvent::Start(MdTag::BlockQuote), text("quoted"), MdEvent::End(MdTag::BlockQuote)]),
        "> quoted"
    );
}

#[test]
fn fenced_code_block_keeps_its_header() {
    let kind = || BlockKind::Fenced(String::from("rust file=a.rs"));
    assert_eq!(
        render(vec![
            MdEvent::Start(MdTag::CodeBlock(kind())),
            text("fn main() {}\n"),
            MdEvent::End(MdTag::CodeBlock(kind())),
        ]),
        "```rust file=a.rs\nfn main() {}\n```\n"
    );
}

#[test]
fn indented_code_block_becomes_fenced() {
    assert_eq!(
        render(vec![
            MdEvent::Start(MdTag::CodeBlock(BlockKind::Indented)),
            text("code\n"),
            MdEvent::End(MdTag::CodeBlock(BlockKind::Indented)),
        ]),
        "```\ncode\n```\n"
    );
}

#[test]
fn emphasis_and_strong() {
    assert_eq!(
        render(vec![
            MdEvent::Start(MdTag::Emphasis),
            text("e"),
            MdEvent::End(MdTag::Emphasis),
            MdEvent::Start(MdTag::Strong),
            text("s"),
            MdEvent::End(MdTag::Strong),
        ]),
        "*e***s**"
    );
}

#[test]
fn links_by_kind() {
    assert_eq!(render(vec![MdEvent::Start(link(LinkKind::Inline))]), "[title](url)");
    assert_eq!(render(vec![MdEvent::Start(link(LinkKind::Reference))]), "[title][url]");
    assert_eq!(render(vec![MdEvent::Start(link(LinkKind::ReferenceUnknown))]), "[title][url]");
    assert_eq!(render(vec![MdEvent::Start(link(LinkKind::Collapsed))]), "[url][]");
    assert_eq!(render(vec![MdEvent::Start(link(LinkKind::CollapsedUnknown))]), "[url][]");
    assert_eq!(render(vec![MdEvent::Start(link(LinkKind::Shortcut))]), "[url]");
    assert_eq!(render(vec![MdEvent::Start(link(LinkKind::ShortcutUnknown))]), "[url]");
    assert_eq!(render(vec![MdEvent::Start(link(LinkKind::Autolink))]), "<url>");
    assert_eq!(render(vec![MdEvent::Start(link(LinkKind::Email))]), "<url>");
}

#[test]
fn images_are_links_behind_a_bang() {
    let image = |kind| MdTag::Image(kind, String::from("pic.png"), String::from("alt"));
    assert_eq!(render(vec![MdEvent::Start(image(LinkKind::Inline))]), "![alt](pic.png)");
    assert_eq!(render(vec![MdEvent::Start(image(LinkKind::Shortcut))]), "![pic.png]");
    assert_eq!(render(vec![MdEvent::Start(image(LinkKind::Autolink))]), "!<pic.png>");
}

#[test]
fn closing_a_link_writes_nothing() {
    assert_eq!(render(vec![MdEvent::End(link(LinkKind::Inline))]), "");
}

#[test]
fn elements_that_write_nothing() {
    let tags = || {
        vec![
            MdTag::Paragraph,
            MdTag::FootnoteDefinition,
            MdTag::Table,
            MdTag::TableHead,
            MdTag::TableRow,
            MdTag::TableCell,
            MdTag::Strikethrough,
        ]
    };
    for tag in tags() {
        assert_eq!(render(vec![MdEvent::Start(tag)]), "");
    }
    for tag in tags() {
        assert_eq!(render(vec![MdEvent::End(tag)]), "");
    }
    assert_eq!(render(vec![MdEvent::End(MdTag::BlockQuote)]), "");
    assert_eq!(render(vec![MdEvent::End(MdTag::Item)]), "");
}

#[test]
fn bulleted_list() {
    assert_eq!(
        render(vec![
            MdEvent::Start(MdTag::List(None)),
            MdEvent::Start(MdTag::Item),
            text("a"),
            MdEvent::End(MdTag::Item),
            MdEvent::Start(MdTag::Item),
            text("b"),
            MdEvent::End(MdTag::Item),
            MdEvent::End(MdTag::List(None)),
        ]),
        "\n- a\n- b"
    );
}

#[test]
fn numbered_list_counts_on() {
    assert_eq!(
        render(vec![
            MdEvent::Start(MdTag::List(Some(9))),
            MdEvent::Start(MdTag::Item),
            text("a"),
            MdEvent::End(MdTag::Item),
            MdEvent::Start(MdTag::Item),
            text("b"),
            MdEvent::End(MdTag::Item),
            MdEvent::Start(MdTag::Item),
            text("c"),
            MdEvent::End(MdTag::Item),
            MdEvent::End(MdTag::List(Some(9))),
        ]),
        "\n9. a\n10. b\n11. c"
    );
}

#[test]
fn list_numbers_in_decimal() {
    let item = |n: u64| render(vec![MdEvent::Start(MdTag::List(Some(n))), MdEvent::Start(MdTag::Item)]);
    assert_eq!(item(0), "\n0. ");
    assert_eq!(item(7), "\n7. ");
    assert_eq!(item(10), "\n10. ");
    assert_eq!(item(1234567890), "\n1234567890. ");
    assert_eq!(item(u64::MAX - 1), "\n18446744073709551614. ");
}

#[test]
fn nested_lists_are_set_in_by_tabs() {
    assert_eq!(
        render(vec![
            MdEvent::Start(MdTag::List(None)),
            MdEvent::Start(MdTag::Item),
            text("outer"),
            MdEvent::Start(MdTag::List(Some(1))),
            MdEvent::Start(MdTag::Item),
            text("inner one"),
            MdEvent::End(MdTag::Item),
            MdEvent::Start(MdTag::Item),
            text("inner two"),
            MdEvent::Start(MdTag::List(None)),
            MdEvent::Start(MdTag::Item),
            text("deep"),
            MdEvent::End(MdTag::Item),
            MdEvent::End(MdTag::List(None)),
            MdEvent::End(MdTag::Item),
            MdEvent::End(MdTag::List(Some(1))),
            MdEvent::End(MdTag::Item),
            MdEvent::Start(MdTag::Item),
            text("outer again"),
            MdEvent::End(MdTag::Item),
            MdEvent::End(MdTag::List(None)),
        ]),
        "\n- outer\n\t1. inner one\n\t2. inner two\n\t\t- deep\n- outer again"
    );
}

#[test]
fn second_list_starts_at_the_margin() {
    assert_eq!(
        render(vec![
            MdEvent::Start(MdTag::List(None)),
            MdEvent::Start(MdTag::List(None)),
            MdEvent::End(MdTag::List(None)),
            MdEvent::End(MdTag::List(None)),
            MdEvent::Start(MdTag::List(Some(1))),
            MdEvent::Start(MdTag::Item),
            MdEvent::End(MdTag::Item),
            MdEvent::End(MdTag::List(Some(1))),
        ]),
        "\n1. "
    );
}

#[test]
fn item_outside_a_list_is_an_error() {
    assert_eq!(readme_text(&vec![MdEvent::Start(MdTag::Item)]).err(), Some(RenderError::ItemOutsideList));
    assert_eq!(
        readme_text(&vec![
            text("written before"),
            MdEvent::Start(MdTag::List(None)),
            MdEvent::End(MdTag::List(None)),
            MdEvent::Start(MdTag::Item),
        ])
        .err(),
        Some(RenderError::ItemOutsideList)
    );
}

#[test]
fn item_number_beyond_64_bits_is_an_error() {
    assert_eq!(
        readme_text(&vec![MdEvent::Start(MdTag::List(Some(u64::MAX))), MdEvent::Start(MdTag::Item)]).err(),
        Some(RenderError::ItemNumberTooLarge)
    );
    assert_eq!(
        readme_text(&vec![
            MdEvent::Start(MdTag::List(Some(u64::MAX - 1))),
            MdEvent::Start(MdTag::Item),
            MdEvent::Start(MdTag::Item),
        ])
        .err(),
        Some(RenderError::ItemNumberTooLarge)
    );
}

#[test]
fn closing_a_list_that_is_not_open_changes_nothing() {
    assert_eq!(
        render(vec![
            MdEvent::End(MdTag::List(None)),
            MdEvent::Start(MdTag::List(None)),
            MdEvent::Start(MdTag::Item),
        ]),
        "\n- "
    );
}

#[test]
fn a_small_document() {
    let fence = || BlockKind::Fenced(String::from("sh"));
    assert_eq!(
        render(vec![
            MdEvent::Start(MdTag::Heading(1)),
            text("Tool"),
            MdEvent::End(MdTag::Heading(1)),
            MdEvent::Start(MdTag::Paragraph),
            text("Run "),
            MdEvent::Code(String::from("make")),
            MdEvent::End(MdTag::Paragraph),
            MdEvent::Start(MdTag::CodeBlock(fence())),
            text("make all\n"),
            MdEvent::End(MdTag::CodeBlock(fence())),
        ]),
        "\n# Tool\nRun `make`\n```sh\nmake all\n```\n"
    );
}
