use mdtangle::assemble::{get_code_blocks, BlockEvent};
use mdtangle::event::{LinkKind, MdEvent, MdTag};
use mdtangle::info::BlockKind;

#[test]
fn fenced_start_keeps_its_header() {
    let event = MdEvent::Start(MdTag::CodeBlock(BlockKind::Fenced(String::from("rust file=a.rs"))));
    match event.block_event() {
        BlockEvent::Start(BlockKind::Fenced(header)) => assert_eq!(header, "rust file=a.rs"),
        _ => panic!("not the opening of a fenced block"),
    }
}

#[test]
fn indented_start_stays_indented() {
    let event = MdEvent::Start(MdTag::CodeBlock(BlockKind::Indented));
    assert!(matches!(event.block_event(), BlockEvent::Start(BlockKind::Indented)));
}

#[test]
fn code_block_end_of_either_kind() {
    let fenced = MdEvent::End(MdTag::CodeBlock(BlockKind::Fenced(String::from("x"))));
    let indented = MdEvent::End(MdTag::CodeBlock(BlockKind::Indented));
    assert!(matches!(fenced.block_event(), BlockEvent::End));
    assert!(matches!(indented.block_event(), BlockEvent::End));
}

#[test]
fn text_keeps_its_text() {
    match MdEvent::Text(String::from("body")).block_event() {
        BlockEvent::Text(text) => assert_eq!(text, "body"),
        _ => panic!("not text"),
    }
}

#[test]
fn everything_else_is_other() {
    let events = vec![
        MdEvent::Start(MdTag::Paragraph),
        MdEvent::End(MdTag::Paragraph),
        MdEvent::Start(MdTag::Heading(1)),
        MdEvent::Start(MdTag::List(Some(1))),
        MdEvent::End(MdTag::List(None)),
        MdEvent::Start(MdTag::Item),
        MdEvent::Start(MdTag::Link(LinkKind::Inline, String::from("u"), String::from("t"))),
        MdEvent::Code(String::from("inline")),
        MdEvent::Html(String::from("<b>")),
        MdEvent::FootnoteReference(String::from("n")),
        MdEvent::SoftBreak,
        MdEvent::HardBreak,
        MdEvent::Rule,
        MdEvent::TaskListMarker(false),
    ];
    for event in &events {
        assert!(matches!(event.block_event(), BlockEvent::Other));
    }
}

#[test]
fn inline_code_opens_no_block() {
    let events = vec![
        MdEvent::Start(MdTag::Paragraph),
        MdEvent::Code(String::from("inline")),
        MdEvent::Text(String::from(" prose")),
        MdEvent::End(MdTag::Paragraph),
    ];
    let block_events: Vec<BlockEvent> = events.iter().map(|e| e.block_event()).collect();
    assert_eq!(get_code_blocks(&block_events).unwrap().len(), 0);
}
