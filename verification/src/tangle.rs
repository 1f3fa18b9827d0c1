//! From a Markdown document to the files that its code blocks ask for.

use vstd::prelude::*;
use pulldown_cmark::{CodeBlockKind, Event, Options, Parser, Tag};
use crate::assemble::{
    blocks_view, events_view, get_code_blocks, plan_of, BlockEvent, BlockView, CodeBlock,
    EventView, TangleError,
};
use crate::emit::{file_writes, writes_of, writes_view, FileWrite, WriteView};
use crate::info::BlockKind;

verus! {

/// The events that the Markdown parser gives for a document, with task lists
/// switched on, as far as code blocks are concerned.
pub uninterp spec fn markdown_events(input: Seq<char>) -> Seq<EventView>;

/// Runs `pulldown_cmark::Parser::new_ext` on `input` with the option
/// `ENABLE_TASKLISTS` and hands out its events in order. The opening event of
/// a code block keeps its kind and, where it is fenced, its header; a text
/// event keeps its text; the closing event of a code block and every other
/// event keep nothing. The parser reads nothing but its arguments, so the
/// events are a function of the document.
#[verifier::external_body]
fn block_events(input: &str) -> (events: Vec<BlockEvent>)
    ensures
        events_view(events@) == markdown_events(input@),
{
    Parser::new_ext(input, Options::ENABLE_TASKLISTS)
        .map(|event| match event {
            Event::Start(Tag::CodeBlock(CodeBlockKind::Fenced(header))) => {
                BlockEvent::Start(BlockKind::Fenced(header.to_string()))
            },
            Event::Start(Tag::CodeBlock(CodeBlockKind::Indented)) => {
                BlockEvent::Start(BlockKind::Indented)
            },
            Event::End(Tag::CodeBlock(_)) => BlockEvent::End,
            Event::Text(text) => BlockEvent::Text(text.to_string()),
            _ => BlockEvent::Other,
        })
        .collect()
}

/// The writes that a document asks for, from its events: those of its code
/// blocks, in the order of the blocks. A document that ends inside a block
/// asks for none and is an error.
pub open spec fn tangle_of(events: Seq<EventView>) -> Result<Seq<WriteView>, TangleError> {
    match plan_of(events) {
        Ok(blocks) => Ok(writes_of(blocks)),
        Err(e) => Err(e),
    }
}

/// The writes that a document asks for, from its events.
pub fn tangle_events(events: &Vec<BlockEvent>) -> (r: Result<Vec<FileWrite>, TangleError>)
    ensures
        match r {
            Ok(writes) => tangle_of(events_view(events@)) == Ok::<Seq<WriteView>, TangleError>(
                writes_view(writes@),
            ),
            Err(e) => tangle_of(events_view(events@)) == Err::<Seq<WriteView>, TangleError>(e),
        },
{
    match get_code_blocks(events) {
        Ok(blocks) => Ok(file_writes(&blocks)),
        Err(e) => Err(e),
    }
}

/// The code blocks of a Markdown document.
pub fn tangle_plan(input: &str) -> (r: Result<Vec<CodeBlock>, TangleError>)
    ensures
        match r {
            Ok(blocks) => plan_of(markdown_events(input@)) == Ok::<Seq<BlockView>, TangleError>(
                blocks_view(blocks@),
            ),
            Err(e) => plan_of(markdown_events(input@)) == Err::<Seq<BlockView>, TangleError>(e),
        },
{
    let events = block_events(input);
    get_code_blocks(&events)
}

/// The writes that a Markdown document asks for.
pub fn tangle(input: &str) -> (r: Result<Vec<FileWrite>, TangleError>)
    ensures
        match r {
            Ok(writes) => tangle_of(markdown_events(input@)) == Ok::<
                Seq<WriteView>,
                TangleError,
            >(writes_view(writes@)),
            Err(e) => tangle_of(markdown_events(input@)) == Err::<Seq<WriteView>, TangleError>(
                e,
            ),
        },
{
    let events = block_events(input);
    tangle_events(&events)
}

} // verus!
