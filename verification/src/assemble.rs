//! Gathering the code blocks of a document from its events.

use vstd::prelude::*;
use crate::info::{info_of_kind, BlockKind, CodeBlockInfo, InfoView, KindView};

verus! {

/// One event of a Markdown document, as far as code blocks are concerned.
pub enum BlockEvent {
    /// A code block opens.
    Start(BlockKind),
    /// A code block closes.
    End,
    /// Literal text.
    Text(String),
    /// Anything else.
    Other,
}

/// What a `BlockEvent` says.
pub enum EventView {
    Start(KindView),
    End,
    Text(Seq<char>),
    Other,
}

impl View for BlockEvent {
    type V = EventView;

    open spec fn view(&self) -> EventView {
        match self {
            BlockEvent::Start(kind) => EventView::Start(kind@),
            BlockEvent::End => EventView::End,
            BlockEvent::Text(text) => EventView::Text(text@),
            BlockEvent::Other => EventView::Other,
        }
    }
}

/// What a run of events says, event by event.
pub open spec fn events_view(events: Seq<BlockEvent>) -> Seq<EventView> {
    Seq::new(events.len(), |i: int| events[i]@)
}

/// What a code block is: what its header says, if it has one, and its body.
pub struct BlockView {
    pub info: Option<InfoView>,
    pub content: Seq<char>,
}

/// One code block of a document.
pub struct CodeBlock {
    info: Option<CodeBlockInfo>,
    code: String,
}

impl View for CodeBlock {
    type V = BlockView;

    closed spec fn view(&self) -> BlockView {
        BlockView {
            info: match self.info {
                Some(info) => Some(info@),
                None => None,
            },
            content: self.code@,
        }
    }
}

/// What a list of code blocks is, block by block.
pub open spec fn blocks_view(blocks: Seq<CodeBlock>) -> Seq<BlockView> {
    Seq::new(blocks.len(), |i: int| blocks[i]@)
}

impl CodeBlock {
    /// The block with the given header and body.
    pub fn new(info: Option<CodeBlockInfo>, code: String) -> (block: CodeBlock)
        ensures
            block@.content == code@,
            match info {
                Some(i) => block@.info == Some(i@),
                None => block@.info is None,
            },
    {
        CodeBlock { info, code }
    }

    /// What the block's header says. An indented block has no header.
    pub fn info(&self) -> (r: Option<&CodeBlockInfo>)
        ensures
            match r {
                Some(i) => self@.info == Some(i@),
                None => self@.info is None,
            },
    {
        self.info.as_ref()
    }

    /// The block's body.
    pub fn code(&self) -> (r: &String)
        ensures
            r@ == self@.content,
    {
        &self.code
    }
}

/// Why a document has no plan.
#[derive(Debug, Clone, Copy, PartialEq, Eq, Structural)]
pub enum TangleError {
    /// The events end inside a code block.
    UnclosedCodeBlock,
}

impl TangleError {
    /// The error in words.
    pub fn message(&self) -> (text: String)
        ensures
            text@ == "unclosed code block"@,
    {
        "unclosed code block".to_owned()
    }
}

/// The text that an event carries: that of a text event, and nothing for any
/// other.
pub open spec fn payload(event: EventView) -> Seq<char> {
    match event {
        EventView::Text(text) => text,
        _ => Seq::empty(),
    }
}

/// The texts of the text events among `events`, joined in order.
pub open spec fn text_of(events: Seq<EventView>) -> Seq<char>
    decreases events.len(),
{
    if events.len() == 0 {
        Seq::empty()
    } else {
        payload(events[0]) + text_of(events.drop_first())
    }
}

/// The position of the first closing event in `events`, or `events.len()`
/// where there is none.
pub open spec fn first_end(events: Seq<EventView>) -> int
    decreases events.len(),
{
    if events.len() == 0 || events[0] is End {
        0
    } else {
        1 + first_end(events.drop_first())
    }
}

/// `blocks` before the blocks of `rest`, where `rest` has blocks.
pub open spec fn blocks_then(
    blocks: Seq<BlockView>,
    rest: Result<Seq<BlockView>, TangleError>,
) -> Result<Seq<BlockView>, TangleError> {
    match rest {
        Ok(more) => Ok(blocks + more),
        Err(e) => Err(e),
    }
}

/// The code blocks of a document, in the order in which they open.
///
/// Outside a block, every event but an opening one is passed over. A block
/// runs from its opening event to the first closing event after it. Its header
/// is that of the opening event, and its body is the text of the text events
/// in between. A document that ends inside a block has no plan.
pub open spec fn plan_of(events: Seq<EventView>) -> Result<Seq<BlockView>, TangleError>
    decreases events.len(),
{
    if events.len() == 0 {
        Ok(Seq::empty())
    } else {
        let rest = events.drop_first();
        match events[0] {
            EventView::Start(kind) => {
                let close = first_end(rest);
                if 0 <= close < rest.len() {
                    blocks_then(
                        seq![
                            BlockView {
                                info: info_of_kind(kind),
                                content: text_of(rest.take(close)),
                            },
                        ],
                        plan_of(rest.skip(close + 1)),
                    )
                } else {
                    Err(TangleError::UnclosedCodeBlock)
                }
            },
            _ => plan_of(rest),
        }
    }
}

/// Where an assembler stands: the blocks that have closed, and the block
/// that is open, if one is, with the text gathered for it so far.
pub struct AssemblerView {
    pub done: Seq<BlockView>,
    pub open: Option<BlockView>,
}

/// Where an assembler stands before the first event.
pub open spec fn start_state() -> AssemblerView {
    AssemblerView { done: Seq::empty(), open: None }
}

/// Where an assembler stands after one more event.
///
/// Outside a block only an opening event counts: it opens a block with an
/// empty body. Inside a block a text event adds its text to the body, a
/// closing event closes the block, and every other event is passed over.
pub open spec fn step(state: AssemblerView, event: EventView) -> AssemblerView {
    match state.open {
        None => match event {
            EventView::Start(kind) => AssemblerView {
                done: state.done,
                open: Some(BlockView { info: info_of_kind(kind), content: Seq::empty() }),
            },
            _ => state,
        },
        Some(block) => match event {
            EventView::Text(text) => AssemblerView {
                done: state.done,
                open: Some(BlockView { info: block.info, content: block.content + text }),
            },
            EventView::End => AssemblerView { done: state.done.push(block), open: None },
            _ => state,
        },
    }
}

/// Where an assembler stands after a run of events.
pub open spec fn run(state: AssemblerView, events: Seq<EventView>) -> AssemblerView
    decreases events.len(),
{
    if events.len() == 0 {
        state
    } else {
        run(step(state, events[0]), events.drop_first())
    }
}

/// What an assembler has to show when the events end: its blocks, unless one
/// is still open.
pub open spec fn outcome(state: AssemblerView) -> Result<Seq<BlockView>, TangleError> {
    match state.open {
        None => Ok(state.done),
        Some(_) => Err(TangleError::UnclosedCodeBlock),
    }
}

/// What `outcome(run(state, events))` is, said without stepping: the blocks
/// closed so far, then the open block, if there is one, closed at the first
/// closing event with the text up to there added, then the plan of what
/// follows.
pub open spec fn outcome_from(state: AssemblerView, events: Seq<EventView>) -> Result<
    Seq<BlockView>,
    TangleError,
> {
    match state.open {
        None => blocks_then(state.done, plan_of(events)),
        Some(block) => {
            let close = first_end(events);
            if 0 <= close < events.len() {
                blocks_then(
                    state.done.push(
                        BlockView {
                            info: block.info,
                            content: block.content + text_of(events.take(close)),
                        },
                    ),
                    plan_of(events.skip(close + 1)),
                )
            } else {
                Err(TangleError::UnclosedCodeBlock)
            }
        },
    }
}

/// `first_end` lies within `0..=events.len()`.
pub proof fn lemma_first_end_bounds(events: Seq<EventView>)
    ensures
        0 <= first_end(events) <= events.len(),
        forall|j: int| 0 <= j < first_end(events) ==> !(events[j] is End),
        first_end(events) < events.len() ==> events[first_end(events)] is End,
    decreases events.len(),
{
    if events.len() == 0 || events[0] is End {
    } else {
        let rest = events.drop_first();
        lemma_first_end_bounds(rest);
        assert forall|j: int| 0 <= j < first_end(events) implies !(events[j] is End) by {
            if j > 0 {
                assert(events[j] == rest[j - 1]);
            }
        }
        if first_end(events) < events.len() {
            assert(events[first_end(events)] == rest[first_end(rest)]);
        }
    }
}

/// Stepping through the events one by one gives what `outcome_from` says.
pub proof fn lemma_run_outcome(state: AssemblerView, events: Seq<EventView>)
    ensures
        outcome(run(state, events)) == outcome_from(state, events),
    decreases events.len(),
{
    if events.len() == 0 {
        match state.open {
            None => {
                assert(state.done + Seq::<BlockView>::empty() =~= state.done);
            },
            Some(_) => {},
        }
    } else {
        let rest = events.drop_first();
        let next = step(state, events[0]);
        lemma_run_outcome(next, rest);
        lemma_first_end_bounds(rest);
        match state.open {
            None => match events[0] {
                EventView::Start(kind) => {
                    let close = first_end(rest);
                    if close < rest.len() {
                        let block = BlockView {
                            info: info_of_kind(kind),
                            content: text_of(rest.take(close)),
                        };
                        assert(Seq::<char>::empty() + text_of(rest.take(close)) =~= text_of(
                            rest.take(close),
                        ));
                        let tail = plan_of(rest.skip(close + 1));
                        match tail {
                            Ok(more) => {
                                assert(state.done.push(block) + more =~= state.done + (seq![block]
                                    + more));
                            },
                            Err(_) => {},
                        }
                    }
                },
                _ => {},
            },
            Some(block) => match events[0] {
                EventView::End => {
                    assert(events.take(0) =~= Seq::<EventView>::empty());
                    assert(block.content + text_of(events.take(0)) =~= block.content);
                    assert(events.skip(1) =~= rest);
                },
                _ => {
                    let close = first_end(events);
                    assert(close == 1 + first_end(rest));
                    if close < events.len() {
                        assert(events.take(close).drop_first() =~= rest.take(close - 1));
                        assert(events.skip(close + 1) =~= rest.skip(close));
                        assert(events.take(close)[0] == events[0]);
                        assert(block.content + (payload(events[0]) + text_of(
                            rest.take(close - 1),
                        )) =~= (block.content + payload(events[0])) + text_of(
                            rest.take(close - 1),
                        ));
                        assert(block.content + Seq::<char>::empty() =~= block.content);
                    }
                },
            },
        }
    }
}

/// Stepping through a whole document from the start gives its plan.
pub proof fn lemma_run_is_plan(events: Seq<EventView>)
    ensures
        outcome(run(start_state(), events)) == plan_of(events),
{
    lemma_run_outcome(start_state(), events);
    match plan_of(events) {
        Ok(blocks) => {
            assert(Seq::<BlockView>::empty() + blocks =~= blocks);
        },
        Err(_) => {},
    }
}

/// What an optional header says.
pub open spec fn info_view(info: Option<CodeBlockInfo>) -> Option<InfoView> {
    match info {
        Some(i) => Some(i@),
        None => None,
    }
}

/// Gathers the code blocks of a document from its events, one event at a
/// time. It keeps the closed blocks and the text of the open one, and nothing
/// else of the document.
pub struct Assembler {
    blocks: Vec<CodeBlock>,
    inside: bool,
    info: Option<CodeBlockInfo>,
    code: String,
}

impl View for Assembler {
    type V = AssemblerView;

    closed spec fn view(&self) -> AssemblerView {
        AssemblerView {
            done: blocks_view(self.blocks@),
            open: if self.inside {
                Some(BlockView { info: info_view(self.info), content: self.code@ })
            } else {
                None
            },
        }
    }
}

impl Assembler {
    /// An assembler that has seen no event.
    pub fn new() -> (assembler: Assembler)
        ensures
            assembler@ == start_state(),
    {
        let assembler = Assembler {
            blocks: Vec::new(),
            inside: false,
            info: None,
            code: String::new(),
        };
        assert(assembler@.done =~= Seq::empty());
        assembler
    }

    /// Takes the next event of the document.
    pub fn feed(&mut self, event: &BlockEvent)
        ensures
            final(self)@ == step(old(self)@, event@),
    {
        if !self.inside {
            match event {
                BlockEvent::Start(kind) => {
                    self.info = match CodeBlockInfo::try_from(kind) {
                        Ok(info) => Some(info),
                        Err(_) => None,
                    };
                    self.code = String::new();
                    self.inside = true;
                },
                _ => {},
            }
        } else {
            match event {
                BlockEvent::Text(text) => {
                    self.code.append(text.as_str());
                },
                BlockEvent::End => {
                    let ghost before = self.blocks@;
                    let mut code = String::new();
                    core::mem::swap(&mut code, &mut self.code);
                    let block = CodeBlock::new(self.info.take(), code);
                    self.blocks.push(block);
                    self.inside = false;
                    assert(blocks_view(self.blocks@) =~= blocks_view(before).push(block@));
                },
                _ => {},
            }
        }
    }

    /// The blocks gathered, once the document has ended. A block that is still
    /// open is an error, and the blocks gathered before it are dropped.
    pub fn finish(self) -> (r: Result<Vec<CodeBlock>, TangleError>)
        ensures
            match r {
                Ok(blocks) => outcome(self@) == Ok::<Seq<BlockView>, TangleError>(
                    blocks_view(blocks@),
                ),
                Err(e) => outcome(self@) == Err::<Seq<BlockView>, TangleError>(e),
            },
    {
        if self.inside {
            Err(TangleError::UnclosedCodeBlock)
        } else {
            Ok(self.blocks)
        }
    }
}

/// The code blocks of a document, from its events.
pub fn get_code_blocks(events: &Vec<BlockEvent>) -> (r: Result<Vec<CodeBlock>, TangleError>)
    ensures
        match r {
            Ok(blocks) => plan_of(events_view(events@)) == Ok::<Seq<BlockView>, TangleError>(
                blocks_view(blocks@),
            ),
            Err(e) => plan_of(events_view(events@)) == Err::<Seq<BlockView>, TangleError>(e),
        },
{
    let ghost all = events_view(events@);
    let mut assembler = Assembler::new();
    let mut i: usize = 0;
    assert(all.skip(0) =~= all);
    while i < events.len()
        invariant
            i <= events.len(),
            all == events_view(events@),
            run(assembler@, all.skip(i as int)) == run(start_state(), all),
        decreases events.len() - i,
    {
        proof {
            assert(all.skip(i as int).drop_first() =~= all.skip(i + 1));
        }
        assembler.feed(&events[i]);
        i = i + 1;
    }
    proof {
        lemma_run_is_plan(all);
    }
    assembler.finish()
}

} // verus!
