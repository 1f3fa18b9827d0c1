//! Writing the events of a document out as Markdown again.

use vstd::prelude::*;
use crate::decimal::{decimal, push_decimal};
use crate::event::{md_events_view, LinkKind, MdEvent, MdEventView, MdTag, MdTagView};
use crate::info::{BlockKind, KindView};

verus! {

/// Why a run of events cannot be written out.
#[derive(Debug, Clone, Copy, PartialEq, Eq, Structural)]
pub enum RenderError {
    /// A list item opens outside every list.
    ItemOutsideList,
    /// The number of a list item is beyond what 64 bits hold.
    ItemNumberTooLarge,
}

/// Where the writer stands: for each list that is open, outermost first, the
/// number of its next item if it is numbered; and how many tabs stand before
/// an item.
pub struct ReadmeState {
    pub lists: Seq<Option<u64>>,
    pub indent: nat,
}

/// Where the writer stands before the first event.
pub open spec fn readme_start() -> ReadmeState {
    ReadmeState { lists: Seq::empty(), indent: 0 }
}

/// `c`, `n` times.
pub open spec fn repeated(c: char, n: nat) -> Seq<char> {
    Seq::new(n, |i: int| c)
}

/// A link as Markdown, in the form that its kind names.
pub open spec fn link_text(kind: LinkKind, url: Seq<char>, title: Seq<char>) -> Seq<char> {
    match kind {
        LinkKind::Inline => "["@ + title + "]("@ + url + ")"@,
        LinkKind::Reference | LinkKind::ReferenceUnknown => "["@ + title + "]["@ + url + "]"@,
        LinkKind::Collapsed | LinkKind::CollapsedUnknown => "["@ + url + "][]"@,
        LinkKind::Shortcut | LinkKind::ShortcutUnknown => "["@ + url + "]"@,
        LinkKind::Autolink | LinkKind::Email => "<"@ + url + ">"@,
    }
}

/// What the opening of an element writes, and where the writer stands after
/// it.
///
/// A list adds a tab to the margin of its items if it opens inside another
/// list. An item starts a new line with the margin and then its number and a
/// dot, or a dash; a numbered list then counts on.
pub open spec fn readme_open(state: ReadmeState, tag: MdTagView) -> Result<
    (ReadmeState, Seq<char>),
    RenderError,
> {
    match tag {
        MdTagView::Heading(level) => Ok((state, "\n"@ + repeated('#', level as nat) + " "@)),
        MdTagView::BlockQuote => Ok((state, "> "@)),
        MdTagView::CodeBlock(KindView::Indented) => Ok((state, "```\n"@)),
        MdTagView::CodeBlock(KindView::Fenced(header)) => Ok((state, "```"@ + header + "\n"@)),
        MdTagView::List(first) => Ok(
            (
                ReadmeState {
                    lists: state.lists.push(first),
                    indent: if state.lists.len() > 0 {
                        state.indent + 1
                    } else {
                        state.indent
                    },
                },
                Seq::empty(),
            ),
        ),
        MdTagView::Link(kind, url, title) => Ok((state, link_text(kind, url, title))),
        MdTagView::Image(kind, url, title) => Ok((state, "!"@ + link_text(kind, url, title))),
        MdTagView::Emphasis => Ok((state, "*"@)),
        MdTagView::Strong => Ok((state, "**"@)),
        MdTagView::Item => if state.lists.len() == 0 {
            Err(RenderError::ItemOutsideList)
        } else {
            match state.lists.last() {
                Some(number) => if number == u64::MAX {
                    Err(RenderError::ItemNumberTooLarge)
                } else {
                    Ok(
                        (
                            ReadmeState {
                                lists: state.lists.drop_last().push(Some((number + 1) as u64)),
                                indent: state.indent,
                            },
                            "\n"@ + repeated('\t', state.indent) + decimal(number as nat) + ". "@,
                        ),
                    )
                },
                None => Ok((state, "\n"@ + repeated('\t', state.indent) + "- "@)),
            }
        },
        _ => Ok((state, Seq::empty())),
    }
}

/// What the closing of an element writes, and where the writer stands after
/// it. A list that closes inside another list takes its tab off the margin.
pub open spec fn readme_close(state: ReadmeState, tag: MdTagView) -> (ReadmeState, Seq<char>) {
    match tag {
        MdTagView::CodeBlock(_) => (state, "```\n"@),
        MdTagView::List(_) => {
            let lists = if state.lists.len() > 0 {
                state.lists.drop_last()
            } else {
                state.lists
            };
            let indent = if lists.len() > 0 && state.indent > 0 {
                (state.indent - 1) as nat
            } else {
                state.indent
            };
            (ReadmeState { lists, indent }, Seq::empty())
        },
        MdTagView::Emphasis => (state, "*"@),
        MdTagView::Strong => (state, "**"@),
        MdTagView::Heading(_) => (state, "\n"@),
        _ => (state, Seq::empty()),
    }
}

/// What one event writes, and where the writer stands after it.
pub open spec fn readme_step(state: ReadmeState, event: MdEventView) -> Result<
    (ReadmeState, Seq<char>),
    RenderError,
> {
    match event {
        MdEventView::Text(text) => Ok((state, text)),
        MdEventView::Html(html) => Ok((state, html)),
        MdEventView::Code(code) => Ok((state, "`"@ + code + "`\n"@)),
        MdEventView::Rule => Ok((state, "\n---\n"@)),
        MdEventView::TaskListMarker(ticked) => Ok(
            (
                state,
                if ticked {
                    "[X] "@
                } else {
                    "[ ] "@
                },
            ),
        ),
        MdEventView::SoftBreak | MdEventView::HardBreak => Ok((state, "\n"@)),
        MdEventView::FootnoteReference(label) => Ok((state, label)),
        MdEventView::Start(tag) => readme_open(state, tag),
        MdEventView::End(tag) => Ok(readme_close(state, tag)),
    }
}

/// `text` before the text of `rest`, where `rest` has one.
pub open spec fn text_then(text: Seq<char>, rest: Result<Seq<char>, RenderError>) -> Result<
    Seq<char>,
    RenderError,
> {
    match rest {
        Ok(more) => Ok(text + more),
        Err(e) => Err(e),
    }
}

/// What a run of events writes from a given state: what each event writes,
/// one after the other. The first event that cannot be written makes the
/// whole an error.
pub open spec fn readme_from(state: ReadmeState, events: Seq<MdEventView>) -> Result<
    Seq<char>,
    RenderError,
>
    decreases events.len(),
{
    if events.len() == 0 {
        Ok(Seq::empty())
    } else {
        match readme_step(state, events[0]) {
            Ok((next, text)) => text_then(text, readme_from(next, events.drop_first())),
            Err(e) => Err(e),
        }
    }
}

/// A document written out as Markdown again, from its events.
pub open spec fn readme_of(events: Seq<MdEventView>) -> Result<Seq<char>, RenderError> {
    readme_from(readme_start(), events)
}

/// Appends `c` to `out`, `n` times.
fn push_repeated(out: &mut String, c: char, n: usize)
    ensures
        final(out)@ == old(out)@ + repeated(c, n as nat),
{
    let mut i: usize = 0;
    assert(old(out)@ + repeated(c, 0) =~= old(out)@);
    while i < n
        invariant
            i <= n,
            out@ == old(out)@ + repeated(c, i as nat),
        decreases n - i,
    {
        out.push(c);
        assert(old(out)@ + repeated(c, (i + 1) as nat) =~= (old(out)@ + repeated(c, i as nat)).push(
            c,
        ));
        i = i + 1;
    }
}

/// Appends a link in the form that its kind names.
fn push_link(out: &mut String, kind: LinkKind, url: &str, title: &str)
    ensures
        final(out)@ == old(out)@ + link_text(kind, url@, title@),
{
    let ghost before = out@;
    match kind {
        LinkKind::Inline => {
            out.append("[");
            out.append(title);
            out.append("](");
            out.append(url);
            out.append(")");
            assert(out@ =~= before + ("["@ + title@ + "]("@ + url@ + ")"@));
        },
        LinkKind::Reference | LinkKind::ReferenceUnknown => {
            out.append("[");
            out.append(title);
            out.append("][");
            out.append(url);
            out.append("]");
            assert(out@ =~= before + ("["@ + title@ + "]["@ + url@ + "]"@));
        },
        LinkKind::Collapsed | LinkKind::CollapsedUnknown => {
            out.append("[");
            out.append(url);
            out.append("][]");
            assert(out@ =~= before + ("["@ + url@ + "][]"@));
        },
        LinkKind::Shortcut | LinkKind::ShortcutUnknown => {
            out.append("[");
            out.append(url);
            out.append("]");
            assert(out@ =~= before + ("["@ + url@ + "]"@));
        },
        LinkKind::Autolink | LinkKind::Email => {
            out.append("<");
            out.append(url);
            out.append(">");
            assert(out@ =~= before + ("<"@ + url@ + ">"@));
        },
    }
}

/// The state that the writer's variables stand for.
pub open spec fn state_of(lists: Seq<Option<u64>>, indent: usize) -> ReadmeState {
    ReadmeState { lists, indent: indent as nat }
}

/// Writes the opening of an element.
fn write_open(
    out: &mut String,
    lists: &mut Vec<Option<u64>>,
    indent: &mut usize,
    tag: &MdTag,
) -> (r: Result<(), RenderError>)
    requires
        *old(indent) == 0 || *old(indent) < old(lists).len(),
    ensures
        *final(indent) == 0 || *final(indent) < final(lists).len(),
        match readme_open(state_of(old(lists)@, *old(indent)), tag@) {
            Ok((next, text)) => r is Ok && state_of(final(lists)@, *final(indent)) == next
                && final(out)@ == old(out)@ + text,
            Err(e) => r == Err::<(), RenderError>(e),
        },
{
    let ghost before = out@;
    match tag {
        MdTag::Heading(level) => {
            out.append("\n");
            push_repeated(out, '#', *level as usize);
            out.append(" ");
            assert(out@ =~= before + ("\n"@ + repeated('#', *level as nat) + " "@));
        },
        MdTag::BlockQuote => {
            out.append("> ");
        },
        MdTag::CodeBlock(BlockKind::Indented) => {
            out.append("```\n");
        },
        MdTag::CodeBlock(BlockKind::Fenced(header)) => {
            out.append("```");
            out.append(header.as_str());
            out.append("\n");
            assert(out@ =~= before + ("```"@ + header@ + "\n"@));
        },
        MdTag::List(first) => {
            if lists.len() > 0 {
                *indent = *indent + 1;
            }
            lists.push(*first);
            assert(out@ =~= before + Seq::<char>::empty());
        },
        MdTag::Link(kind, url, title) => {
            push_link(out, *kind, url.as_str(), title.as_str());
        },
        MdTag::Image(kind, url, title) => {
            out.append("!");
            push_link(out, *kind, url.as_str(), title.as_str());
            assert(out@ =~= before + ("!"@ + link_text(*kind, url@, title@)));
        },
        MdTag::Emphasis => {
            out.append("*");
        },
        MdTag::Strong => {
            out.append("**");
        },
        MdTag::Item => {
            let n = lists.len();
            if n == 0 {
                return Err(RenderError::ItemOutsideList);
            }
            match lists[n - 1] {
                Some(number) => {
                    if number == u64::MAX {
                        return Err(RenderError::ItemNumberTooLarge);
                    }
                    let ghost open = lists@;
                    lists.set(n - 1, Some(number + 1));
                    assert(lists@ =~= open.drop_last().push(Some((number + 1) as u64)));
                    out.append("\n");
                    push_repeated(out, '\t', *indent);
                    push_decimal(out, number);
                    out.append(". ");
                    assert(out@ =~= before + ("\n"@ + repeated('\t', *indent as nat) + decimal(
                        number as nat,
                    ) + ". "@));
                },
                None => {
                    out.append("\n");
                    push_repeated(out, '\t', *indent);
                    out.append("- ");
                    assert(out@ =~= before + ("\n"@ + repeated('\t', *indent as nat) + "- "@));
                },
            }
        },
        _ => {
            assert(out@ =~= before + Seq::<char>::empty());
        },
    }
    Ok(())
}

/// Writes the closing of an element.
fn write_close(out: &mut String, lists: &mut Vec<Option<u64>>, indent: &mut usize, tag: &MdTag)
    requires
        *old(indent) == 0 || *old(indent) < old(lists).len(),
    ensures
        *final(indent) == 0 || *final(indent) < final(lists).len(),
        state_of(final(lists)@, *final(indent)) == readme_close(
            state_of(old(lists)@, *old(indent)),
            tag@,
        ).0,
        final(out)@ == old(out)@ + readme_close(state_of(old(lists)@, *old(indent)), tag@).1,
{
    let ghost before = out@;
    match tag {
        MdTag::CodeBlock(_) => {
            out.append("```\n");
        },
        MdTag::List(_) => {
            let _ = lists.pop();
            if lists.len() > 0 && *indent > 0 {
                *indent = *indent - 1;
            }
            assert(out@ =~= before + Seq::<char>::empty());
        },
        MdTag::Emphasis => {
            out.append("*");
        },
        MdTag::Strong => {
            out.append("**");
        },
        MdTag::Heading(_) => {
            out.append("\n");
        },
        _ => {
            assert(out@ =~= before + Seq::<char>::empty());
        },
    }
}

/// Writes one event.
fn write_event(
    out: &mut String,
    lists: &mut Vec<Option<u64>>,
    indent: &mut usize,
    event: &MdEvent,
) -> (r: Result<(), RenderError>)
    requires
        *old(indent) == 0 || *old(indent) < old(lists).len(),
    ensures
        *final(indent) == 0 || *final(indent) < final(lists).len(),
        match readme_step(state_of(old(lists)@, *old(indent)), event@) {
            Ok((next, text)) => r is Ok && state_of(final(lists)@, *final(indent)) == next
                && final(out)@ == old(out)@ + text,
            Err(e) => r == Err::<(), RenderError>(e),
        },
{
    let ghost before = out@;
    match event {
        MdEvent::Text(text) => {
            out.append(text.as_str());
        },
        MdEvent::Html(html) => {
            out.append(html.as_str());
        },
        MdEvent::Code(code) => {
            out.append("`");
            out.append(code.as_str());
            out.append("`\n");
            assert(out@ =~= before + ("`"@ + code@ + "`\n"@));
        },
        MdEvent::Rule => {
            out.append("\n---\n");
        },
        MdEvent::TaskListMarker(ticked) => {
            if *ticked {
                out.append("[X] ");
            } else {
                out.append("[ ] ");
            }
        },
        MdEvent::SoftBreak => {
            out.append("\n");
        },
        MdEvent::HardBreak => {
            out.append("\n");
        },
        MdEvent::FootnoteReference(label) => {
            out.append(label.as_str());
        },
        MdEvent::Start(tag) => {
            return write_open(out, lists, indent, tag);
        },
        MdEvent::End(tag) => {
            write_close(out, lists, indent, tag);
        },
    }
    Ok(())
}

/// A document written out as Markdown again, from its events.
pub fn readme_text(events: &Vec<MdEvent>) -> (r: Result<String, RenderError>)
    ensures
        match r {
            Ok(text) => readme_of(md_events_view(events@)) == Ok::<Seq<char>, RenderError>(text@),
            Err(e) => readme_of(md_events_view(events@)) == Err::<Seq<char>, RenderError>(e),
        },
{
    let ghost all = md_events_view(events@);
    let mut out = String::new();
    let mut lists: Vec<Option<u64>> = Vec::new();
    let mut indent: usize = 0;
    let mut i: usize = 0;
    assert(all.skip(0) =~= all);
    assert(state_of(lists@, indent) == readme_start());
    while i < events.len()
        invariant
            i <= events.len(),
            all == md_events_view(events@),
            indent == 0 || indent < lists.len(),
            readme_of(all) == text_then(
                out@,
                readme_from(state_of(lists@, indent), all.skip(i as int)),
            ),
        decreases events.len() - i,
    {
        let ghost before = out@;
        let ghost state = state_of(lists@, indent);
        proof {
            assert(all.skip(i as int).drop_first() =~= all.skip(i + 1));
            assert(all.skip(i as int)[0] == events[i as int]@);
        }
        match write_event(&mut out, &mut lists, &mut indent, &events[i]) {
            Ok(()) => {
                proof {
                    let step = readme_step(state, events[i as int]@)->Ok_0;
                    match readme_from(step.0, all.skip(i + 1)) {
                        Ok(more) => {
                            assert(before + (step.1 + more) =~= (before + step.1) + more);
                        },
                        Err(_) => {},
                    }
                }
            },
            Err(e) => {
                return Err(e);
            },
        }
        i = i + 1;
    }
    proof {
        assert(out@ + Seq::<char>::empty() =~= out@);
    }
    Ok(out)
}

} // verus!
