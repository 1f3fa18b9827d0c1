//! Listing the events of a document, set in as its elements nest.

use vstd::prelude::*;
use crate::event::{MdEvent, MdEventView, MdTag, MdTagView};
use crate::render::repeated;
use crate::text::string_of;

verus! {

/// An event together with the text that stands for it in a listing.
pub struct Shown {
    event: MdEvent,
    text: String,
}

/// What a `Shown` says.
pub struct ShownView {
    pub event: MdEventView,
    pub text: Seq<char>,
}

impl View for Shown {
    type V = ShownView;

    closed spec fn view(&self) -> ShownView {
        ShownView { event: self.event@, text: self.text@ }
    }
}

impl Shown {
    /// `event`, to be listed as `text`.
    pub fn new(event: MdEvent, text: String) -> (shown: Shown)
        ensures
            shown@ == (ShownView { event: event@, text: text@ }),
    {
        Shown { event, text }
    }
}

/// What a list of events with their texts says, one by one.
pub open spec fn shown_view(items: Seq<Shown>) -> Seq<ShownView> {
    Seq::new(items.len(), |i: int| items[i]@)
}

/// What a list of lines says, line by line.
pub open spec fn lines_view(lines: Seq<String>) -> Seq<Seq<char>> {
    Seq::new(lines.len(), |i: int| lines[i]@)
}

/// The elements whose content a listing sets in by one more tab: lists,
/// tables and block quotes.
pub open spec fn nests(tag: MdTagView) -> bool {
    tag is List || tag is Table || tag is BlockQuote
}

/// How deep a listing is set in after an event, where it was `depth` deep
/// before it.
pub open spec fn depth_after(depth: nat, event: MdEventView) -> nat {
    match event {
        MdEventView::Start(tag) => if nests(tag) {
            depth + 1
        } else {
            depth
        },
        MdEventView::End(tag) => if nests(tag) && depth > 0 {
            (depth - 1) as nat
        } else {
            depth
        },
        _ => depth,
    }
}

/// Whether an event gets a line: the opening and the closing of an element
/// only where such lines are asked for, every other event always.
pub open spec fn listed(event: MdEventView, show_start_end_tags: bool) -> bool {
    show_start_end_tags || !(event is Start || event is End)
}

/// The lines of a listing that starts `depth` deep: for each event that gets
/// a line, its text behind as many tabs as the listing is deep when the event
/// comes. The closing of a nesting element is therefore set in like its
/// content.
pub open spec fn outline_from(depth: nat, items: Seq<ShownView>, show_start_end_tags: bool) -> Seq<
    Seq<char>,
>
    decreases items.len(),
{
    if items.len() == 0 {
        Seq::empty()
    } else {
        let rest = outline_from(
            depth_after(depth, items[0].event),
            items.drop_first(),
            show_start_end_tags,
        );
        if listed(items[0].event, show_start_end_tags) {
            seq![repeated('\t', depth) + items[0].text] + rest
        } else {
            rest
        }
    }
}

/// Whether the tag is one whose content a listing sets in.
fn tag_nests(tag: &MdTag) -> (r: bool)
    ensures
        r == nests(tag@),
{
    match tag {
        MdTag::List(_) => true,
        MdTag::Table => true,
        MdTag::BlockQuote => true,
        _ => false,
    }
}

/// The lines of a listing of the events, each with its text, set in by tabs
/// as lists, tables and block quotes nest.
pub fn indented_lines(items: &Vec<Shown>, show_start_end_tags: bool) -> (lines: Vec<String>)
    ensures
        lines_view(lines@) == outline_from(0, shown_view(items@), show_start_end_tags),
{
    let ghost all = shown_view(items@);
    let mut lines: Vec<String> = Vec::new();
    let mut tabs: Vec<char> = Vec::new();
    let mut i: usize = 0;
    assert(all.skip(0) =~= all);
    assert(lines_view(lines@) + outline_from(0, all, show_start_end_tags) =~= outline_from(
        0,
        all,
        show_start_end_tags,
    ));
    while i < items.len()
        invariant
            i <= items.len(),
            all == shown_view(items@),
            tabs@ == repeated('\t', tabs.len() as nat),
            outline_from(0, all, show_start_end_tags) == lines_view(lines@) + outline_from(
                tabs.len() as nat,
                all.skip(i as int),
                show_start_end_tags,
            ),
        decreases items.len() - i,
    {
        let item = &items[i];
        let ghost before = lines@;
        let ghost depth = tabs.len() as nat;
        proof {
            assert(all.skip(i as int).drop_first() =~= all.skip(i + 1));
            assert(all.skip(i as int)[0] == item@);
        }
        let is_tag = match &item.event {
            MdEvent::Start(_) => true,
            MdEvent::End(_) => true,
            _ => false,
        };
        if show_start_end_tags || !is_tag {
            let mut line = string_of(&tabs, 0, tabs.len());
            assert(line@ =~= repeated('\t', depth));
            line.append(item.text.as_str());
            lines.push(line);
            proof {
                let rest = outline_from(
                    depth_after(depth, item@.event),
                    all.skip(i + 1),
                    show_start_end_tags,
                );
                assert(lines_view(lines@) =~= lines_view(before).push(line@));
                assert(lines_view(before) + (seq![line@] + rest) =~= lines_view(before).push(
                    line@,
                ) + rest);
            }
        }
        match &item.event {
            MdEvent::Start(tag) => {
                if tag_nests(tag) {
                    tabs.push('\t');
                    assert(tabs@ =~= repeated('\t', tabs.len() as nat));
                }
            },
            MdEvent::End(tag) => {
                if tag_nests(tag) {
                    let _ = tabs.pop();
                    assert(tabs@ =~= repeated('\t', tabs.len() as nat));
                }
            },
            _ => {},
        }
        i = i + 1;
    }
    proof {
        assert(lines_view(lines@) + Seq::<Seq<char>>::empty() =~= lines_view(lines@));
    }
    lines
}

} // verus!
