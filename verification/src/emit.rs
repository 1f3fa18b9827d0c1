//! From code blocks to the files that they ask for.

use vstd::prelude::*;
use vstd::utf8::encode_utf8;
use crate::assemble::{blocks_view, BlockView, CodeBlock};

verus! {

/// One file to write: where, and what.
pub struct FileWrite {
    path: String,
    content: String,
}

/// What a `FileWrite` says.
pub struct WriteView {
    pub path: Seq<char>,
    pub content: Seq<char>,
}

impl View for FileWrite {
    type V = WriteView;

    closed spec fn view(&self) -> WriteView {
        WriteView { path: self.path@, content: self.content@ }
    }
}

/// What a list of writes says, write by write.
pub open spec fn writes_view(writes: Seq<FileWrite>) -> Seq<WriteView> {
    Seq::new(writes.len(), |i: int| writes[i]@)
}

impl FileWrite {
    /// The path of the file, as the document gives it.
    pub fn path(&self) -> (r: &String)
        ensures
            r@ == self@.path,
    {
        &self.path
    }

    /// The text that the file is to hold.
    pub fn content(&self) -> (r: &String)
        ensures
            r@ == self@.content,
    {
        &self.content
    }

    /// The bytes that the file is to hold: the text in UTF-8, with nothing
    /// added.
    pub fn bytes(&self) -> (r: &[u8])
        ensures
            r@ == encode_utf8(self@.content),
    {
        self.content.as_str().as_bytes()
    }
}

/// The name of the attribute that sends a block to a file.
pub open spec fn file_key() -> Seq<char> {
    "file"@
}

/// The write that a block asks for: a block with a header that has the
/// attribute `file` goes, body and all, to the path which that attribute
/// gives. Any other block asks for none.
pub open spec fn target_of(block: BlockView) -> Option<WriteView> {
    match block.info {
        Some(info) => if info.attributes.contains_key(file_key()) {
            Some(WriteView { path: info.attributes[file_key()], content: block.content })
        } else {
            None
        },
        None => None,
    }
}

/// The writes that a list of blocks asks for, in the order of the blocks.
pub open spec fn writes_of(blocks: Seq<BlockView>) -> Seq<WriteView>
    decreases blocks.len(),
{
    if blocks.len() == 0 {
        Seq::empty()
    } else {
        let before = writes_of(blocks.drop_last());
        match target_of(blocks.last()) {
            Some(write) => before.push(write),
            None => before,
        }
    }
}

/// The writes that the blocks ask for, in the order of the blocks.
pub fn file_writes(blocks: &Vec<CodeBlock>) -> (writes: Vec<FileWrite>)
    ensures
        writes_view(writes@) == writes_of(blocks_view(blocks@)),
{
    let ghost all = blocks_view(blocks@);
    let mut writes: Vec<FileWrite> = Vec::new();
    let mut i: usize = 0;
    assert(all.take(0) =~= Seq::empty());
    assert(writes_view(writes@) =~= Seq::empty());
    while i < blocks.len()
        invariant
            i <= blocks.len(),
            all == blocks_view(blocks@),
            writes_view(writes@) == writes_of(all.take(i as int)),
        decreases blocks.len() - i,
    {
        let block = &blocks[i];
        let ghost before = writes@;
        proof {
            assert(all.take(i + 1).drop_last() =~= all.take(i as int));
            assert(all.take(i + 1).last() == block@);
        }
        if let Some(info) = block.info() {
            if let Some(path) = info.get("file") {
                let write = FileWrite { path: path.clone(), content: block.code().clone() };
                writes.push(write);
                proof {
                    assert(writes_view(writes@) =~= writes_view(before).push(write@));
                }
            }
        }
        i = i + 1;
    }
    proof {
        assert(all.take(blocks.len() as int) =~= all);
    }
    writes
}

/// Where the carrying out of a document's writes stands: the writes, how
/// many of them have been tried, and how many of those failed.
pub struct EmitterView {
    pub writes: Seq<WriteView>,
    pub tried: nat,
    pub failed: nat,
}

/// Where the carrying out stands after the write that was due has been tried.
/// Whether it was written or not, the next write is due: a failure is counted
/// and stops nothing. With no write due, nothing changes.
pub open spec fn recorded(state: EmitterView, written: bool) -> EmitterView {
    if state.tried < state.writes.len() {
        EmitterView {
            writes: state.writes,
            tried: state.tried + 1,
            failed: if written {
                state.failed
            } else {
                state.failed + 1
            },
        }
    } else {
        state
    }
}

/// Leads through the writes of one document, one at a time and in order. The
/// caller tries the write that is due and reports how it went.
pub struct Emitter {
    writes: Vec<FileWrite>,
    tried: usize,
    failed: usize,
}

impl View for Emitter {
    type V = EmitterView;

    closed spec fn view(&self) -> EmitterView {
        EmitterView {
            writes: writes_view(self.writes@),
            tried: self.tried as nat,
            failed: self.failed as nat,
        }
    }
}

impl Emitter {
    #[verifier::type_invariant]
    spec fn well_formed(self) -> bool {
        self.failed <= self.tried <= self.writes.len()
    }

    /// An emitter that has all of `writes` before it.
    pub fn new(writes: Vec<FileWrite>) -> (emitter: Emitter)
        ensures
            emitter@ == (EmitterView { writes: writes_view(writes@), tried: 0, failed: 0 }),
    {
        Emitter { writes, tried: 0, failed: 0 }
    }

    /// The write that is due, if any is left.
    pub fn pending(&self) -> (r: Option<&FileWrite>)
        ensures
            self@.tried <= self@.writes.len(),
            match r {
                Some(write) => self@.tried < self@.writes.len() && write@
                    == self@.writes[self@.tried as int],
                None => self@.tried == self@.writes.len(),
            },
    {
        proof {
            use_type_invariant(self);
        }
        if self.tried < self.writes.len() {
            Some(&self.writes[self.tried])
        } else {
            None
        }
    }

    /// Takes note of how the write that was due went.
    pub fn record(&mut self, written: bool)
        ensures
            final(self)@ == recorded(old(self)@, written),
    {
        proof {
            use_type_invariant(&*self);
        }
        if self.tried < self.writes.len() {
            self.tried = self.tried + 1;
            if !written {
                self.failed = self.failed + 1;
            }
        }
    }

    /// How many writes have failed.
    pub fn failures(&self) -> (n: usize)
        ensures
            n == self@.failed,
            self@.failed <= self@.tried <= self@.writes.len(),
    {
        proof {
            use_type_invariant(self);
        }
        self.failed
    }

    /// Whether every write has been tried and none has failed.
    pub fn succeeded(&self) -> (r: bool)
        ensures
            r == (self@.tried == self@.writes.len() && self@.failed == 0),
    {
        self.tried == self.writes.len() && self.failed == 0
    }
}

} // verus!
