//! What a store of files holds once the writes of a document have been
//! carried out.

use vstd::prelude::*;
use crate::assemble::{plan_of, BlockView, EventView};
use crate::assemble_laws::lemma_indented_blocks_have_no_info;
use crate::emit::{target_of, writes_of, WriteView};
use crate::tangle::tangle_of;

verus! {

/// A store of files: the text of each file, by the text of its path. Two
/// paths that differ as texts are two files here.
pub type Store = Map<Seq<char>, Seq<char>>;

/// The store after the writes have been carried out one after the other, each
/// one creating its file or replacing all that it held.
pub open spec fn store_after(store: Store, writes: Seq<WriteView>) -> Store
    decreases writes.len(),
{
    if writes.len() == 0 {
        store
    } else {
        store_after(store, writes.drop_last()).insert(writes.last().path, writes.last().content)
    }
}

/// No two writes go to the same path.
pub open spec fn paths_distinct(writes: Seq<WriteView>) -> bool {
    forall|i: int, j: int| 0 <= i < j < writes.len() ==> writes[i].path != writes[j].path
}

/// A file that no write goes to is as it was, or is still missing.
pub proof fn lemma_other_files_untouched(store: Store, writes: Seq<WriteView>, path: Seq<char>)
    requires
        forall|i: int| 0 <= i < writes.len() ==> (#[trigger] writes[i]).path != path,
    ensures
        store_after(store, writes).contains_key(path) == store.contains_key(path),
        store.contains_key(path) ==> store_after(store, writes)[path] == store[path],
    decreases writes.len(),
{
    if writes.len() > 0 {
        let front = writes.drop_last();
        assert forall|i: int| 0 <= i < front.len() implies (#[trigger] front[i]).path != path by {
            assert(front[i] == writes[i]);
        }
        assert(writes[writes.len() - 1].path != path);
        lemma_other_files_untouched(store, front, path);
    }
}

/// The last write to a path decides what its file holds.
pub proof fn lemma_last_write_wins(store: Store, writes: Seq<WriteView>, i: int)
    requires
        0 <= i < writes.len(),
        forall|j: int| i < j < writes.len() ==> (#[trigger] writes[j]).path != writes[i].path,
    ensures
        store_after(store, writes).contains_key(writes[i].path),
        store_after(store, writes)[writes[i].path] == writes[i].content,
    decreases writes.len(),
{
    if i < writes.len() - 1 {
        let front = writes.drop_last();
        assert forall|j: int| i < j < front.len() implies (#[trigger] front[j]).path
            != front[i].path by {
            assert(front[j] == writes[j]);
        }
        assert(writes[writes.len() - 1].path != writes[i].path);
        lemma_last_write_wins(store, front, i);
    }
}

/// Where no two writes go to the same path, each file written holds exactly
/// what its write gave.
pub proof fn lemma_distinct_paths_all_written(store: Store, writes: Seq<WriteView>)
    requires
        paths_distinct(writes),
    ensures
        forall|i: int|
            0 <= i < writes.len() ==> store_after(store, writes).contains_key(
                (#[trigger] writes[i]).path,
            ) && store_after(store, writes)[writes[i].path] == writes[i].content,
{
    assert forall|i: int| 0 <= i < writes.len() implies store_after(store, writes).contains_key(
        (#[trigger] writes[i]).path,
    ) && store_after(store, writes)[writes[i].path] == writes[i].content by {
        lemma_last_write_wins(store, writes, i);
    }
}

/// The position of the last write to `path`, where there is one.
proof fn lemma_last_write_to(writes: Seq<WriteView>, path: Seq<char>) -> (i: int)
    requires
        exists|j: int| 0 <= j < writes.len() && (#[trigger] writes[j]).path == path,
    ensures
        0 <= i < writes.len(),
        writes[i].path == path,
        forall|j: int| i < j < writes.len() ==> (#[trigger] writes[j]).path != path,
    decreases writes.len(),
{
    let last = writes.len() - 1;
    if writes[last].path == path {
        last
    } else {
        let front = writes.drop_last();
        let j = choose|j: int| 0 <= j < writes.len() && (#[trigger] writes[j]).path == path;
        assert(front[j].path == path);
        let i = lemma_last_write_to(front, path);
        assert forall|j: int| i < j < writes.len() implies (#[trigger] writes[j]).path != path by {
            if j < last {
                assert(front[j] == writes[j]);
            }
        }
        i
    }
}

/// Carrying out the same writes a second time leaves every file as the first
/// time left it.
pub proof fn lemma_second_run_changes_nothing(store: Store, writes: Seq<WriteView>)
    ensures
        store_after(store_after(store, writes), writes) == store_after(store, writes),
{
    let once = store_after(store, writes);
    let twice = store_after(once, writes);
    assert forall|path: Seq<char>|
        #![trigger twice.contains_key(path)]
        #![trigger once.contains_key(path)]
        twice.contains_key(path) == once.contains_key(path) && (once.contains_key(path)
            ==> twice[path] == once[path]) by {
        if exists|j: int| 0 <= j < writes.len() && (#[trigger] writes[j]).path == path {
            let i = lemma_last_write_to(writes, path);
            lemma_last_write_wins(store, writes, i);
            lemma_last_write_wins(once, writes, i);
        } else {
            lemma_other_files_untouched(once, writes, path);
        }
    }
    assert(twice =~= once);
}

/// Blocks without a header ask for no write, and so leave every store as it
/// is.
pub proof fn lemma_no_info_no_writes(store: Store, blocks: Seq<BlockView>)
    requires
        forall|k: int| 0 <= k < blocks.len() ==> (#[trigger] blocks[k]).info is None,
    ensures
        writes_of(blocks) == Seq::<WriteView>::empty(),
        store_after(store, writes_of(blocks)) == store,
    decreases blocks.len(),
{
    if blocks.len() > 0 {
        let front = blocks.drop_last();
        assert forall|k: int| 0 <= k < front.len() implies (#[trigger] front[k]).info is None by {
            assert(front[k] == blocks[k]);
        }
        assert(blocks[blocks.len() - 1].info is None);
        lemma_no_info_no_writes(store, front);
    }
}

/// Of the blocks that go to one path, the last in the document decides what
/// the file holds once the writes of all blocks have been carried out: that
/// block's body.
pub proof fn lemma_last_block_wins(store: Store, blocks: Seq<BlockView>, k: int)
    requires
        0 <= k < blocks.len(),
        target_of(blocks[k]) is Some,
        forall|j: int|
            k < j < blocks.len() && target_of(#[trigger] blocks[j]) is Some ==> target_of(
                blocks[j],
            )->Some_0.path != target_of(blocks[k])->Some_0.path,
    ensures
        store_after(store, writes_of(blocks)).contains_key(target_of(blocks[k])->Some_0.path),
        store_after(store, writes_of(blocks))[target_of(blocks[k])->Some_0.path]
            == blocks[k].content,
    decreases blocks.len(),
{
    let last = blocks.len() - 1;
    let front = blocks.drop_last();
    if k < last {
        assert forall|j: int|
            k < j < front.len() && target_of(#[trigger] front[j]) is Some implies target_of(
            front[j],
        )->Some_0.path != target_of(front[k])->Some_0.path by {
            assert(front[j] == blocks[j]);
        }
        lemma_last_block_wins(store, front, k);
        match target_of(blocks[last]) {
            Some(write) => {
                assert(writes_of(blocks).drop_last() =~= writes_of(front));
            },
            None => {},
        }
    } else {
        assert(writes_of(blocks).drop_last() =~= writes_of(front));
    }
}

/// Where the blocks that go to files go to different paths, each of those
/// files exists once the writes have been carried out, and holds exactly the
/// body of its block.
pub proof fn lemma_distinct_targets_all_written(store: Store, blocks: Seq<BlockView>)
    requires
        forall|i: int, j: int|
            0 <= i < j < blocks.len() && target_of(#[trigger] blocks[i]) is Some && target_of(
                #[trigger] blocks[j],
            ) is Some ==> target_of(blocks[i])->Some_0.path != target_of(
                blocks[j],
            )->Some_0.path,
    ensures
        forall|k: int|
            0 <= k < blocks.len() && target_of(#[trigger] blocks[k]) is Some ==> {
                let path = target_of(blocks[k])->Some_0.path;
                store_after(store, writes_of(blocks)).contains_key(path) && store_after(
                    store,
                    writes_of(blocks),
                )[path] == blocks[k].content
            },
{
    assert forall|k: int| 0 <= k < blocks.len() && target_of(#[trigger] blocks[k]) is Some implies {
        let path = target_of(blocks[k])->Some_0.path;
        store_after(store, writes_of(blocks)).contains_key(path) && store_after(
            store,
            writes_of(blocks),
        )[path] == blocks[k].content
    } by {
        lemma_last_block_wins(store, blocks, k);
    }
}

/// A document whose code blocks are all indented changes no file.
pub proof fn lemma_indented_only_writes_nothing(store: Store, events: Seq<EventView>)
    requires
        forall|i: int|
            0 <= i < events.len() && (#[trigger] events[i]) is Start
                ==> events[i]->Start_0 is Indented,
    ensures
        tangle_of(events) is Ok ==> tangle_of(events)->Ok_0 == Seq::<WriteView>::empty()
            && store_after(store, tangle_of(events)->Ok_0) == store,
{
    if plan_of(events) is Ok {
        lemma_indented_blocks_have_no_info(events);
        lemma_no_info_no_writes(store, plan_of(events)->Ok_0);
    }
}

} // verus!
