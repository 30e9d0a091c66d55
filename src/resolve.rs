//! Locates a block, or a whole note, by identifier anywhere in the corpus.
use vstd::prelude::*;
use crate::model::{Block, Note, NoteIndex, note_pos};
use crate::text::same_text;

verus! {

/// The first position at or after `i` of a block with identifier `id` among `bs`
/// themselves (not their descendants).
pub open spec fn first_with_id(id: Seq<char>, bs: Seq<Block>, i: int) -> Option<int>
    decreases bs.len() - i,
{
    if i < 0 || i >= bs.len() {
        None
    } else if bs[i].id@ == id {
        Some(i)
    } else {
        first_with_id(id, bs, i + 1)
    }
}

/// The block with identifier `id`: a block at this level first, otherwise the
/// first found depth-first below each block in turn.
pub open spec fn find_block(id: Seq<char>, bs: Seq<Block>) -> Option<Block>
    decreases bs, 1nat, 0int,
{
    match first_with_id(id, bs, 0) {
        Some(k) => if 0 <= k < bs.len() {
            Some(bs[k])
        } else {
            None
        },
        None => find_nested(id, bs, 0),
    }
}

/// The block with identifier `id` below `bs[i]`, `bs[i + 1]`, ... in turn.
pub open spec fn find_nested(id: Seq<char>, bs: Seq<Block>, i: int) -> Option<Block>
    decreases bs, 0nat, bs.len() - i,
{
    if i < 0 || i >= bs.len() {
        None
    } else {
        match find_block(id, bs[i].children@) {
            Some(b) => Some(b),
            None => find_nested(id, bs, i + 1),
        }
    }
}

/// The first note at or after position `i` whose tree holds a block with identifier `id`.
pub open spec fn owner_from(notes: Seq<Note>, id: Seq<char>, i: int) -> Option<int>
    decreases notes.len() - i,
{
    if i < 0 || i >= notes.len() {
        None
    } else if find_block(id, notes[i].children@) is Some {
        Some(i)
    } else {
        owner_from(notes, id, i + 1)
    }
}

/// The first note whose tree holds a block with identifier `id`.
pub open spec fn owner(notes: Seq<Note>, id: Seq<char>) -> Option<int> {
    owner_from(notes, id, 0)
}

/// The block with identifier `id` in the first note that holds one.
pub open spec fn block_in_notes(notes: Seq<Note>, id: Seq<char>) -> Option<Block> {
    match owner(notes, id) {
        Some(j) => if 0 <= j < notes.len() {
            find_block(id, notes[j].children@)
        } else {
            None
        },
        None => None,
    }
}

/// The content that an identifier names: a note's own children when it is a
/// note's identifier, else the children of the note that holds such a block.
pub open spec fn content_of(notes: Seq<Note>, id: Seq<char>) -> Option<Seq<Block>> {
    match note_pos(notes, id) {
        Some(k) => if 0 <= k < notes.len() {
            Some(notes[k].children@)
        } else {
            None
        },
        None => match owner(notes, id) {
            Some(j) => if 0 <= j < notes.len() {
                Some(notes[j].children@)
            } else {
                None
            },
            None => None,
        },
    }
}

fn first_with_id_exec(block_id: &str, blocks: &Vec<Block>) -> (r: Option<usize>)
    ensures
        match r {
            Some(k) => first_with_id(block_id@, blocks@, 0) == Some(k as int) && k
                < blocks@.len(),
            None => first_with_id(block_id@, blocks@, 0) is None,
        },
{
    let mut i: usize = 0;
    while i < blocks.len()
        invariant
            i <= blocks@.len(),
            first_with_id(block_id@, blocks@, 0) == first_with_id(block_id@, blocks@, i as int),
        decreases blocks@.len() - i,
    {
        if same_text(blocks[i].id.as_str(), block_id) {
            return Some(i);
        }
        i = i + 1;
    }
    None
}

/// The block with identifier `block_id` among `blocks` and their descendants.
pub fn find_block_by_id<'a>(block_id: &str, blocks: &'a Vec<Block>) -> (r: Option<&'a Block>)
    ensures
        match r {
            Some(b) => find_block(block_id@, blocks@) == Some(*b),
            None => find_block(block_id@, blocks@) is None,
        },
    decreases blocks@,
{
    if let Some(k) = first_with_id_exec(block_id, blocks) {
        return Some(&blocks[k]);
    }
    let mut i: usize = 0;
    while i < blocks.len()
        invariant
            i <= blocks@.len(),
            first_with_id(block_id@, blocks@, 0) is None,
            find_block(block_id@, blocks@) == find_nested(block_id@, blocks@, i as int),
        decreases blocks@.len() - i,
    {
        if let Some(found) = find_block_by_id(block_id, &blocks[i].children) {
            return Some(found);
        }
        i = i + 1;
    }
    None
}

/// The position of the first note whose tree holds a block with identifier `id`.
pub fn locate_block(index: &NoteIndex, id: &str) -> (r: Option<usize>)
    ensures
        match r {
            Some(j) => owner(index.view(), id@) == Some(j as int) && j < index.view().len(),
            None => owner(index.view(), id@) is None,
        },
{
    let notes = index.notes();
    let mut i: usize = 0;
    while i < notes.len()
        invariant
            notes@ == index.view(),
            i <= notes@.len(),
            owner(index.view(), id@) == owner_from(index.view(), id@, i as int),
        decreases notes@.len() - i,
    {
        if find_block_by_id(id, &notes[i].children).is_some() {
            return Some(i);
        }
        i = i + 1;
    }
    None
}

/// The block with identifier `id` in the first note that holds one.
pub fn find_block_in_notes<'a>(index: &'a NoteIndex, id: &str) -> (r: Option<&'a Block>)
    ensures
        match r {
            Some(b) => block_in_notes(index.view(), id@) == Some(*b),
            None => block_in_notes(index.view(), id@) is None,
        },
{
    match locate_block(index, id) {
        Some(j) => find_block_by_id(id, &index.notes()[j].children),
        None => None,
    }
}

/// The blocks that an identifier names: a whole note's children, or the
/// children of the note that holds the block.
pub fn find_content_by_id<'a>(id: &str, index: &'a NoteIndex) -> (r: Option<&'a Vec<Block>>)
    ensures
        match r {
            Some(bs) => content_of(index.view(), id@) == Some(bs@),
            None => content_of(index.view(), id@) is None,
        },
{
    if let Some(k) = index.position(id) {
        return Some(&index.notes()[k].children);
    }
    match locate_block(index, id) {
        Some(j) => Some(&index.notes()[j].children),
        None => None,
    }
}

} // verus!
