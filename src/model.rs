//! The block tree of a note, and the index of all notes by identifier.
use vstd::prelude::*;
use crate::text::same_text;

verus! {

/// The kind of a block node.
#[derive(Clone, Copy, Debug, PartialEq, Eq, Structural)]
pub enum NodeKind {
    Paragraph,
    Heading,
    List,
    ListItem,
    TaskListItemMarker,
    Blockquote,
    ThematicBreak,
    Table,
    TableHead,
    TableRow,
    TableCell,
    CodeBlock,
    CodeBlockCode,
    Text,
    TextMark,
    Image,
    LinkDest,
    LinkText,
    LinkTitle,
    Br,
    SuperBlock,
    SuperBlockOpenMarker,
    SuperBlockLayoutMarker,
    SuperBlockCloseMarker,
    BlockQueryEmbed,
    BlockQueryEmbedScript,
    /// A paragraph under the older schema's type name `P`; rendered like an
    /// unknown kind, and looked for only by tag-page excerpts.
    LegacyParagraph,
    Other,
}

/// The subtype of an inline text mark.
#[derive(Clone, Copy, Debug, PartialEq, Eq, Structural)]
pub enum MarkKind {
    Link,
    Code,
    Strong,
    Em,
    Underline,
    Strike,
    Sub,
    Sup,
    Kbd,
    Highlight,
    Text,
    TextStrong,
    Tag,
    InlineMath,
    InlineMemo,
    BlockRef,
    Other,
}

/// A node of a note's content tree. Fields that a kind does not use stay empty.
#[derive(Debug)]
pub struct Block {
    /// Identifier, empty when none was assigned.
    pub id: String,
    pub kind: NodeKind,
    /// Raw text: the characters of a text node, a layout marker's payload,
    /// `th` on a header cell, an embed's query script, an image part's value.
    pub data: String,
    /// Inline style, empty when absent.
    pub style: String,
    /// Style of a wrapper element around an image, empty when absent.
    pub parent_style: String,
    pub heading_level: u8,
    /// List kind discriminant: 1 ordered, 3 task, anything else unordered.
    pub list_type: i64,
    pub mark: MarkKind,
    pub mark_text: String,
    pub mark_href: String,
    pub mark_ref_id: String,
    pub mark_memo: String,
    /// Language tag of a code block, possibly base64-encoded.
    pub code_info: String,
    pub task_checked: bool,
    pub children: Vec<Block>,
}

/// A note: its identifier, title, comma-separated tags and content.
#[derive(Debug)]
pub struct Note {
    pub id: String,
    pub title: String,
    pub tags: String,
    pub children: Vec<Block>,
}

impl Block {
    /// A block of the given kind with every other field empty.
    pub fn new(kind: NodeKind) -> (r: Block)
        ensures
            r.kind == kind,
            r.id@.len() == 0,
            r.data@.len() == 0,
            r.style@.len() == 0,
            r.parent_style@.len() == 0,
            r.heading_level == 0,
            r.list_type == 0,
            r.mark == MarkKind::Other,
            r.mark_text@.len() == 0,
            r.mark_href@.len() == 0,
            r.mark_ref_id@.len() == 0,
            r.mark_memo@.len() == 0,
            r.code_info@.len() == 0,
            !r.task_checked,
            r.children@.len() == 0,
    {
        Block {
            id: String::new(),
            kind,
            data: String::new(),
            style: String::new(),
            parent_style: String::new(),
            heading_level: 0,
            list_type: 0,
            mark: MarkKind::Other,
            mark_text: String::new(),
            mark_href: String::new(),
            mark_ref_id: String::new(),
            mark_memo: String::new(),
            code_info: String::new(),
            task_checked: false,
            children: Vec::new(),
        }
    }
}

/// The kind that a node type name denotes; unknown names denote `Other`.
pub open spec fn node_kind_named(name: Seq<char>) -> NodeKind {
    if name == "NodeParagraph"@ {
        NodeKind::Paragraph
    } else if name == "NodeHeading"@ {
        NodeKind::Heading
    } else if name == "NodeList"@ {
        NodeKind::List
    } else if name == "NodeListItem"@ {
        NodeKind::ListItem
    } else if name == "NodeTaskListItemMarker"@ {
        NodeKind::TaskListItemMarker
    } else if name == "NodeBlockquote"@ {
        NodeKind::Blockquote
    } else if name == "NodeThematicBreak"@ {
        NodeKind::ThematicBreak
    } else if name == "NodeTable"@ {
        NodeKind::Table
    } else if name == "NodeTableHead"@ {
        NodeKind::TableHead
    } else if name == "NodeTableRow"@ {
        NodeKind::TableRow
    } else if name == "NodeTableCell"@ {
        NodeKind::TableCell
    } else if name == "NodeCodeBlock"@ {
        NodeKind::CodeBlock
    } else if name == "NodeCodeBlockCode"@ {
        NodeKind::CodeBlockCode
    } else if name == "NodeText"@ {
        NodeKind::Text
    } else if name == "NodeTextMark"@ {
        NodeKind::TextMark
    } else if name == "NodeImage"@ {
        NodeKind::Image
    } else if name == "NodeLinkDest"@ {
        NodeKind::LinkDest
    } else if name == "NodeLinkText"@ {
        NodeKind::LinkText
    } else if name == "NodeLinkTitle"@ {
        NodeKind::LinkTitle
    } else if name == "NodeBr"@ {
        NodeKind::Br
    } else if name == "NodeSuperBlock"@ {
        NodeKind::SuperBlock
    } else if name == "NodeSuperBlockOpenMarker"@ {
        NodeKind::SuperBlockOpenMarker
    } else if name == "NodeSuperBlockLayoutMarker"@ {
        NodeKind::SuperBlockLayoutMarker
    } else if name == "NodeSuperBlockCloseMarker"@ {
        NodeKind::SuperBlockCloseMarker
    } else if name == "NodeBlockQueryEmbed"@ {
        NodeKind::BlockQueryEmbed
    } else if name == "NodeBlockQueryEmbedScript"@ {
        NodeKind::BlockQueryEmbedScript
    } else if name == "P"@ {
        NodeKind::LegacyParagraph
    } else {
        NodeKind::Other
    }
}

/// The kind that a node type name denotes.
pub fn node_kind_of(name: &str) -> (r: NodeKind)
    ensures
        r == node_kind_named(name@),
{
    if same_text(name, "NodeParagraph") {
        NodeKind::Paragraph
    } else if same_text(name, "NodeHeading") {
        NodeKind::Heading
    } else if same_text(name, "NodeList") {
        NodeKind::List
    } else if same_text(name, "NodeListItem") {
        NodeKind::ListItem
    } else if same_text(name, "NodeTaskListItemMarker") {
        NodeKind::TaskListItemMarker
    } else if same_text(name, "NodeBlockquote") {
        NodeKind::Blockquote
    } else if same_text(name, "NodeThematicBreak") {
        NodeKind::ThematicBreak
    } else if same_text(name, "NodeTable") {
        NodeKind::Table
    } else if same_text(name, "NodeTableHead") {
        NodeKind::TableHead
    } else if same_text(name, "NodeTableRow") {
        NodeKind::TableRow
    } else if same_text(name, "NodeTableCell") {
        NodeKind::TableCell
    } else if same_text(name, "NodeCodeBlock") {
        NodeKind::CodeBlock
    } else if same_text(name, "NodeCodeBlockCode") {
        NodeKind::CodeBlockCode
    } else if same_text(name, "NodeText") {
        NodeKind::Text
    } else if same_text(name, "NodeTextMark") {
        NodeKind::TextMark
    } else if same_text(name, "NodeImage") {
        NodeKind::Image
    } else if same_text(name, "NodeLinkDest") {
        NodeKind::LinkDest
    } else if same_text(name, "NodeLinkText") {
        NodeKind::LinkText
    } else if same_text(name, "NodeLinkTitle") {
        NodeKind::LinkTitle
    } else if same_text(name, "NodeBr") {
        NodeKind::Br
    } else if same_text(name, "NodeSuperBlock") {
        NodeKind::SuperBlock
    } else if same_text(name, "NodeSuperBlockOpenMarker") {
        NodeKind::SuperBlockOpenMarker
    } else if same_text(name, "NodeSuperBlockLayoutMarker") {
        NodeKind::SuperBlockLayoutMarker
    } else if same_text(name, "NodeSuperBlockCloseMarker") {
        NodeKind::SuperBlockCloseMarker
    } else if same_text(name, "NodeBlockQueryEmbed") {
        NodeKind::BlockQueryEmbed
    } else if same_text(name, "NodeBlockQueryEmbedScript") {
        NodeKind::BlockQueryEmbedScript
    } else if same_text(name, "P") {
        NodeKind::LegacyParagraph
    } else {
        NodeKind::Other
    }
}

/// The subtype that a mark type name denotes; `strong text` is rendered as `strong`, unknown names denote `Other`.
pub open spec fn mark_kind_named(name: Seq<char>) -> MarkKind {
    if name == "a"@ {
        MarkKind::Link
    } else if name == "code"@ {
        MarkKind::Code
    } else if name == "strong"@ {
        MarkKind::Strong
    } else if name == "strong text"@ {
        MarkKind::Strong
    } else if name == "em"@ {
        MarkKind::Em
    } else if name == "u"@ {
        MarkKind::Underline
    } else if name == "s"@ {
        MarkKind::Strike
    } else if name == "sub"@ {
        MarkKind::Sub
    } else if name == "sup"@ {
        MarkKind::Sup
    } else if name == "kbd"@ {
        MarkKind::Kbd
    } else if name == "mark"@ {
        MarkKind::Highlight
    } else if name == "text"@ {
        MarkKind::Text
    } else if name == "text strong"@ {
        MarkKind::TextStrong
    } else if name == "tag"@ {
        MarkKind::Tag
    } else if name == "inline-math"@ {
        MarkKind::InlineMath
    } else if name == "inline-memo"@ {
        MarkKind::InlineMemo
    } else if name == "block-ref"@ {
        MarkKind::BlockRef
    } else {
        MarkKind::Other
    }
}

/// The subtype that a mark type name denotes.
pub fn mark_kind_of(name: &str) -> (r: MarkKind)
    ensures
        r == mark_kind_named(name@),
{
    if same_text(name, "a") {
        MarkKind::Link
    } else if same_text(name, "code") {
        MarkKind::Code
    } else if same_text(name, "strong") {
        MarkKind::Strong
    } else if same_text(name, "strong text") {
        MarkKind::Strong
    } else if same_text(name, "em") {
        MarkKind::Em
    } else if same_text(name, "u") {
        MarkKind::Underline
    } else if same_text(name, "s") {
        MarkKind::Strike
    } else if same_text(name, "sub") {
        MarkKind::Sub
    } else if same_text(name, "sup") {
        MarkKind::Sup
    } else if same_text(name, "kbd") {
        MarkKind::Kbd
    } else if same_text(name, "mark") {
        MarkKind::Highlight
    } else if same_text(name, "text") {
        MarkKind::Text
    } else if same_text(name, "text strong") {
        MarkKind::TextStrong
    } else if same_text(name, "tag") {
        MarkKind::Tag
    } else if same_text(name, "inline-math") {
        MarkKind::InlineMath
    } else if same_text(name, "inline-memo") {
        MarkKind::InlineMemo
    } else if same_text(name, "block-ref") {
        MarkKind::BlockRef
    } else {
        MarkKind::Other
    }
}

/// No two notes share an identifier.
pub open spec fn ids_unique(notes: Seq<Note>) -> bool {
    forall|i: int, j: int|
        0 <= i < notes.len() && 0 <= j < notes.len() && i != j ==> #[trigger] notes[i].id@
            != #[trigger] notes[j].id@
}

/// The position of the note with identifier `id`, searching from position `i`.
pub open spec fn note_pos_from(notes: Seq<Note>, id: Seq<char>, i: int) -> Option<int>
    decreases notes.len() - i,
{
    if i < 0 || i >= notes.len() {
        None
    } else if notes[i].id@ == id {
        Some(i)
    } else {
        note_pos_from(notes, id, i + 1)
    }
}

/// The position of the note with identifier `id`.
pub open spec fn note_pos(notes: Seq<Note>, id: Seq<char>) -> Option<int> {
    note_pos_from(notes, id, 0)
}

/// The notes of a corpus, keyed by identifier.
pub struct NoteIndex {
    notes: Vec<Note>,
}

impl NoteIndex {
    pub closed spec fn view(&self) -> Seq<Note> {
        self.notes@
    }

    /// Identifiers are unique.
    pub open spec fn wf(&self) -> bool {
        ids_unique(self.view())
    }

    /// An empty index.
    pub fn new() -> (r: NoteIndex)
        ensures
            r.wf(),
            r.view().len() == 0,
    {
        NoteIndex { notes: Vec::new() }
    }

    /// The notes, in insertion order.
    pub fn notes(&self) -> (r: &Vec<Note>)
        ensures
            r@ == self.view(),
    {
        &self.notes
    }

    /// The position of the note with identifier `id`.
    pub fn position(&self, id: &str) -> (r: Option<usize>)
        ensures
            match r {
                Some(k) => note_pos(self.view(), id@) == Some(k as int) && k < self.view().len()
                    && self.view()[k as int].id@ == id@,
                None => note_pos(self.view(), id@) is None,
            },
    {
        let mut i: usize = 0;
        while i < self.notes.len()
            invariant
                i <= self.notes@.len(),
                note_pos(self.view(), id@) == note_pos_from(self.view(), id@, i as int),
            decreases self.notes@.len() - i,
        {
            if same_text(self.notes[i].id.as_str(), id) {
                return Some(i);
            }
            i = i + 1;
        }
        None
    }

    /// The note with identifier `id`, if any.
    pub fn get(&self, id: &str) -> (r: Option<&Note>)
        ensures
            match r {
                Some(n) => note_pos(self.view(), id@) is Some && 0 <= note_pos(self.view(), id@)->0
                    < self.view().len() && *n == self.view()[note_pos(self.view(), id@)->0],
                None => note_pos(self.view(), id@) is None,
            },
    {
        match self.position(id) {
            Some(k) => Some(&self.notes[k]),
            None => None,
        }
    }

    /// Adds a note; a note with the same identifier is replaced.
    pub fn insert(&mut self, note: Note)
        requires
            old(self).wf(),
        ensures
            final(self).wf(),
            match note_pos(old(self).view(), note.id@) {
                Some(k) => final(self).view() == old(self).view().update(k, note),
                None => final(self).view() == old(self).view().push(note),
            },
    {
        proof {
            lemma_note_pos_found(self.view(), note.id@, 0);
        }
        match self.position(note.id.as_str()) {
            Some(k) => {
                self.notes.set(k, note);
                assert forall|i: int, j: int|
                    0 <= i < self.notes@.len() && 0 <= j < self.notes@.len() && i != j implies
                    #[trigger] self.notes@[i].id@ != #[trigger] self.notes@[j].id@ by {
                    assert(old(self).notes@[k as int].id@ == self.notes@[k as int].id@);
                }
            },
            None => {
                self.notes.push(note);
                assert forall|i: int, j: int|
                    0 <= i < self.notes@.len() && 0 <= j < self.notes@.len() && i != j implies
                    #[trigger] self.notes@[i].id@ != #[trigger] self.notes@[j].id@ by {
                    if i == self.notes@.len() - 1 {
                        assert(old(self).notes@[j].id@ != self.notes@[i].id@);
                    } else if j == self.notes@.len() - 1 {
                        assert(old(self).notes@[i].id@ != self.notes@[j].id@);
                    }
                }
            },
        }
    }
}

/// What the search finds: a note at the position it returns, and no note
/// with that identifier where it returns none.
pub proof fn lemma_note_pos_found(notes: Seq<Note>, id: Seq<char>, i: int)
    requires
        0 <= i,
    ensures
        match note_pos_from(notes, id, i) {
            Some(k) => i <= k < notes.len() && notes[k].id@ == id,
            None => forall|j: int| i <= j < notes.len() ==> #[trigger] notes[j].id@ != id,
        },
    decreases notes.len() - i,
{
    if i < notes.len() && notes[i].id@ != id {
        lemma_note_pos_found(notes, id, i + 1);
    }
}

} // verus!
