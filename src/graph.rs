//! The note link graph: one node per note, one undirected edge per pair of
//! notes joined by at least one block reference.
use vstd::prelude::*;
use crate::model::{Block, MarkKind, NodeKind, Note, NoteIndex, note_pos};
use crate::text::{same_text, split_trimmed, strings_view, trimmed_pieces};

verus! {

/// An undirected edge, stored in the orientation of the reference that made it.
#[derive(Debug)]
pub struct GraphEdge {
    pub source: String,
    pub target: String,
}

/// A note as a graph node.
#[derive(Debug)]
pub struct GraphNode {
    pub id: String,
    pub title: String,
    pub tags: Vec<String>,
    pub connections: usize,
}

/// The whole graph.
#[derive(Debug)]
pub struct Graph {
    pub nodes: Vec<GraphNode>,
    pub edges: Vec<GraphEdge>,
}

/// The targets of the block references among `bs` and their descendants, in document order.
pub open spec fn refs(bs: Seq<Block>) -> Seq<Seq<char>>
    decreases bs, 0nat,
{
    if bs.len() == 0 {
        Seq::empty()
    } else {
        refs(bs.drop_last()) + block_refs(bs.last())
    }
}

/// The targets of the block references in one block and its descendants.
pub open spec fn block_refs(b: Block) -> Seq<Seq<char>>
    decreases b, 1nat,
{
    (if b.kind == NodeKind::TextMark && b.mark == MarkKind::BlockRef {
        seq![b.mark_ref_id@]
    } else {
        Seq::empty()
    }) + refs(b.children@)
}

/// The edge joins `a` and `b`, in either orientation.
pub open spec fn connects(e: GraphEdge, a: Seq<char>, b: Seq<char>) -> bool {
    (e.source@ == a && e.target@ == b) || (e.source@ == b && e.target@ == a)
}

/// Some edge joins `a` and `b`.
pub open spec fn linked(es: Seq<GraphEdge>, a: Seq<char>, b: Seq<char>) -> bool {
    exists|i: int| 0 <= i < es.len() && connects(#[trigger] es[i], a, b)
}

/// No edge is a loop, and no two edges join the same pair.
pub open spec fn simple(es: Seq<GraphEdge>) -> bool {
    &&& forall|i: int| 0 <= i < es.len() ==> (#[trigger] es[i]).source@ != es[i].target@
    &&& forall|i: int, j: int|
        0 <= i < j < es.len() ==> !connects(#[trigger] es[i], (#[trigger] es[j]).source@, es[j].target@)
}

/// A reference from `src` to `t` makes an edge: `t` is a non-empty identifier
/// of another note in the index.
pub open spec fn valid_target(notes: Seq<Note>, src: Seq<char>, t: Seq<char>) -> bool {
    t.len() > 0 && note_pos(notes, t) is Some && t != src
}

/// How many edge ends lie on `id`.
pub open spec fn touching(es: Seq<GraphEdge>, id: Seq<char>) -> nat
    decreases es.len(),
{
    if es.len() == 0 {
        0
    } else {
        touching(es.drop_last(), id) + (if es.last().source@ == id {
            1nat
        } else {
            0nat
        }) + (if es.last().target@ == id {
            1nat
        } else {
            0nat
        })
    }
}

/// How many edges join `a` and `b`.
pub open spec fn edges_between(es: Seq<GraphEdge>, a: Seq<char>, b: Seq<char>) -> nat
    decreases es.len(),
{
    if es.len() == 0 {
        0
    } else {
        edges_between(es.drop_last(), a, b) + if connects(es.last(), a, b) {
            1nat
        } else {
            0nat
        }
    }
}

/// An element of a concatenation is an element of one of its parts.
pub proof fn lemma_contains_add(a: Seq<Seq<char>>, b: Seq<Seq<char>>, x: Seq<char>)
    ensures
        (a + b).contains(x) <==> a.contains(x) || b.contains(x),
{
    if (a + b).contains(x) {
        let i = choose|i: int| 0 <= i < (a + b).len() && (a + b)[i] == x;
        if i < a.len() {
            assert(a[i] == x);
        } else {
            assert(b[i - a.len()] == x);
        }
    }
    if a.contains(x) {
        let i = choose|i: int| 0 <= i < a.len() && a[i] == x;
        assert((a + b)[i] == x);
    }
    if b.contains(x) {
        let i = choose|i: int| 0 <= i < b.len() && b[i] == x;
        assert((a + b)[a.len() + i] == x);
    }
}

fn is_linked(links: &Vec<GraphEdge>, a: &str, b: &str) -> (r: bool)
    ensures
        r == linked(links@, a@, b@),
{
    let mut i: usize = 0;
    while i < links.len()
        invariant
            i <= links@.len(),
            forall|j: int| 0 <= j < i ==> !connects(#[trigger] links@[j], a@, b@),
        decreases links@.len() - i,
    {
        let e = &links[i];
        if (same_text(e.source.as_str(), a) && same_text(e.target.as_str(), b)) || (same_text(
            e.source.as_str(),
            b,
        ) && same_text(e.target.as_str(), a)) {
            assert(connects(links@[i as int], a@, b@));
            return true;
        }
        i = i + 1;
    }
    false
}

/// Adds an edge from `source_id` for each block reference among `blocks` and
/// their descendants whose target is another note of the index, unless the
/// pair is already joined in either orientation.
pub fn scan_blocks_for_links(
    blocks: &Vec<Block>,
    index: &NoteIndex,
    source_id: &str,
    links: &mut Vec<GraphEdge>,
)
    requires
        simple(old(links)@),
    ensures
        simple(final(links)@),
        old(links)@.len() <= final(links)@.len(),
        forall|i: int| 0 <= i < old(links)@.len() ==> #[trigger] final(links)@[i] == old(links)@[i],
        forall|i: int|
            old(links)@.len() <= i < final(links)@.len() ==> (#[trigger] final(links)@[i]).source@
                == source_id@ && refs(blocks@).contains(final(links)@[i].target@) && valid_target(
                index.view(),
                source_id@,
                final(links)@[i].target@,
            ),
        forall|t: Seq<char>|
            #[trigger] refs(blocks@).contains(t) && valid_target(index.view(), source_id@, t)
                ==> linked(final(links)@, source_id@, t),
    decreases blocks@,
{
    let ghost l0 = links@;
    let mut i: usize = 0;
    while i < blocks.len()
        invariant
            i <= blocks@.len(),
            simple(links@),
            l0.len() <= links@.len(),
            forall|j: int| 0 <= j < l0.len() ==> #[trigger] links@[j] == l0[j],
            forall|j: int|
                l0.len() <= j < links@.len() ==> (#[trigger] links@[j]).source@ == source_id@
                    && refs(blocks@.take(i as int)).contains(links@[j].target@) && valid_target(
                    index.view(),
                    source_id@,
                    links@[j].target@,
                ),
            forall|t: Seq<char>|
                #[trigger] refs(blocks@.take(i as int)).contains(t) && valid_target(
                    index.view(),
                    source_id@,
                    t,
                ) ==> linked(links@, source_id@, t),
        decreases blocks@.len() - i,
    {
        let b = &blocks[i];
        let ghost la = links@;
        let ghost head: Seq<Seq<char>> = if b.kind == NodeKind::TextMark && b.mark
            == MarkKind::BlockRef {
            seq![b.mark_ref_id@]
        } else {
            Seq::empty()
        };
        if b.kind == NodeKind::TextMark && b.mark == MarkKind::BlockRef {
            let t = b.mark_ref_id.as_str();
            if !t.is_empty() && index.position(t).is_some() && !same_text(source_id, t) {
                if !is_linked(links, source_id, t) {
                    links.push(GraphEdge { source: String::from_str(source_id), target: b.mark_ref_id.clone() });
                    assert forall|x: int, y: int| 0 <= x < y < links@.len() implies !connects(
                        #[trigger] links@[x],
                        (#[trigger] links@[y]).source@,
                        links@[y].target@,
                    ) by {
                        if y == links@.len() - 1 {
                            assert(links@[x] == la[x]);
                            assert(!connects(la[x], source_id@, t@));
                        } else {
                            assert(links@[x] == la[x]);
                            assert(links@[y] == la[y]);
                        }
                    }
                }
            }
        }
        let ghost lm = links@;
        proof {
            assert forall|t: Seq<char>| #[trigger]
                head.contains(t) && valid_target(index.view(), source_id@, t) implies linked(
                lm,
                source_id@,
                t,
            ) by {
                assert(head[0] == t);
                if !linked(la, source_id@, t) {
                    assert(connects(lm[lm.len() - 1], source_id@, t));
                } else {
                    let w = choose|w: int| 0 <= w < la.len() && connects(#[trigger] la[w], source_id@, t);
                    assert(lm[w] == la[w]);
                }
            }
        }
        scan_blocks_for_links(&b.children, index, source_id, links);
        proof {
            let next = blocks@.take(i + 1);
            assert(next.drop_last() =~= blocks@.take(i as int));
            assert(next.last() == blocks@[i as int]);
            let pre = refs(blocks@.take(i as int));
            let br = block_refs(*b);
            assert(refs(next) == pre + br);
            assert(br == head + refs(b.children@));
            assert forall|t: Seq<char>| #[trigger]
                refs(next).contains(t) && valid_target(index.view(), source_id@, t) implies linked(
                links@,
                source_id@,
                t,
            ) by {
                lemma_contains_add(pre, br, t);
                lemma_contains_add(head, refs(b.children@), t);
                if pre.contains(t) {
                    let w = choose|w: int| 0 <= w < la.len() && connects(#[trigger] la[w], source_id@, t);
                    assert(links@[w] == la[w]);
                } else if head.contains(t) {
                    let w = choose|w: int| 0 <= w < lm.len() && connects(#[trigger] lm[w], source_id@, t);
                    assert(links@[w] == lm[w]);
                }
            }
            assert forall|j: int| l0.len() <= j < links@.len() implies (#[trigger] links@[j]).source@
                == source_id@ && refs(next).contains(links@[j].target@) && valid_target(
                index.view(),
                source_id@,
                links@[j].target@,
            ) by {
                let tj = links@[j].target@;
                lemma_contains_add(pre, br, tj);
                lemma_contains_add(head, refs(b.children@), tj);
                if j < la.len() {
                    assert(links@[j] == la[j]);
                } else if j < lm.len() {
                    assert(links@[j] == lm[j]);
                    assert(head[0] == tj);
                }
            }
            assert forall|j: int| 0 <= j < l0.len() implies #[trigger] links@[j] == l0[j] by {
                assert(links@[j] == lm[j]);
            }
        }
        i = i + 1;
    }
    assert(blocks@.take(i as int) =~= blocks@);
}

/// What a node shows as title: the note's title, else its identifier.
pub open spec fn display_title(n: Note) -> Seq<char> {
    if n.title@.len() > 0 {
        n.title@
    } else {
        n.id@
    }
}

/// The tags of a note: its comma-separated list, each trimmed; none when empty.
pub open spec fn note_tags(tags: Seq<char>) -> Seq<Seq<char>> {
    if tags.len() == 0 {
        Seq::empty()
    } else {
        trimmed_pieces(tags)
    }
}

/// A node stands for its note, and counts the edge ends on it.
pub open spec fn node_of(nd: GraphNode, n: Note, es: Seq<GraphEdge>) -> bool {
    &&& nd.id@ == n.id@
    &&& nd.title@ == display_title(n)
    &&& strings_view(nd.tags@) == note_tags(n.tags@)
    &&& nd.connections as nat == touching(es, n.id@)
}

/// Every edge comes from a reference in some note to another note of the index.
pub open spec fn edges_sound(notes: Seq<Note>, es: Seq<GraphEdge>) -> bool {
    forall|i: int|
        0 <= i < es.len() ==> exists|k: int|
            0 <= k < notes.len() && (#[trigger] es[i]).source@ == (#[trigger] notes[k]).id@
                && refs(notes[k].children@).contains(es[i].target@) && valid_target(
                notes,
                notes[k].id@,
                es[i].target@,
            )
}

/// Every reference from one note to another of the index is joined by an edge.
pub open spec fn edges_complete(notes: Seq<Note>, es: Seq<GraphEdge>, upto: int) -> bool {
    forall|k: int, t: Seq<char>|
        0 <= k < upto && #[trigger] refs(notes[k].children@).contains(t) && valid_target(
            notes,
            notes[k].id@,
            t,
        ) ==> linked(es, notes[k].id@, t)
}

fn count_touching(es: &Vec<GraphEdge>, id: &str) -> (r: usize)
    requires
        simple(es@),
    ensures
        r as nat == touching(es@, id@),
{
    let mut c: usize = 0;
    let mut i: usize = 0;
    while i < es.len()
        invariant
            i <= es@.len(),
            simple(es@),
            c as nat == touching(es@.take(i as int), id@),
            c <= i,
        decreases es@.len() - i,
    {
        let e = &es[i];
        let s = same_text(e.source.as_str(), id);
        let t = same_text(e.target.as_str(), id);
        assert(es@[i as int].source@ != es@[i as int].target@);
        if s {
            c = c + 1;
        }
        if t {
            c = c + 1;
        }
        proof {
            let next = es@.take(i + 1);
            assert(next.drop_last() =~= es@.take(i as int));
            assert(next.last() == es@[i as int]);
        }
        i = i + 1;
    }
    assert(es@.take(i as int) =~= es@);
    c
}

/// Builds the link graph: one node per note, in index order, and one edge per
/// pair of notes joined by a block reference, with each node's edge count.
pub fn build_graph(index: &NoteIndex) -> (g: Graph)
    ensures
        g.nodes@.len() == index.view().len(),
        forall|k: int|
            0 <= k < index.view().len() ==> node_of(
                #[trigger] g.nodes@[k],
                index.view()[k],
                g.edges@,
            ),
        simple(g.edges@),
        edges_sound(index.view(), g.edges@),
        edges_complete(index.view(), g.edges@, index.view().len() as int),
{
    let notes = index.notes();
    let mut edges: Vec<GraphEdge> = Vec::new();
    let mut k: usize = 0;
    while k < notes.len()
        invariant
            notes@ == index.view(),
            k <= notes@.len(),
            simple(edges@),
            edges_sound(index.view(), edges@),
            edges_complete(index.view(), edges@, k as int),
        decreases notes@.len() - k,
    {
        let ghost before = edges@;
        scan_blocks_for_links(&notes[k].children, index, notes[k].id.as_str(), &mut edges);
        proof {
            assert forall|i: int| 0 <= i < edges@.len() implies exists|j: int|
                0 <= j < notes@.len() && (#[trigger] edges@[i]).source@ == (
                #[trigger] notes@[j]).id@ && refs(notes@[j].children@).contains(edges@[i].target@)
                && valid_target(notes@, notes@[j].id@, edges@[i].target@) by {
                if i < before.len() {
                    assert(edges@[i] == before[i]);
                } else {
                    assert(notes@[k as int].id@ == edges@[i].source@);
                }
            }
            assert forall|j: int, t: Seq<char>|
                0 <= j < k + 1 && #[trigger] refs(notes@[j].children@).contains(t) && valid_target(
                    notes@,
                    notes@[j].id@,
                    t,
                ) implies linked(edges@, notes@[j].id@, t) by {
                if j < k {
                    assert(linked(before, notes@[j].id@, t));
                    let w = choose|w: int|
                        0 <= w < before.len() && connects(#[trigger] before[w], notes@[j].id@, t);
                    assert(edges@[w] == before[w]);
                }
            }
        }
        k = k + 1;
    }
    let mut nodes: Vec<GraphNode> = Vec::new();
    let mut k: usize = 0;
    while k < notes.len()
        invariant
            notes@ == index.view(),
            k <= notes@.len(),
            simple(edges@),
            nodes@.len() == k,
            forall|j: int| 0 <= j < k ==> node_of(#[trigger] nodes@[j], notes@[j], edges@),
        decreases notes@.len() - k,
    {
        let n = &notes[k];
        let title = if !n.title.as_str().is_empty() {
            n.title.clone()
        } else {
            n.id.clone()
        };
        let tags = if !n.tags.as_str().is_empty() {
            split_trimmed(n.tags.as_str())
        } else {
            Vec::new()
        };
        proof {
            if n.tags@.len() == 0 {
                assert(strings_view(tags@) =~= note_tags(n.tags@));
            }
        }
        let connections = count_touching(&edges, n.id.as_str());
        nodes.push(GraphNode { id: n.id.clone(), title, tags, connections });
        k = k + 1;
    }
    Graph { nodes, edges }
}

/// Edges are never doubled: a pair of notes joined at all is joined by
/// exactly one edge, whichever way and however often they refer to each other.
pub proof fn lemma_one_edge_per_pair(es: Seq<GraphEdge>, a: Seq<char>, b: Seq<char>)
    requires
        simple(es),
        linked(es, a, b),
    ensures
        edges_between(es, a, b) == 1,
    decreases es.len(),
{
    let w = choose|w: int| 0 <= w < es.len() && connects(#[trigger] es[w], a, b);
    let n = es.len() - 1;
    let init = es.drop_last();
    assert forall|i: int| 0 <= i < init.len() implies (#[trigger] init[i]).source@
        != init[i].target@ by {
        assert(init[i] == es[i]);
    }
    assert forall|i: int, j: int| 0 <= i < j < init.len() implies !connects(
        #[trigger] init[i],
        (#[trigger] init[j]).source@,
        init[j].target@,
    ) by {
        assert(init[i] == es[i]);
        assert(init[j] == es[j]);
    }
    if w == n {
        lemma_no_edge_between(init, es[n], a, b);
    } else {
        assert(init[w] == es[w]);
        lemma_one_edge_per_pair(init, a, b);
        assert(!connects(es[w], es[n].source@, es[n].target@));
    }
}

proof fn lemma_no_edge_between(es: Seq<GraphEdge>, last: GraphEdge, a: Seq<char>, b: Seq<char>)
    requires
        connects(last, a, b),
        forall|i: int| 0 <= i < es.len() ==> !connects(#[trigger] es[i], last.source@, last.target@),
    ensures
        edges_between(es, a, b) == 0,
    decreases es.len(),
{
    if es.len() > 0 {
        assert(es.last() == es[es.len() - 1]);
        assert forall|i: int| 0 <= i < es.drop_last().len() implies !connects(
            #[trigger] es.drop_last()[i],
            last.source@,
            last.target@,
        ) by {
            assert(es.drop_last()[i] == es[i]);
        }
        lemma_no_edge_between(es.drop_last(), last, a, b);
    }
}

/// Two notes that refer to each other, where no other reference joins two
/// notes of the index, give a graph of exactly one edge between them, and
/// each of the two touches it once.
pub proof fn lemma_mutual_pair(notes: Seq<Note>, es: Seq<GraphEdge>, ka: int, kb: int)
    requires
        0 <= ka < notes.len(),
        0 <= kb < notes.len(),
        refs(notes[ka].children@).contains(notes[kb].id@),
        valid_target(notes, notes[ka].id@, notes[kb].id@),
        simple(es),
        edges_sound(notes, es),
        edges_complete(notes, es, notes.len() as int),
        forall|k: int, t: Seq<char>|
            0 <= k < notes.len() && #[trigger] refs(notes[k].children@).contains(t)
                && valid_target(notes, notes[k].id@, t) ==> (notes[k].id@ == notes[ka].id@ && t
                == notes[kb].id@) || (notes[k].id@ == notes[kb].id@ && t == notes[ka].id@),
    ensures
        es.len() == 1,
        connects(es[0], notes[ka].id@, notes[kb].id@),
        touching(es, notes[ka].id@) == 1,
        touching(es, notes[kb].id@) == 1,
{
    let a = notes[ka].id@;
    let b = notes[kb].id@;
    assert(linked(es, a, b));
    assert forall|i: int| 0 <= i < es.len() implies connects(#[trigger] es[i], a, b) by {
        let k = choose|k: int|
            0 <= k < notes.len() && (#[trigger] es[i]).source@ == (#[trigger] notes[k]).id@
                && refs(notes[k].children@).contains(es[i].target@) && valid_target(
                notes,
                notes[k].id@,
                es[i].target@,
            );
        assert(refs(notes[k].children@).contains(es[i].target@));
    }
    if es.len() >= 2 {
        assert(connects(es[0], a, b));
        assert(connects(es[1], a, b));
        assert(!connects(es[0], es[1].source@, es[1].target@));
    }
    assert(es.drop_last().len() == 0);
    assert(es.last() == es[0]);
    assert(a != b);
    assert(touching(es.drop_last(), a) == 0);
    assert(touching(es.drop_last(), b) == 0);
    assert(touching(es, a) == touching(es.drop_last(), a) + (if es.last().source@ == a {
        1nat
    } else {
        0nat
    }) + (if es.last().target@ == a {
        1nat
    } else {
        0nat
    }));
    assert(touching(es, b) == touching(es.drop_last(), b) + (if es.last().source@ == b {
        1nat
    } else {
        0nat
    }) + (if es.last().target@ == b {
        1nat
    } else {
        0nat
    }));
}

} // verus!
