use vstd::prelude::*;

use crate::node::DirNode;
use crate::render::branch_glyph;
use crate::render::line_of_event;
use crate::render::node_events;
use crate::render::prefix_extension;
use crate::render::walk_events;
use crate::render::walk_events_from;
use crate::render::walk_lines;
use crate::render::RenderEvent;

verus! {

/// The number of directory entries visible in the listing `nodes` from
/// sibling index `i` on, within the depth bound: an entry at a level the
/// budget still covers counts once, and its children count unless it is a
/// repository.
pub open spec fn visible_count_from(
    nodes: Seq<DirNode>,
    i: int,
    max_depth: int,
    cur_depth: int,
) -> nat
    decreases max_depth - cur_depth, nodes.len() - i, 1int,
{
    if cur_depth >= max_depth || i < 0 || i >= nodes.len() {
        0
    } else {
        visible_count_node(nodes[i], max_depth, cur_depth) + visible_count_from(
            nodes,
            i + 1,
            max_depth,
            cur_depth,
        )
    }
}

/// What one entry of a listing at `cur_depth` contributes to the count of
/// visible entries: itself, plus its children unless it is a repository or
/// the depth budget is exhausted.
pub open spec fn visible_count_node(node: DirNode, max_depth: int, cur_depth: int) -> nat
    decreases max_depth - cur_depth, 0int, 0int,
{
    1 + if node.is_repository || cur_depth + 1 >= max_depth {
        0nat
    } else {
        visible_count_from(node.children@, 0, max_depth, cur_depth + 1)
    }
}

/// The number of directory entries reachable within the depth bound,
/// children of repositories excluded.
pub open spec fn visible_count(nodes: Seq<DirNode>, max_depth: int, cur_depth: int) -> nat {
    visible_count_from(nodes, 0, max_depth, cur_depth)
}

proof fn lemma_count_from(nodes: Seq<DirNode>, i: int, max_depth: int, cur_depth: int, prefix: Seq<char>)
    ensures
        walk_events_from(nodes, i, max_depth, cur_depth, prefix).len() == visible_count_from(
            nodes,
            i,
            max_depth,
            cur_depth,
        ),
    decreases max_depth - cur_depth, nodes.len() - i, 1int,
{
    if !(cur_depth >= max_depth || i < 0 || i >= nodes.len()) {
        lemma_count_node(nodes[i], i == nodes.len() - 1, max_depth, cur_depth, prefix);
        lemma_count_from(nodes, i + 1, max_depth, cur_depth, prefix);
    }
}

proof fn lemma_count_node(node: DirNode, is_last: bool, max_depth: int, cur_depth: int, prefix: Seq<char>)
    ensures
        node_events(node, is_last, max_depth, cur_depth, prefix).len() == visible_count_node(
            node,
            max_depth,
            cur_depth,
        ),
    decreases max_depth - cur_depth, 0int, 0int,
{
    if !(node.is_repository || cur_depth + 1 >= max_depth) {
        lemma_count_from(
            node.children@,
            0,
            max_depth,
            cur_depth + 1,
            prefix + prefix_extension(is_last),
        );
    }
}

/// The number of printed lines below the header equals the number of
/// directory entries reachable within the depth bound, files excluded (they
/// never enter a listing) and children of repositories excluded.
pub proof fn lemma_line_count(nodes: Seq<DirNode>, max_depth: int, cur_depth: int, prefix: Seq<char>)
    ensures
        walk_lines(nodes, max_depth, cur_depth, prefix).len() == visible_count(
            nodes,
            max_depth,
            cur_depth,
        ),
{
    lemma_count_from(nodes, 0, max_depth, cur_depth, prefix);
}

/// A run whose depth bound is 0 prints nothing below the header line.
pub proof fn lemma_depth_zero(nodes: Seq<DirNode>, prefix: Seq<char>)
    ensures
        walk_lines(nodes, 0, 0, prefix) == Seq::<Seq<char>>::empty(),
{
    assert(walk_lines(nodes, 0, 0, prefix) =~= Seq::<Seq<char>>::empty());
}

proof fn lemma_widths_from(nodes: Seq<DirNode>, i: int, max_depth: int, cur_depth: int, prefix: Seq<char>)
    ensures
        forall|k: int|
            0 <= k < walk_events_from(nodes, i, max_depth, cur_depth, prefix).len()
                ==> (#[trigger] walk_events_from(nodes, i, max_depth, cur_depth, prefix)[k]).prefix.len()
                == 4 * (walk_events_from(nodes, i, max_depth, cur_depth, prefix)[k].depth - cur_depth
                - 1) + prefix.len(),
    decreases max_depth - cur_depth, nodes.len() - i, 1int,
{
    if !(cur_depth >= max_depth || i < 0 || i >= nodes.len()) {
        let seg = node_events(nodes[i], i == nodes.len() - 1, max_depth, cur_depth, prefix);
        let rest = walk_events_from(nodes, i + 1, max_depth, cur_depth, prefix);
        lemma_widths_node(nodes[i], i == nodes.len() - 1, max_depth, cur_depth, prefix);
        lemma_widths_from(nodes, i + 1, max_depth, cur_depth, prefix);
        assert(walk_events_from(nodes, i, max_depth, cur_depth, prefix) == seg + rest);
        assert forall|k: int| 0 <= k < (seg + rest).len() implies (#[trigger] (seg + rest)[k]).prefix.len()
            == 4 * ((seg + rest)[k].depth - cur_depth - 1) + prefix.len() by {
            if k < seg.len() {
                assert((seg + rest)[k] == seg[k]);
            } else {
                assert((seg + rest)[k] == rest[k - seg.len()]);
            }
        }
    }
}

proof fn lemma_widths_node(node: DirNode, is_last: bool, max_depth: int, cur_depth: int, prefix: Seq<char>)
    ensures
        forall|k: int|
            0 <= k < node_events(node, is_last, max_depth, cur_depth, prefix).len()
                ==> (#[trigger] node_events(node, is_last, max_depth, cur_depth, prefix)[k]).prefix.len()
                == 4 * (node_events(node, is_last, max_depth, cur_depth, prefix)[k].depth - cur_depth
                - 1) + prefix.len(),
    decreases max_depth - cur_depth, 0int, 0int,
{
    reveal_strlit("    ");
    reveal_strlit("│   ");
    assert(prefix_extension(is_last).len() == 4);
    let seg = node_events(node, is_last, max_depth, cur_depth, prefix);
    if !(node.is_repository || cur_depth + 1 >= max_depth) {
        let child_prefix = prefix + prefix_extension(is_last);
        let inner = walk_events_from(node.children@, 0, max_depth, cur_depth + 1, child_prefix);
        lemma_widths_from(node.children@, 0, max_depth, cur_depth + 1, child_prefix);
        assert forall|k: int| 0 <= k < seg.len() implies (#[trigger] seg[k]).prefix.len() == 4 * (
        seg[k].depth - cur_depth - 1) + prefix.len() by {
            if k >= 1 {
                assert(seg[k] == inner[k - 1]);
                assert(inner[k - 1].prefix.len() == 4 * (inner[k - 1].depth - cur_depth - 2)
                    + child_prefix.len());
            }
        }
    } else {
        assert(seg.len() == 1);
    }
}

/// The connector glyphs are fixed-width: each nesting level contributes
/// exactly four columns to the ancestor trail, so an entry's branch glyph
/// sits at the column its depth prescribes and descendants line up under
/// siblings still to come.
pub proof fn lemma_prefix_width(nodes: Seq<DirNode>, max_depth: int, cur_depth: int)
    ensures
        forall|k: int|
            0 <= k < walk_events(nodes, max_depth, cur_depth, Seq::<char>::empty()).len()
                ==> (#[trigger] walk_events(nodes, max_depth, cur_depth, Seq::<char>::empty())[k]).prefix.len()
                == 4 * (walk_events(nodes, max_depth, cur_depth, Seq::<char>::empty())[k].depth
                - cur_depth - 1),
{
    lemma_widths_from(nodes, 0, max_depth, cur_depth, Seq::<char>::empty());
}

proof fn lemma_depths_from(nodes: Seq<DirNode>, i: int, max_depth: int, cur_depth: int, prefix: Seq<char>)
    ensures
        forall|k: int|
            0 <= k < walk_events_from(nodes, i, max_depth, cur_depth, prefix).len()
                ==> (#[trigger] walk_events_from(nodes, i, max_depth, cur_depth, prefix)[k]).depth
                >= cur_depth + 1,
        walk_events_from(nodes, i, max_depth, cur_depth, prefix).len() > 0
            ==> walk_events_from(nodes, i, max_depth, cur_depth, prefix)[0].depth == cur_depth + 1,
    decreases max_depth - cur_depth, nodes.len() - i, 1int,
{
    if !(cur_depth >= max_depth || i < 0 || i >= nodes.len()) {
        lemma_depths_node(nodes[i], i == nodes.len() - 1, max_depth, cur_depth, prefix);
        lemma_depths_from(nodes, i + 1, max_depth, cur_depth, prefix);
    }
}

proof fn lemma_depths_node(node: DirNode, is_last: bool, max_depth: int, cur_depth: int, prefix: Seq<char>)
    ensures
        forall|k: int|
            0 <= k < node_events(node, is_last, max_depth, cur_depth, prefix).len()
                ==> (#[trigger] node_events(node, is_last, max_depth, cur_depth, prefix)[k]).depth
                >= cur_depth + 1,
        node_events(node, is_last, max_depth, cur_depth, prefix).len() > 0,
        node_events(node, is_last, max_depth, cur_depth, prefix)[0].depth == cur_depth + 1,
    decreases max_depth - cur_depth, 0int, 0int,
{
    if !(node.is_repository || cur_depth + 1 >= max_depth) {
        lemma_depths_from(
            node.children@,
            0,
            max_depth,
            cur_depth + 1,
            prefix + prefix_extension(is_last),
        );
    }
}

proof fn lemma_truncates_from(nodes: Seq<DirNode>, i: int, max_depth: int, cur_depth: int, prefix: Seq<char>)
    ensures
        forall|k: int|
            0 <= k && k + 1 < walk_events_from(nodes, i, max_depth, cur_depth, prefix).len()
                && (#[trigger] walk_events_from(nodes, i, max_depth, cur_depth, prefix)[k]).is_repository
                ==> walk_events_from(nodes, i, max_depth, cur_depth, prefix)[k + 1].depth
                <= walk_events_from(nodes, i, max_depth, cur_depth, prefix)[k].depth,
    decreases max_depth - cur_depth, nodes.len() - i, 1int,
{
    if !(cur_depth >= max_depth || i < 0 || i >= nodes.len()) {
        let seg = node_events(nodes[i], i == nodes.len() - 1, max_depth, cur_depth, prefix);
        let rest = walk_events_from(nodes, i + 1, max_depth, cur_depth, prefix);
        lemma_truncates_node(nodes[i], i == nodes.len() - 1, max_depth, cur_depth, prefix);
        lemma_truncates_from(nodes, i + 1, max_depth, cur_depth, prefix);
        lemma_depths_node(nodes[i], i == nodes.len() - 1, max_depth, cur_depth, prefix);
        lemma_depths_from(nodes, i + 1, max_depth, cur_depth, prefix);
        assert forall|k: int|
            0 <= k && k + 1 < (seg + rest).len() && (#[trigger] (seg + rest)[k]).is_repository
                implies (seg + rest)[k + 1].depth <= (seg + rest)[k].depth by {
            if k + 1 < seg.len() {
                assert((seg + rest)[k] == seg[k]);
                assert((seg + rest)[k + 1] == seg[k + 1]);
            } else if k + 1 == seg.len() {
                assert((seg + rest)[k] == seg[k]);
                assert((seg + rest)[k + 1] == rest[0]);
                assert(rest[0].depth == cur_depth + 1);
                assert(seg[k].depth >= cur_depth + 1);
            } else {
                assert((seg + rest)[k] == rest[k - seg.len()]);
                assert((seg + rest)[k + 1] == rest[k + 1 - seg.len()]);
            }
        }
    }
}

proof fn lemma_truncates_node(node: DirNode, is_last: bool, max_depth: int, cur_depth: int, prefix: Seq<char>)
    ensures
        forall|k: int|
            0 <= k && k + 1 < node_events(node, is_last, max_depth, cur_depth, prefix).len()
                && (#[trigger] node_events(node, is_last, max_depth, cur_depth, prefix)[k]).is_repository
                ==> node_events(node, is_last, max_depth, cur_depth, prefix)[k + 1].depth
                <= node_events(node, is_last, max_depth, cur_depth, prefix)[k].depth,
    decreases max_depth - cur_depth, 0int, 0int,
{
    let seg = node_events(node, is_last, max_depth, cur_depth, prefix);
    if node.is_repository || cur_depth + 1 >= max_depth {
        assert(seg.len() == 1);
    } else {
        let child_prefix = prefix + prefix_extension(is_last);
        let inner = walk_events_from(node.children@, 0, max_depth, cur_depth + 1, child_prefix);
        lemma_truncates_from(node.children@, 0, max_depth, cur_depth + 1, child_prefix);
        assert forall|k: int|
            0 <= k && k + 1 < seg.len() && (#[trigger] seg[k]).is_repository
                implies seg[k + 1].depth <= seg[k].depth by {
            if k >= 1 {
                assert(seg[k] == inner[k - 1]);
                assert(seg[k + 1] == inner[k]);
            }
        }
    }
}

/// An entry classified as a repository is a traversal leaf: its line is
/// never followed by a line one level deeper, whatever depth budget was
/// left. (In pre-order, an entry's children would be printed directly after
/// it; the next printed entry after a repository is at its level or above.)
pub proof fn lemma_repository_truncates(nodes: Seq<DirNode>, max_depth: int, cur_depth: int, prefix: Seq<char>)
    ensures
        forall|k: int|
            0 <= k && k + 1 < walk_events(nodes, max_depth, cur_depth, prefix).len()
                && (#[trigger] walk_events(nodes, max_depth, cur_depth, prefix)[k]).is_repository
                ==> walk_events(nodes, max_depth, cur_depth, prefix)[k + 1].depth
                <= walk_events(nodes, max_depth, cur_depth, prefix)[k].depth,
{
    lemma_truncates_from(nodes, 0, max_depth, cur_depth, prefix);
}

/// The walker marks exactly the last sibling of each listing: the first
/// event contributed by sibling `i` carries that sibling's name and
/// classification, and its `is_last` bit holds exactly when `i` is the
/// listing's final index.
pub proof fn lemma_sibling_event(nodes: Seq<DirNode>, i: int, max_depth: int, cur_depth: int, prefix: Seq<char>)
    requires
        cur_depth < max_depth,
        0 <= i < nodes.len(),
    ensures
        walk_events_from(nodes, i, max_depth, cur_depth, prefix).len() > 0,
        walk_events_from(nodes, i, max_depth, cur_depth, prefix)[0] == (RenderEvent {
            depth: cur_depth + 1,
            is_last: i == nodes.len() - 1,
            prefix: prefix,
            name: nodes[i].name@,
            is_repository: nodes[i].is_repository,
        }),
{
    let seg = node_events(nodes[i], i == nodes.len() - 1, max_depth, cur_depth, prefix);
    let rest = walk_events_from(nodes, i + 1, max_depth, cur_depth, prefix);
    assert(walk_events_from(nodes, i, max_depth, cur_depth, prefix) == seg + rest);
    assert(seg.len() >= 1);
    assert((seg + rest)[0] == seg[0]);
}

/// The branch glyph of a rendered line sits directly after the ancestor
/// trail, and the two glyphs differ: a line shows the final-branch corner
/// there exactly when its entry was the last sibling of its listing.
pub proof fn lemma_branch_glyph_in_line(e: RenderEvent)
    ensures
        line_of_event(e).subrange(
            e.prefix.len() as int,
            e.prefix.len() + 3int,
        ) == branch_glyph(e.is_last),
        branch_glyph(true) != branch_glyph(false),
{
    reveal_strlit("└──");
    reveal_strlit("├──");
    assert(branch_glyph(true)[0] != branch_glyph(false)[0]);
    assert(line_of_event(e).subrange(e.prefix.len() as int, e.prefix.len() + 3int) =~= branch_glyph(
        e.is_last,
    ));
}

/// An entry whose listing produced no children — in particular one whose
/// directory could not be read, which the walker treats as empty — yields
/// exactly its own line and nothing below it, whatever the depth budget;
/// sibling entries contribute their events independently, so they are
/// rendered in full.
pub proof fn lemma_childless_single_event(node: DirNode, is_last: bool, max_depth: int, cur_depth: int, prefix: Seq<char>)
    requires
        node.children@.len() == 0,
    ensures
        node_events(node, is_last, max_depth, cur_depth, prefix).len() == 1,
        node_events(node, is_last, max_depth, cur_depth, prefix)[0].name == node.name@,
        node_events(node, is_last, max_depth, cur_depth, prefix)[0].is_repository
            == node.is_repository,
{
}

} // verus!
