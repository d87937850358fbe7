use vstd::prelude::*;
use vstd::string::StringExecFns;

use crate::node::DirNode;
use crate::style::format_dir;
use crate::style::format_repo;
use crate::style::styled_name;

verus! {

/// One entry visited by the walker, in descent (pre-order) position: enough
/// information for the renderer to produce the entry's line.
///
/// `depth` counts directory levels below the scan root (the root itself is
/// depth 0, its immediate entries depth 1). `prefix` is the accumulated
/// continuation trail contributed by the entry's ancestors, and `is_last`
/// says whether the entry is the last sibling of its listing.
pub struct RenderEvent {
    pub depth: int,
    pub is_last: bool,
    pub prefix: Seq<char>,
    pub name: Seq<char>,
    pub is_repository: bool,
}

/// The glyph placed directly before an entry's name: a corner for the last
/// sibling of a listing, a tee for every other sibling.
pub open spec fn branch_glyph(is_last: bool) -> Seq<char> {
    if is_last {
        "└──"@
    } else {
        "├──"@
    }
}

/// What an entry contributes to the prefix of its own descendants: blank
/// padding if the entry was the last sibling (nothing continues below it),
/// else a vertical continuation bar, so that later siblings at the entry's
/// level stay visually connected.
pub open spec fn prefix_extension(is_last: bool) -> Seq<char> {
    if is_last {
        "    "@
    } else {
        "│   "@
    }
}

/// The one formatted line an event is rendered as: the ancestor trail, the
/// branch glyph, a separating space, and the styled name.
pub open spec fn line_of_event(e: RenderEvent) -> Seq<char> {
    e.prefix + branch_glyph(e.is_last) + " "@ + styled_name(e.name, e.is_repository)
}

/// The lines of a sequence of render events, one per event, in event order.
pub open spec fn lines_of_events(evs: Seq<RenderEvent>) -> Seq<Seq<char>> {
    Seq::new(evs.len(), |i: int| line_of_event(evs[i]))
}

/// The render events produced, in pre-order, for the entries of one listing
/// starting at sibling index `i`, when the listing sits at `cur_depth` below
/// the scan root and the run's depth bound is `max_depth`.
///
/// A listing at or beyond the depth bound produces nothing; an entry
/// classified as a repository produces its own event but none for its
/// contents.
pub open spec fn walk_events_from(
    nodes: Seq<DirNode>,
    i: int,
    max_depth: int,
    cur_depth: int,
    prefix: Seq<char>,
) -> Seq<RenderEvent>
    decreases max_depth - cur_depth, nodes.len() - i, 1int,
{
    if cur_depth >= max_depth || i < 0 || i >= nodes.len() {
        Seq::empty()
    } else {
        node_events(nodes[i], i == nodes.len() - 1, max_depth, cur_depth, prefix)
            + walk_events_from(nodes, i + 1, max_depth, cur_depth, prefix)
    }
}

/// The render events of a single entry of a listing at `cur_depth`: its own
/// event, followed by the events of its children one level deeper — unless
/// the entry is a repository (a traversal leaf) or the depth budget is
/// exhausted.
pub open spec fn node_events(
    node: DirNode,
    is_last: bool,
    max_depth: int,
    cur_depth: int,
    prefix: Seq<char>,
) -> Seq<RenderEvent>
    decreases max_depth - cur_depth, 0int, 0int,
{
    seq![
        RenderEvent {
            depth: cur_depth + 1,
            is_last: is_last,
            prefix: prefix,
            name: node.name@,
            is_repository: node.is_repository,
        },
    ] + if node.is_repository || cur_depth + 1 >= max_depth {
        Seq::<RenderEvent>::empty()
    } else {
        walk_events_from(node.children@, 0, max_depth, cur_depth + 1, prefix + prefix_extension(is_last))
    }
}

/// All render events of one listing, starting with its first sibling.
pub open spec fn walk_events(
    nodes: Seq<DirNode>,
    max_depth: int,
    cur_depth: int,
    prefix: Seq<char>,
) -> Seq<RenderEvent> {
    walk_events_from(nodes, 0, max_depth, cur_depth, prefix)
}

/// The formatted lines of a scan below the root: one per render event, in
/// event order.
pub open spec fn walk_lines(
    nodes: Seq<DirNode>,
    max_depth: int,
    cur_depth: int,
    prefix: Seq<char>,
) -> Seq<Seq<char>> {
    lines_of_events(walk_events(nodes, max_depth, cur_depth, prefix))
}

proof fn lemma_lines_of_events_add(a: Seq<RenderEvent>, b: Seq<RenderEvent>)
    ensures
        lines_of_events(a + b) == lines_of_events(a) + lines_of_events(b),
{
    assert(lines_of_events(a + b) =~= lines_of_events(a) + lines_of_events(b));
}

/// Renders the entries of one listing and everything visible below them,
/// exactly as the event model prescribes: one line per visited entry, in
/// pre-order, cut off at `max_depth`, repositories kept as leaves.
pub fn render_subtree(
    entries: &Vec<DirNode>,
    max_depth: u32,
    cur_depth: u32,
    prefix: &String,
) -> (lines: Vec<String>)
    ensures
        lines.deep_view() == walk_lines(entries@, max_depth as int, cur_depth as int, prefix@),
    decreases max_depth - cur_depth,
{
    let mut lines: Vec<String> = Vec::new();
    if cur_depth >= max_depth {
        assert(lines.deep_view() =~= walk_lines(
            entries@,
            max_depth as int,
            cur_depth as int,
            prefix@,
        ));
        return lines;
    }
    let ghost md = max_depth as int;
    let ghost cd = cur_depth as int;
    let ghost total = walk_lines(entries@, md, cd, prefix@);
    let n: usize = entries.len();
    let mut i: usize = 0;
    while i < n
        invariant
            i <= n,
            n == entries@.len(),
            cur_depth < max_depth,
            md == max_depth as int,
            cd == cur_depth as int,
            total == walk_lines(entries@, md, cd, prefix@),
            lines.deep_view() + lines_of_events(
                walk_events_from(entries@, i as int, md, cd, prefix@),
            ) =~= total,
        decreases n - i,
    {
        let entry = &entries[i];
        let is_last = i == n - 1;
        let marker: &str = if is_last {
            "└──"
        } else {
            "├──"
        };
        let styled: String = if entry.is_repository {
            format_repo(entry.name.as_str())
        } else {
            format_dir(entry.name.as_str())
        };
        let mut line: String = prefix.clone();
        line.append(marker);
        line.append(" ");
        line.append(styled.as_str());
        let ghost ev = RenderEvent {
            depth: cd + 1,
            is_last: is_last,
            prefix: prefix@,
            name: entry.name@,
            is_repository: entry.is_repository,
        };
        assert(marker@ == branch_glyph(is_last));
        assert(line@ == line_of_event(ev));
        let ghost before_push = lines.deep_view();
        lines.push(line);
        assert(lines.deep_view() =~= before_push + seq![line_of_event(ev)]);
        let ghost child_events = if entry.is_repository || cd + 1 >= md {
            Seq::<RenderEvent>::empty()
        } else {
            walk_events_from(entry.children@, 0, md, cd + 1, prefix@ + prefix_extension(is_last))
        };
        if !entry.is_repository && cur_depth + 1 < max_depth {
            let next_pre: &str = if is_last {
                "    "
            } else {
                "│   "
            };
            let mut child_prefix: String = prefix.clone();
            child_prefix.append(next_pre);
            assert(child_prefix@ == prefix@ + prefix_extension(is_last));
            let mut child_lines = render_subtree(&entry.children, max_depth, cur_depth + 1, &child_prefix);
            assert(child_lines.deep_view() == lines_of_events(child_events));
            let ghost before_append = lines.deep_view();
            let ghost child_snap = child_lines.deep_view();
            lines.append(&mut child_lines);
            assert(lines.deep_view() =~= before_append + child_snap);
        }
        proof {
            let nodes = entries@;
            let seg = node_events(nodes[i as int], i == n - 1, md, cd, prefix@);
            assert(seg =~= seq![ev] + child_events);
            assert(walk_events_from(nodes, i as int, md, cd, prefix@) == seg
                + walk_events_from(nodes, i as int + 1, md, cd, prefix@));
            lemma_lines_of_events_add(seq![ev], child_events);
            lemma_lines_of_events_add(seg, walk_events_from(nodes, i as int + 1, md, cd, prefix@));
            assert(lines_of_events(seq![ev]) =~= seq![line_of_event(ev)]);
            assert(lines.deep_view() =~= before_push + seq![line_of_event(ev)] + lines_of_events(
                child_events,
            ));
            assert(lines.deep_view() + lines_of_events(
                walk_events_from(nodes, i as int + 1, md, cd, prefix@),
            ) =~= total);
        }
        i += 1;
    }
    proof {
        assert(lines_of_events(walk_events_from(entries@, n as int, md, cd, prefix@))
            =~= Seq::<Seq<char>>::empty());
        assert(lines.deep_view() =~= total);
    }
    lines
}

/// Renders the whole scan: the header line showing the root path itself,
/// followed by one line per directory entry visible within the depth bound.
pub fn render_tree(path: &String, max_depth: u32, entries: &Vec<DirNode>) -> (lines: Vec<String>)
    ensures
        lines.deep_view() == seq![path@] + walk_lines(
            entries@,
            max_depth as int,
            0,
            Seq::<char>::empty(),
        ),
{
    let mut lines: Vec<String> = Vec::new();
    lines.push(path.clone());
    let empty_prefix = String::new();
    let ghost head = lines.deep_view();
    let mut rest = render_subtree(entries, max_depth, 0, &empty_prefix);
    let ghost rest_snap = rest.deep_view();
    lines.append(&mut rest);
    proof {
        assert(head =~= seq![path@]);
        assert(lines.deep_view() =~= head + rest_snap);
    }
    lines
}

} // verus!
