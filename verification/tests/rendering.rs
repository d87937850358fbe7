use repotree::render_subtree;
use repotree::render_tree;
use repotree::DirNode;

fn dim(s: &str) -> String {
    format!("\u{1b}[2m{}\u{1b}[0m", s)
}

fn green(s: &str) -> String {
    format!("\u{1b}[32m{}\u{1b}[39m", s)
}

fn plain(name: &str, children: Vec<DirNode>) -> DirNode {
    DirNode::plain(String::from(name), children)
}

fn repo(name: &str) -> DirNode {
    DirNode::repository(String::from(name))
}

#[test]
fn header_only_when_depth_zero() {
    let entries = vec![plain("a", vec![]), repo("b")];
    let lines = render_tree(&String::from("R"), 0, &entries);
    assert_eq!(lines, vec![String::from("R")]);
}

#[test]
fn example_tree_depth_two() {
    let entries = vec![plain("a", vec![plain("x", vec![])]), repo("b")];
    let lines = render_tree(&String::from("R"), 2, &entries);
    assert_eq!(
        lines,
        vec![
            String::from("R"),
            format!("├── {}", dim("a")),
            format!("│   └── {}", dim("x")),
            format!("└── {}", green("b")),
        ]
    );
}

#[test]
fn example_tree_depth_one() {
    let entries = vec![plain("a", vec![plain("x", vec![])]), repo("b")];
    let lines = render_tree(&String::from("R"), 1, &entries);
    assert_eq!(
        lines,
        vec![
            String::from("R"),
            format!("├── {}", dim("a")),
            format!("└── {}", green("b")),
        ]
    );
}

#[test]
fn line_count_matches_visible_entries() {
    // Five directory entries are reachable within depth 3: a, a/x, a/x/y, b, c.
    // b is a repository, so nothing below it counts; c's listing is empty.
    let entries = vec![
        plain("a", vec![plain("x", vec![plain("y", vec![])])]),
        repo("b"),
        plain("c", vec![]),
    ];
    let lines = render_tree(&String::from("R"), 3, &entries);
    assert_eq!(lines.len() - 1, 5);
}

#[test]
fn repository_children_not_rendered() {
    // Even if repository contents were handed to the renderer, a repository
    // is a leaf: nothing one level deeper follows it.
    let mut b = repo("b");
    b.children = vec![plain("hidden", vec![])];
    let entries = vec![b, plain("c", vec![])];
    let lines = render_tree(&String::from("R"), 3, &entries);
    assert_eq!(
        lines,
        vec![
            String::from("R"),
            format!("├── {}", green("b")),
            format!("└── {}", dim("c")),
        ]
    );
}

#[test]
fn last_sibling_gets_corner_glyph() {
    let entries = vec![plain("a", vec![]), plain("b", vec![]), plain("c", vec![])];
    let lines = render_tree(&String::from("R"), 1, &entries);
    assert_eq!(
        lines,
        vec![
            String::from("R"),
            format!("├── {}", dim("a")),
            format!("├── {}", dim("b")),
            format!("└── {}", dim("c")),
        ]
    );
}

#[test]
fn unreadable_sibling_still_rendered() {
    // `a` stands for a directory whose listing failed: the walker hands it
    // an empty listing, it renders as a single line with no children and no
    // diagnostic, and its sibling `b` is still rendered in full.
    let entries = vec![
        plain("a", vec![]),
        plain("b", vec![plain("c", vec![])]),
    ];
    let lines = render_tree(&String::from("R"), 3, &entries);
    assert_eq!(
        lines,
        vec![
            String::from("R"),
            format!("├── {}", dim("a")),
            format!("└── {}", dim("b")),
            format!("    └── {}", dim("c")),
        ]
    );
}

#[test]
fn depth_cutoff_stops_descent() {
    let entries = vec![plain("a", vec![plain("b", vec![plain("c", vec![])])])];
    let lines = render_tree(&String::from("R"), 2, &entries);
    assert_eq!(
        lines,
        vec![
            String::from("R"),
            format!("└── {}", dim("a")),
            format!("    └── {}", dim("b")),
        ]
    );
}

#[test]
fn subtree_lines_start_with_given_prefix() {
    let entries = vec![plain("a", vec![]), repo("b")];
    let lines = render_subtree(&entries, 1, 0, &String::from(">>"));
    assert_eq!(
        lines,
        vec![
            format!(">>├── {}", dim("a")),
            format!(">>└── {}", green("b")),
        ]
    );
}

#[test]
fn continuation_bar_under_open_sibling() {
    // `a` is not the last sibling, so its descendants keep a vertical bar
    // in their prefix; `c` is last, so its descendants get blank padding.
    let entries = vec![
        plain("a", vec![plain("x", vec![])]),
        plain("c", vec![plain("y", vec![])]),
    ];
    let lines = render_tree(&String::from("R"), 2, &entries);
    assert_eq!(
        lines,
        vec![
            String::from("R"),
            format!("├── {}", dim("a")),
            format!("│   └── {}", dim("x")),
            format!("└── {}", dim("c")),
            format!("    └── {}", dim("y")),
        ]
    );
}
