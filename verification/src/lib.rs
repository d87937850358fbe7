//! Depth-bounded rendering of a directory tree that distinguishes git
//! repositories from plain directories.
//!
//! The library owns the traversal and rendering logic: given the directory
//! entries gathered for a scan root, it computes the box-drawing tree lines
//! — depth cutoff, repository entries kept as leaves, continuation bars and
//! branch corners placed by sibling position — and proves the layout laws
//! that the output obeys. Listing directories, classifying them with git2
//! and printing are left to the thin binary around it.

mod args;
mod laws;
mod node;
mod render;
mod style;

pub use args::parse_dir;
pub use args::RootError;
pub use laws::lemma_branch_glyph_in_line;
pub use laws::lemma_childless_single_event;
pub use laws::lemma_depth_zero;
pub use laws::lemma_line_count;
pub use laws::lemma_prefix_width;
pub use laws::lemma_repository_truncates;
pub use laws::lemma_sibling_event;
pub use laws::visible_count;
pub use laws::visible_count_from;
pub use laws::visible_count_node;
pub use node::DirNode;
pub use render::branch_glyph;
pub use render::line_of_event;
pub use render::lines_of_events;
pub use render::node_events;
pub use render::prefix_extension;
pub use render::render_subtree;
pub use render::render_tree;
pub use render::walk_events;
pub use render::walk_events_from;
pub use render::walk_lines;
pub use render::RenderEvent;
pub use style::format_dir;
pub use style::format_repo;
pub use style::styled_name;
