//! The resolved search rule the matcher consumes: the pattern tree, the
//! placeholder table, and the optional template with its pre-resolved paths.
//!
//! A rule of this shape is produced by an external parsing and resolution
//! stage. Path and call nodes of the pattern carry the pre-recorded
//! resolution answers directly (see `crate::syntax::Node`); the template's
//! resolved paths are listed here by the range that identifies each path
//! node within the template.

use vstd::prelude::*;

use crate::syntax::{FileSpan, Node, PathResolution, SyntaxKind};

verus! {

/// The syntactic class a "kind" constraint demands of a candidate node.
#[derive(Clone, Copy, Debug, PartialEq, Eq, Structural)]
pub enum NodeKind {
    Literal,
}

impl NodeKind {
    /// Whether a candidate node is of this class.
    pub open spec fn spec_matches_node(self, code: Node) -> bool {
        match self {
            NodeKind::Literal => code.kind == SyntaxKind::Literal,
        }
    }
}

/// A condition a placeholder imposes on the candidate subtree it would bind.
#[derive(Debug)]
pub enum Constraint {
    /// The candidate must be of the given syntactic class.
    Kind(NodeKind),
    /// The candidate must not satisfy the nested constraint.
    Not(Box<Constraint>),
}

/// Whether `code` satisfies the constraint.
pub open spec fn spec_constraint_ok(c: Constraint, code: Node) -> bool
    decreases c,
{
    match c {
        Constraint::Kind(k) => k.spec_matches_node(code),
        Constraint::Not(sub) => !spec_constraint_ok(*sub, code),
    }
}

/// Whether `code` satisfies every constraint of `cs` from index `i` on.
pub open spec fn spec_constraints_ok(cs: Seq<Constraint>, i: int, code: Node) -> bool
    decreases (if i <= cs.len() { cs.len() - i } else { 0int }),
{
    if 0 <= i < cs.len() {
        spec_constraint_ok(cs[i], code) && spec_constraints_ok(cs, i + 1, code)
    } else {
        true
    }
}

/// A named wildcard of the pattern: its name and the constraints a candidate
/// subtree must satisfy before the placeholder binds to it.
#[derive(Debug)]
pub struct Placeholder {
    pub ident: String,
    pub constraints: Vec<Constraint>,
}

/// The placeholder the table maps `name` to, if any: the first entry whose
/// stand-in name equals it.
pub open spec fn spec_placeholder_lookup(
    tbl: Seq<(String, Placeholder)>,
    i: int,
    name: Seq<char>,
) -> Option<Placeholder>
    decreases (if i <= tbl.len() { tbl.len() - i } else { 0int }),
{
    if 0 <= i < tbl.len() {
        if tbl[i].0@ == name {
            Some(tbl[i].1)
        } else {
            spec_placeholder_lookup(tbl, i + 1, name)
        }
    } else {
        None
    }
}

pub fn placeholder_lookup<'a>(tbl: &'a Vec<(String, Placeholder)>, i: usize, name: &String) -> (r:
    Option<&'a Placeholder>)
    ensures
        match r {
            Some(p) => spec_placeholder_lookup(tbl@, i as int, name@) == Some(*p),
            None => spec_placeholder_lookup(tbl@, i as int, name@) is None,
        },
    decreases (if i <= tbl.len() { tbl@.len() - i } else { 0int }),
{
    if i < tbl.len() {
        if tbl[i].0 == *name {
            Some(&tbl[i].1)
        } else {
            placeholder_lookup(tbl, i + 1, name)
        }
    } else {
        None
    }
}

/// A path node of the template, identified by its range within the template,
/// together with what the resolution stage recorded it as referring to.
#[derive(Clone, Copy, Debug, PartialEq, Eq, Structural)]
pub struct TemplatePath {
    pub range: FileSpan,
    pub resolution: PathResolution,
}

/// A pattern or template tree after parsing and resolution.
pub struct ResolvedPattern {
    /// The tree itself; placeholders appear as identifier tokens whose text
    /// is listed in `placeholders_by_stand_in`.
    pub node: Node,
    /// Placeholder stand-in names, each with its placeholder.
    pub placeholders_by_stand_in: Vec<(String, Placeholder)>,
    /// The template's pre-resolved paths; empty for a search pattern.
    pub paths: Vec<TemplatePath>,
}

impl ResolvedPattern {
    /// Distinct path nodes of a template are listed under distinct ranges.
    pub open spec fn wf(self) -> bool {
        forall|i: int, j: int|
            0 <= i < j < self.paths@.len() ==> self.paths@[i].range != self.paths@[j].range
    }
}

/// A whole search rule: its index within the search, the pattern, and the
/// optional replacement template.
pub struct ResolvedRule {
    pub index: usize,
    pub pattern: ResolvedPattern,
    pub template: Option<ResolvedPattern>,
}

impl ResolvedRule {
    pub open spec fn wf(self) -> bool {
        &&& self.pattern.wf()
        &&& match self.template {
            Some(t) => t.wf(),
            None => true,
        }
    }
}

} // verus!
