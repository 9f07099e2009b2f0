//! The result model of a match: what a successful match reports, and what a
//! placeholder was bound to.

use vstd::prelude::*;

use crate::rule::ResolvedRule;
use crate::syntax::{seq_extends, FileSpan, Node, Token};

verus! {

/// Represents a `$var` placeholder name in a query.
#[derive(Debug)]
pub struct Var(pub String);

/// Information about a placeholder bound in a match.
pub struct PlaceholderMatch {
    /// The subtree the placeholder matched. It is not set when the
    /// placeholder captured a run of raw tokens within a macro call's token
    /// tree; the search driver recurses into it when it is set.
    pub node: Option<Node>,
    /// The captured source range, in original file coordinates.
    pub range: FileSpan,
    /// Further matches found within `node`, filled in by the search driver.
    pub inner_matches: SsrMatches,
}

/// All matches the search driver accumulated; nested matches live inside the
/// placeholder bindings of their enclosing match.
pub struct SsrMatches {
    pub matches: Vec<Match>,
}

impl Default for SsrMatches {
    /// No matches.
    fn default() -> (r: SsrMatches)
        ensures
            r.matches@.len() == 0,
    {
        SsrMatches { matches: Vec::new() }
    }
}

/// Information about a match that was found.
pub struct Match {
    /// The matched node's range, in original file coordinates.
    pub range: FileSpan,
    /// A copy of the matched node's subtree.
    pub matched_node: Node,
    /// Each placeholder's binding, appended as it is recorded; a later entry
    /// for a name shadows an earlier one, and with a well-formed rule each
    /// name is recorded at most once.
    pub placeholder_values: Vec<(Var, PlaceholderMatch)>,
    /// Comment tokens encountered and skipped while matching.
    pub ignored_comments: Vec<Token>,
    /// The index of the rule that produced this match.
    pub rule_index: usize,
    /// The depth of the matched node: its number of ancestors, as supplied by
    /// the search driver.
    pub depth: usize,
    /// For each path in the template (keyed by its range within the
    /// template), the module-qualified path it must be rendered as at the
    /// match site. Populated only when the rule has a template.
    pub rendered_template_paths: Vec<(FileSpan, String)>,
}

/// Whether `name` is the name of one of the rule's placeholders.
pub open spec fn spec_is_placeholder_name(rule: ResolvedRule, name: Seq<char>) -> bool {
    exists|k: int|
        0 <= k < rule.pattern.placeholders_by_stand_in@.len()
            && rule.pattern.placeholders_by_stand_in@[k].1.ident@ == name
}

/// Every binding appended between `a` and `b` bears a placeholder's name.
pub open spec fn new_bindings_named(
    rule: ResolvedRule,
    a: Seq<(Var, PlaceholderMatch)>,
    b: Seq<(Var, PlaceholderMatch)>,
) -> bool {
    forall|i: int|
        a.len() <= i < b.len() ==> spec_is_placeholder_name(rule, (#[trigger] b[i]).0.0@)
}

pub broadcast proof fn lemma_auto_new_bindings_trans(
    rule: ResolvedRule,
    a: Seq<(Var, PlaceholderMatch)>,
    b: Seq<(Var, PlaceholderMatch)>,
    c: Seq<(Var, PlaceholderMatch)>,
)
    ensures
        #![trigger new_bindings_named(rule, a, b), new_bindings_named(rule, b, c)]
        (new_bindings_named(rule, a, b) && new_bindings_named(rule, b, c) && seq_extends(a, b)
            && seq_extends(b, c)) ==> new_bindings_named(rule, a, c),
{
    if new_bindings_named(rule, a, b) && new_bindings_named(rule, b, c) && seq_extends(a, b)
        && seq_extends(b, c) {
        assert forall|i: int|
            a.len() <= i < c.len() implies spec_is_placeholder_name(rule, (#[trigger] c[i]).0.0@) by {
            if i < b.len() {
                assert(c[i] == b[i]);
            }
        }
    }
}

} // verus!
