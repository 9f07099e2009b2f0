//! Matching a resolved search pattern against a candidate node, recording
//! placeholder bindings in the process.
//!
//! The executable matcher runs in two phases over the same traversal: a first,
//! non-recording pass that only decides, and, on success, a second pass that
//! builds the `Match`. What the verdict is, for either phase, is stated by the
//! `spec_match_*` functions below, which every matcher function is proved to
//! implement exactly.

use vstd::prelude::*;
use vstd::string::StringExecFns;

use crate::rule::{
    placeholder_lookup, spec_constraint_ok, spec_constraints_ok, spec_placeholder_lookup,
    Constraint, NodeKind, Placeholder, ResolvedPattern, ResolvedRule, TemplatePath,
};
pub use crate::bindings::{
    new_bindings_named, spec_is_placeholder_name, Match, PlaceholderMatch, SsrMatches, Var,
};
use crate::syntax::{
    elem_first_token, seq_extends, elems_size_from, find_child_of_kind, is_closing_token, is_trivia,
    next_node_child, next_non_trivia, node_eq, node_size, spec_elem_first_token,
    spec_find_child_of_kind, spec_is_closing_token, spec_is_trivia, spec_next_node_child,
    spec_next_non_trivia, Element, FileSpan, Node, PathResolution, SyntaxKind, TextSpan, Token,
};

verus! {

broadcast use
    crate::syntax::group_tree_size,
    crate::syntax::group_tree_bounds,
    crate::syntax::lemma_auto_seq_extends_trans,
    crate::bindings::lemma_auto_new_bindings_trans,
;

/// A human-readable explanation of a failed match attempt.
#[derive(Debug)]
pub struct MatchFailureReason {
    pub reason: String,
}

/// An "error" indicating that matching failed. The reason is present exactly
/// when fail reasons were being recorded for the attempt.
pub struct MatchFailed {
    pub reason: Option<String>,
}

impl MatchFailed {
    /// The explanation to surface to the user, when one was recorded.
    pub fn failure_reason(self) -> (r: Option<MatchFailureReason>)
        ensures
            match r {
                Some(fr) => self.reason matches Some(s) && fr.reason == s,
                None => self.reason is None,
            },
    {
        match self.reason {
            Some(s) => Some(MatchFailureReason { reason: s }),
            None => None,
        }
    }
}

/// Whether fail reasons are recorded during a match attempt. Threaded through
/// the matcher as an explicit value, so that concurrent searches cannot race
/// on shared state: the scope that the flag holds for is the lifetime of the
/// value.
#[derive(Clone, Copy, Debug, PartialEq, Eq, Structural)]
pub struct MatchDebug {
    pub active: bool,
}

/// Establishes the scoped debug flag for one match attempt: reasons for
/// failed matches are formatted only while the returned value is passed in.
pub fn record_match_fails_reasons_scope(debug_active: bool) -> (r: MatchDebug)
    ensures
        r.active == debug_active,
{
    MatchDebug { active: debug_active }
}

/// Whether fail reasons are being recorded for this attempt.
pub fn recording_match_fail_reasons(debug: &MatchDebug) -> (r: bool)
    ensures
        r == debug.active,
{
    debug.active
}

/// What the surroundings of the candidate node look like to the semantic
/// services: its ancestor count, its enclosing module, and the
/// module-qualified path each definition is visible under at the match site.
pub struct MatchContext {
    pub depth: usize,
    pub module: Option<u64>,
    pub use_paths: Vec<(u64, String)>,
}

/// Which phase of matching is being performed. Two phases are used because
/// most attempted matches fail, and the second phase's work — building the
/// `Match` — is deferred to the rare success. During the first phase
/// `recording` is false and `the_match` is left untouched.
pub struct Phase {
    pub recording: bool,
    pub the_match: Match,
}

/// The inputs every matching decision may depend on: the rule, the permitted
/// range, and whether this is the recording (second) phase.
pub struct Cx {
    pub rule: ResolvedRule,
    pub restrict_range: Option<FileSpan>,
    pub second: bool,
}

/// Whether `range` lies within the permitted range, if one was supplied.
pub open spec fn spec_range_ok(restrict: Option<FileSpan>, range: FileSpan) -> bool {
    match restrict {
        Some(r) => r.file_id == range.file_id && r.span.spec_contains_span(range.span),
        None => true,
    }
}

/// If the element contains nothing but an identifier token, that token.
pub open spec fn spec_only_ident(e: Element) -> Option<Token>
    decreases e,
{
    match e {
        Element::Token(t) => if t.kind == SyntaxKind::Ident {
            Some(t)
        } else {
            None
        },
        Element::Node(n) => if n.children@.len() == 1 {
            spec_only_ident(n.children@[0])
        } else {
            None
        },
    }
}

/// The placeholder the element stands in for, if it reduces to an identifier
/// listed in the rule's placeholder table.
pub open spec fn spec_get_placeholder(rule: ResolvedRule, e: Element) -> Option<Placeholder> {
    match spec_only_ident(e) {
        Some(t) => spec_placeholder_lookup(rule.pattern.placeholders_by_stand_in@, 0, t.text@),
        None => None,
    }
}

/// The node a known node element carries.
pub open spec fn elem_node(e: Element) -> Node {
    match e {
        Element::Node(n) => n,
        Element::Token(_) => arbitrary(),
    }
}

pub open spec fn opt_node_size(c: Option<Node>) -> int {
    match c {
        Some(n) => node_size(n),
        None => 0,
    }
}

/// How many pattern elements remain from position `i`: the third component of
/// the matcher's termination measure.
pub open spec fn pat_rem(ps: Seq<Element>, i: int) -> int {
    if 0 <= i <= ps.len() {
        ps.len() - i
    } else {
        0
    }
}

/// One step of the token comparator: matching the non-trivia code token `t`
/// advances the pattern from position `pi` to the returned position, or fails.
/// Trivia is accepted without consuming pattern; a comma in the code just
/// before a closing pattern token is accepted the same way; a comma in the
/// pattern just before a closing code token is skipped; otherwise the next
/// pattern element must be a token of equal kind and text.
pub open spec fn spec_token_step(ps: Seq<Element>, pi: int, t: Token) -> Option<int> {
    if spec_is_trivia(t.kind) {
        Some(pi)
    } else {
        let pn = spec_next_non_trivia(ps, pi);
        let peek: Option<Token> = if pn < ps.len() {
            match ps[pn] {
                Element::Token(p) => Some(p),
                Element::Node(_) => None,
            }
        } else {
            None
        };
        if peek matches Some(p) && t.kind == SyntaxKind::Comma && spec_is_closing_token(p.kind) {
            Some(pi)
        } else {
            let pi2 = if peek matches Some(p) && p.kind == SyntaxKind::Comma
                && spec_is_closing_token(t.kind) {
                pn + 1
            } else {
                pi
            };
            let pn2 = spec_next_non_trivia(ps, pi2);
            if pn2 < ps.len() {
                match ps[pn2] {
                    Element::Token(p) => if p.kind == t.kind && p.text@ == t.text@ {
                        Some(pn2 + 1)
                    } else {
                        None
                    },
                    Element::Node(_) => None,
                }
            } else {
                None
            }
        }
    }
}

/// The name of a record field: the identifier its first child reduces to.
pub open spec fn spec_field_name(n: Node) -> Option<Token> {
    if n.children@.len() > 0 {
        spec_only_ident(n.children@[0])
    } else {
        None
    }
}

/// The field-index entry the child at `i` contributes: its name and index if
/// it is a named record field, nothing otherwise.
pub open spec fn spec_field_entry(cs: Seq<Element>, i: int) -> Seq<(Seq<char>, int)> {
    match cs[i] {
        Element::Node(n) => if n.kind == SyntaxKind::RecordExprField {
            match spec_field_name(n) {
                Some(t) => seq![(t.text@, i)],
                None => Seq::empty(),
            }
        } else {
            Seq::empty()
        },
        Element::Token(_) => Seq::empty(),
    }
}

/// The candidate field list indexed by field name: one entry per named
/// record-field child among the first `i` children, in order.
pub open spec fn spec_fields_upto(cs: Seq<Element>, i: int) -> Seq<(Seq<char>, int)>
    decreases i,
{
    if i <= 0 {
        Seq::empty()
    } else {
        spec_fields_upto(cs, i - 1) + spec_field_entry(cs, i - 1)
    }
}

/// The last entry of the field index with the given name; the last, because a
/// later field of the same name shadows an earlier one in the index.
pub open spec fn spec_field_find(fl: Seq<(Seq<char>, int)>, name: Seq<char>) -> Option<int>
    decreases fl.len(),
{
    if fl.len() == 0 {
        None
    } else if fl.last().0 == name {
        Some(fl.last().1)
    } else {
        spec_field_find(fl.drop_last(), name)
    }
}

/// Every indexed field name has been consumed by some pattern field.
pub open spec fn spec_all_consumed(fl: Seq<(Seq<char>, int)>, consumed: Seq<Seq<char>>) -> bool {
    forall|j: int| 0 <= j < fl.len() ==> consumed.contains(fl[j].0)
}

/// Whether the pattern node matches the candidate node. This is the node
/// dispatch: a pattern reducing to a placeholder binds (subject to its
/// constraints, and, in the recording phase, to the range restriction); a
/// call-style pattern with a pre-resolved target may match a method call;
/// otherwise the kinds must agree and the kind-specific matcher decides.
pub open spec fn spec_match_node(cx: Cx, p: Node, c: Node) -> bool
    decreases node_size(c), 5int, 0int,
{
    match spec_get_placeholder(cx.rule, Element::Node(p)) {
        Some(ph) => spec_constraints_ok(ph.constraints@, 0, c) && (cx.second ==> spec_range_ok(
            cx.restrict_range,
            c.range,
        )),
        None => {
            if p.resolved_call is Some && p.kind == SyntaxKind::CallExpr && c.kind
                == SyntaxKind::MethodCallExpr {
                spec_match_ufcs(cx, p, c)
            } else if p.kind != c.kind {
                false
            } else if c.kind == SyntaxKind::RecordExprFieldList {
                spec_match_record_field_list(cx, p, c)
            } else if c.kind == SyntaxKind::TokenTree {
                spec_match_tt(cx, p.children@, 0, c.children@, 0)
            } else if c.kind == SyntaxKind::Path {
                spec_match_path(cx, p, c)
            } else {
                spec_match_seq(cx, p.children@, 0, c.children@, 0)
            }
        },
    }
}

/// Ordered alignment of the pattern elements from `pi` against the candidate
/// elements from `ci`, skipping candidate trivia, with the token comparator's
/// trailing-separator tolerances. Leftovers on either side fail.
pub open spec fn spec_match_seq(cx: Cx, ps: Seq<Element>, pi: int, cs: Seq<Element>, ci: int) -> bool
    decreases elems_size_from(cs, ci), 7int, 0int,
{
    if 0 <= ci {
        let cn = spec_next_non_trivia(cs, ci);
        if cn >= cs.len() {
            spec_next_non_trivia(ps, pi) >= ps.len()
        } else {
            match cs[cn] {
                Element::Token(t) => match spec_token_step(ps, pi, t) {
                    Some(pi2) => spec_match_seq(cx, ps, pi2, cs, cn + 1),
                    None => false,
                },
                Element::Node(n) => {
                    let pn = spec_next_non_trivia(ps, pi);
                    if pn < ps.len() {
                        match ps[pn] {
                            Element::Node(pnode) => spec_match_node(cx, pnode, n) && spec_match_seq(
                                cx,
                                ps,
                                pn + 1,
                                cs,
                                cn + 1,
                            ),
                            Element::Token(_) => false,
                        }
                    } else {
                        false
                    }
                },
            }
        }
    } else {
        false
    }
}

/// A pair of optional nodes, as a typed accessor hands them out: both absent
/// is a (vacuous) match, one absent is a failure, both present compare.
pub open spec fn spec_match_opt(cx: Cx, p: Option<Node>, c: Option<Node>) -> bool
    decreases opt_node_size(c), 5int, 1int,
{
    match p {
        Some(pn) => match c {
            Some(cn) => spec_match_node(cx, pn, cn),
            None => false,
        },
        None => match c {
            Some(_) => false,
            None => true,
        },
    }
}

/// Paths with a pre-resolved target match by target: the segments' type
/// argument and parameter lists still match structurally, and in the
/// recording phase the candidate must resolve to the pattern's target
/// (failure to resolve is a hard failure). Paths without a recorded target
/// match structurally.
pub open spec fn spec_match_path(cx: Cx, p: Node, c: Node) -> bool
    decreases node_size(c), 4int, 0int,
{
    match p.resolution {
        Some(pres) => {
            let pseg = spec_find_child_of_kind(p.children@, 0, SyntaxKind::PathSegment);
            let cseg = spec_find_child_of_kind(c.children@, 0, SyntaxKind::PathSegment);
            let segs_ok = match pseg {
                Some(psg) => match cseg {
                    Some(csg) => spec_match_opt(
                        cx,
                        spec_find_child_of_kind(psg.children@, 0, SyntaxKind::TypeArgList),
                        spec_find_child_of_kind(csg.children@, 0, SyntaxKind::TypeArgList),
                    ) && spec_match_opt(
                        cx,
                        spec_find_child_of_kind(psg.children@, 0, SyntaxKind::ParamList),
                        spec_find_child_of_kind(csg.children@, 0, SyntaxKind::ParamList),
                    ),
                    None => true,
                },
                None => true,
            };
            segs_ok && (cx.second ==> match c.resolution {
                Some(cres) => cres == pres,
                None => false,
            })
        },
        None => spec_match_seq(cx, p.children@, 0, c.children@, 0),
    }
}

/// Call-style equivalence: a call-expression pattern with a pre-resolved
/// target matches a method-call candidate when the candidate resolves to the
/// same function, the pattern's first argument matches the candidate's
/// receiver (its first child subtree), and the remaining arguments match
/// pairwise.
pub open spec fn spec_match_ufcs(cx: Cx, p: Node, c: Node) -> bool
    decreases node_size(c), 4int, 0int,
{
    match c.resolved_call {
        None => false,
        Some(cf) => p.resolved_call == Some(cf) && (match spec_find_child_of_kind(
            p.children@,
            0,
            SyntaxKind::ArgList,
        ) {
            None => false,
            Some(pargs) => {
                let pa0 = spec_next_node_child(pargs.children@, 0);
                let popt = if pa0 < pargs.children@.len() {
                    Some(elem_node(pargs.children@[pa0]))
                } else {
                    None
                };
                let ri = spec_next_node_child(c.children@, 0);
                let copt = if ri < c.children@.len() {
                    Some(elem_node(c.children@[ri]))
                } else {
                    None
                };
                spec_match_opt(cx, popt, copt) && (match spec_find_child_of_kind(
                    c.children@,
                    0,
                    SyntaxKind::ArgList,
                ) {
                    None => false,
                    Some(cargs) => spec_match_args(cx, pargs.children@, pa0 + 1, cargs.children@, 0),
                })
            },
        }),
    }
}

/// Pairwise matching of the remaining arguments: the node children of the two
/// argument lists, zipped; differing counts fail.
pub open spec fn spec_match_args(cx: Cx, ps: Seq<Element>, pi: int, cs: Seq<Element>, ci: int) -> bool
    decreases elems_size_from(cs, ci), 6int, 0int,
{
    if 0 <= pi && 0 <= ci {
        let pn = spec_next_node_child(ps, pi);
        let cn = spec_next_node_child(cs, ci);
        if pn >= ps.len() && cn >= cs.len() {
            true
        } else if pn >= ps.len() || cn >= cs.len() {
            false
        } else {
            spec_match_opt(cx, Some(elem_node(ps[pn])), Some(elem_node(cs[cn])))
                && spec_match_args(cx, ps, pn + 1, cs, cn + 1)
        }
    } else {
        false
    }
}

/// Record field lists match independent of field order: the candidate's named
/// fields are indexed by name; each pattern field consumes the candidate
/// field of its name; leftover candidate fields fail. A placeholder in a
/// pattern field's name position abandons order independence for the whole
/// list in favour of ordered matching.
pub open spec fn spec_match_record_field_list(cx: Cx, p: Node, c: Node) -> bool
    decreases node_size(c), 4int, 0int,
{
    spec_match_rfl_fields(
        cx,
        p.children@,
        0,
        c.children@,
        spec_fields_upto(c.children@, c.children@.len() as int),
        Seq::empty(),
    )
}

pub open spec fn spec_match_rfl_fields(
    cx: Cx,
    ps: Seq<Element>,
    pi: int,
    cs: Seq<Element>,
    fl: Seq<(Seq<char>, int)>,
    consumed: Seq<Seq<char>>,
) -> bool
    decreases elems_size_from(cs, 0), 7int, pat_rem(ps, pi),
{
    if 0 <= pi < ps.len() {
        match ps[pi] {
            Element::Node(pf) => {
                if pf.children@.len() > 0 {
                    let name_el = pf.children@[0];
                    if spec_get_placeholder(cx.rule, name_el) is Some {
                        spec_match_seq(cx, ps, 0, cs, 0)
                    } else {
                        match spec_only_ident(name_el) {
                            Some(t) => {
                                if consumed.contains(t.text@) {
                                    false
                                } else {
                                    match spec_field_find(fl, t.text@) {
                                        None => false,
                                        Some(idx) => if 0 <= idx < cs.len() && cs[idx] is Node {
                                            spec_match_node(cx, pf, elem_node(cs[idx]))
                                                && spec_match_rfl_fields(
                                                cx,
                                                ps,
                                                pi + 1,
                                                cs,
                                                fl,
                                                consumed.push(t.text@),
                                            )
                                        } else {
                                            false
                                        },
                                    }
                                }
                            },
                            None => spec_match_rfl_fields(cx, ps, pi + 1, cs, fl, consumed),
                        }
                    }
                } else {
                    spec_match_rfl_fields(cx, ps, pi + 1, cs, fl, consumed)
                }
            },
            Element::Token(_) => spec_match_rfl_fields(cx, ps, pi + 1, cs, fl, consumed),
        }
    } else {
        spec_all_consumed(fl, consumed)
    }
}

/// Matching inside an unexpanded macro's token tree: tokens and bracketed
/// groups stream past; a placeholder greedily captures a run of elements up
/// to (not including) the first element whose text (or whose first token's
/// text) equals the next literal pattern token.
pub open spec fn spec_match_tt(cx: Cx, ps: Seq<Element>, pi: int, cs: Seq<Element>, ci: int) -> bool
    decreases elems_size_from(cs, ci), 7int, 0int,
{
    if 0 <= ci < cs.len() {
        let pn = spec_next_non_trivia(ps, pi);
        if pn < ps.len() && spec_get_placeholder(cx.rule, ps[pn]) is Some {
            let pi2 = pn + 1;
            let pn2 = spec_next_non_trivia(ps, pi2);
            let npt: Option<Seq<char>> = if pn2 < ps.len() {
                match spec_elem_first_token(ps[pn2]) {
                    Some(t) => Some(t.text@),
                    None => None,
                }
            } else {
                None
            };
            spec_tt_scan(cx, ps, pi2, cs, ci + 1, npt)
        } else {
            match cs[ci] {
                Element::Token(t) => match spec_token_step(ps, pi, t) {
                    Some(pi3) => spec_match_tt(cx, ps, pi3, cs, ci + 1),
                    None => false,
                },
                Element::Node(n) => {
                    if pn < ps.len() {
                        match ps[pn] {
                            Element::Node(pnode) => spec_match_tt(cx, pnode.children@, 0, n.children@, 0)
                                && spec_match_tt(cx, ps, pn + 1, cs, ci + 1),
                            Element::Token(_) => false,
                        }
                    } else {
                        false
                    }
                },
            }
        }
    } else {
        spec_next_non_trivia(ps, pi) >= ps.len()
    }
}

/// The scan that ends a placeholder's capture: candidate elements are
/// consumed into the capture until one hits the next pattern token's text;
/// a bracketed group that hits recurses into token-tree matching against the
/// pattern's corresponding group. A capture running to the end of the stream
/// succeeds exactly when the pattern, too, is exhausted.
pub open spec fn spec_tt_scan(
    cx: Cx,
    ps: Seq<Element>,
    pi: int,
    cs: Seq<Element>,
    ci: int,
    npt: Option<Seq<char>>,
) -> bool
    decreases elems_size_from(cs, ci), 6int, 0int,
{
    if 0 <= ci < cs.len() {
        match cs[ci] {
            Element::Token(t) => {
                if npt == Some(t.text@) {
                    let pn = spec_next_non_trivia(ps, pi);
                    spec_match_tt(
                        cx,
                        ps,
                        if pn < ps.len() {
                            pn + 1
                        } else {
                            pn
                        },
                        cs,
                        ci + 1,
                    )
                } else {
                    spec_tt_scan(cx, ps, pi, cs, ci + 1, npt)
                }
            },
            Element::Node(n) => {
                let hit = match spec_elem_first_token(Element::Node(n)) {
                    Some(t0) => npt == Some(t0.text@),
                    None => false,
                };
                if hit {
                    let pn = spec_next_non_trivia(ps, pi);
                    if pn < ps.len() && ps[pn] is Node {
                        spec_match_tt(cx, elem_node(ps[pn]).children@, 0, n.children@, 0)
                            && spec_match_tt(cx, ps, pn + 1, cs, ci + 1)
                    } else {
                        spec_tt_scan(
                            cx,
                            ps,
                            if pn < ps.len() {
                                pn + 1
                            } else {
                                pn
                            },
                            cs,
                            ci + 1,
                            npt,
                        )
                    }
                } else {
                    spec_tt_scan(cx, ps, pi, cs, ci + 1, npt)
                }
            },
        }
    } else {
        spec_next_non_trivia(ps, pi) >= ps.len()
    }
}

/// The match fields the tree walk never touches: only the driver sets them.
pub open spec fn match_frame(a: Match, b: Match) -> bool {
    b.range == a.range && b.matched_node == a.matched_node && b.rule_index == a.rule_index
        && b.depth == a.depth && b.rendered_template_paths == a.rendered_template_paths
}

/// How one matcher step may change the phase: the flag is never toggled, the
/// driver-owned fields stay, bindings and comments only accumulate, and a
/// non-recording phase changes nothing at all.
pub open spec fn phase_evolves(a: Phase, b: Phase) -> bool {
    &&& b.recording == a.recording
    &&& match_frame(a.the_match, b.the_match)
    &&& seq_extends(a.the_match.placeholder_values@, b.the_match.placeholder_values@)
    &&& seq_extends(a.the_match.ignored_comments@, b.the_match.ignored_comments@)
    &&& (!a.recording ==> b.the_match == a.the_match)
}

pub proof fn lemma_phase_evolves_trans(a: Phase, b: Phase, c: Phase)
    requires
        phase_evolves(a, b),
        phase_evolves(b, c),
    ensures
        phase_evolves(a, c),
{
    assert forall|i: int| 0 <= i < a.the_match.placeholder_values@.len() implies a.the_match.placeholder_values@[i]
        == c.the_match.placeholder_values@[i] by {
        assert(a.the_match.placeholder_values@[i] == b.the_match.placeholder_values@[i]);
    }
    assert forall|i: int| 0 <= i < a.the_match.ignored_comments@.len() implies a.the_match.ignored_comments@[i]
        == c.the_match.ignored_comments@[i] by {
        assert(a.the_match.ignored_comments@[i] == b.the_match.ignored_comments@[i]);
    }
}

/// A placeholder found in the table is one of its values.
proof fn lemma_lookup_is_table_value(tbl: Seq<(String, Placeholder)>, i: int, name: Seq<char>)
    requires
        0 <= i,
    ensures
        spec_placeholder_lookup(tbl, i, name) matches Some(p) ==> exists|k: int|
            0 <= k < tbl.len() && tbl[k].1 == p,
    decreases (if i <= tbl.len() { tbl.len() - i } else { 0int }),
{
    if 0 <= i < tbl.len() {
        if tbl[i].0@ == name {
            assert(tbl[i].1 == spec_placeholder_lookup(tbl, i, name)->0);
        } else {
            lemma_lookup_is_table_value(tbl, i + 1, name);
        }
    }
}

/// A placeholder binding at node granularity: the subtree and its range.
pub open spec fn binding_is_node(pm: PlaceholderMatch, code: Node) -> bool {
    &&& pm.range == code.range
    &&& pm.node matches Some(n) && node_eq(n, code)
    &&& pm.inner_matches.matches@.len() == 0
}

/// A placeholder binding of a bare token run: a range and no subtree.
pub open spec fn binding_is_range(pm: PlaceholderMatch, fr: FileSpan) -> bool {
    &&& pm.range == fr
    &&& pm.node is None
    &&& pm.inner_matches.matches@.len() == 0
}

impl PlaceholderMatch {
    pub fn new(node: &Node, range: FileSpan) -> (r: PlaceholderMatch)
        ensures
            r.range == range,
            r.node matches Some(n) && node_eq(n, *node),
            r.inner_matches.matches@.len() == 0,
    {
        PlaceholderMatch { node: Some(node.deep_clone()), range, inner_matches: SsrMatches::default() }
    }

    pub fn from_range(range: FileSpan) -> (r: PlaceholderMatch)
        ensures
            binding_is_range(r, range),
    {
        PlaceholderMatch { node: None, range, inner_matches: SsrMatches::default() }
    }
}

impl Phase {
    /// Remembers a comment the aligner is about to skip, so the replacement
    /// renderer can preserve or discard it.
    pub fn record_ignored_comments(&mut self, token: &Token)
        ensures
            final(self).recording == old(self).recording,
            match_frame(old(self).the_match, final(self).the_match),
            final(self).the_match.placeholder_values == old(self).the_match.placeholder_values,
            final(self).the_match.ignored_comments@ == (if old(self).recording && token.kind
                == SyntaxKind::Comment {
                old(self).the_match.ignored_comments@.push(*token)
            } else {
                old(self).the_match.ignored_comments@
            }),
            phase_evolves(*old(self), *final(self)),
    {
        if token.kind == SyntaxKind::Comment {
            if self.recording {
                let t = token.deep_clone();
                self.the_match.ignored_comments.push(t);
            }
        }
    }

    /// Records a placeholder binding; a non-recording phase ignores it.
    pub fn record_binding(&mut self, name: &String, pm: PlaceholderMatch)
        ensures
            final(self).recording == old(self).recording,
            match_frame(old(self).the_match, final(self).the_match),
            final(self).the_match.ignored_comments == old(self).the_match.ignored_comments,
            old(self).recording ==> final(self).the_match.placeholder_values@ == old(
                self,
            ).the_match.placeholder_values@.push((Var(*name), pm)),
            !old(self).recording ==> final(self).the_match == old(self).the_match,
            phase_evolves(*old(self), *final(self)),
    {
        if self.recording {
            let var = Var(name.clone());
            self.the_match.placeholder_values.push((var, pm));
        }
    }

    /// The index of the next non-trivia candidate element, recording every
    /// comment token passed on the way (including a comment at the returned
    /// position, though a comment is itself trivia and so never returned).
    pub fn next_non_trivial(&mut self, cs: &Vec<Element>, ci: usize) -> (cn: usize)
        ensures
            cn as int == spec_next_non_trivia(cs@, ci as int),
            cn <= cs.len(),
            final(self).the_match.placeholder_values == old(self).the_match.placeholder_values,
            phase_evolves(*old(self), *final(self)),
        decreases cs@.len() - ci,
    {
        if ci < cs.len() {
            match &cs[ci] {
                Element::Token(t) => {
                    self.record_ignored_comments(t);
                    let ghost mid = *self;
                    if is_trivia(t.kind) {
                        let cn = self.next_non_trivial(cs, ci + 1);
                        proof {
                            lemma_phase_evolves_trans(*old(self), mid, *self);
                        }
                        cn
                    } else {
                        ci
                    }
                },
                Element::Node(n) => {
                    if is_trivia(n.kind) {
                        self.next_non_trivial(cs, ci + 1)
                    } else {
                        ci
                    }
                },
            }
        } else {
            cs.len()
        }
    }
}

/// Five text pieces joined into one reason string.
fn compose5(a: &str, b: &str, c: &str, d: &str, e: &str) -> String {
    let s = a.to_owned();
    let s = s.concat(b);
    let s = s.concat(c);
    let s = s.concat(d);
    s.concat(e)
}

/// A failure whose reason is formatted exactly when reasons are being
/// recorded for this attempt; the text is built lazily.
fn match_error5(debug: &MatchDebug, a: &str, b: &str, c: &str, d: &str, e: &str) -> (r:
    MatchFailed)
    ensures
        r.reason is Some <==> debug.active,
{
    if recording_match_fail_reasons(debug) {
        MatchFailed { reason: Some(compose5(a, b, c, d, e)) }
    } else {
        MatchFailed { reason: None }
    }
}

fn match_error1(debug: &MatchDebug, a: &str) -> (r: MatchFailed)
    ensures
        r.reason is Some <==> debug.active,
{
    match_error5(debug, a, "", "", "", "")
}

/// If the element contains nothing but an identifier token, that token.
pub fn only_ident<'a>(element: &'a Element) -> (r: Option<&'a Token>)
    ensures
        match r {
            Some(t) => spec_only_ident(*element) == Some(*t),
            None => spec_only_ident(*element) is None,
        },
    decreases *element,
{
    match element {
        Element::Token(t) => {
            if t.kind == SyntaxKind::Ident {
                Some(t)
            } else {
                None
            }
        },
        Element::Node(n) => {
            if n.children.len() == 1 {
                only_ident(&n.children[0])
            } else {
                None
            }
        },
    }
}

/// The placeholder the element stands in for, if any.
pub fn get_placeholder<'a>(rule: &'a ResolvedRule, element: &Element) -> (r: Option<
    &'a Placeholder,
>)
    ensures
        match r {
            Some(p) => spec_get_placeholder(*rule, *element) == Some(*p),
            None => spec_get_placeholder(*rule, *element) is None,
        },
{
    match only_ident(element) {
        Some(t) => placeholder_lookup(&rule.pattern.placeholders_by_stand_in, 0, &t.text),
        None => None,
    }
}

impl NodeKind {
    /// Whether the candidate node is of this syntactic class; a mismatch is a
    /// match failure.
    pub fn matches(&self, node: &Node, debug: &MatchDebug) -> (r: Result<(), MatchFailed>)
        ensures
            r.is_ok() == self.spec_matches_node(*node),
            r matches Err(e) ==> (e.reason is Some <==> debug.active),
    {
        let ok = match self {
            NodeKind::Literal => node.kind == SyntaxKind::Literal,
        };
        if !ok {
            return Err(match_error1(debug, "Code isn't of the kind the constraint asks"));
        }
        Ok(())
    }
}

/// Checks if the search pattern matches a particular candidate node.
pub struct Matcher {
    /// If any placeholder comes from outside this range, the match is
    /// rejected.
    pub restrict_range: Option<FileSpan>,
    /// Whether fail reasons are recorded for this attempt.
    pub debug: MatchDebug,
}

impl Matcher {
    /// The spec-level inputs of this matcher's decisions, for a given rule
    /// and phase.
    pub open spec fn cx(self, rule: ResolvedRule, second: bool) -> Cx {
        Cx { rule, restrict_range: self.restrict_range, second }
    }

    /// Checks that `range` is within the permitted range, if any: a node that
    /// did not originate from the permitted span (for instance one
    /// synthesized by a macro expansion) must not match.
    pub fn validate_range(&self, range: &FileSpan) -> (r: Result<(), MatchFailed>)
        ensures
            r.is_ok() == spec_range_ok(self.restrict_range, *range),
            r matches Err(e) ==> (e.reason is Some <==> self.debug.active),
    {
        if let Some(restrict_range) = &self.restrict_range {
            if restrict_range.file_id != range.file_id || !restrict_range.span.contains_span(
                &range.span,
            ) {
                return Err(match_error1(&self.debug, "Node originated from a macro"));
            }
        }
        Ok(())
    }

    fn check_constraint(&self, constraint: &Constraint, code: &Node) -> (r: Result<
        (),
        MatchFailed,
    >)
        ensures
            r.is_ok() == spec_constraint_ok(*constraint, *code),
            r matches Err(e) ==> (e.reason is Some <==> self.debug.active),
        decreases *constraint,
    {
        match constraint {
            Constraint::Kind(kind) => {
                kind.matches(code, &self.debug)?;
                Ok(())
            },
            Constraint::Not(sub) => {
                if self.check_constraint(&*sub, code).is_ok() {
                    Err(match_error1(&self.debug, "A negated constraint was satisfied"))
                } else {
                    Ok(())
                }
            },
        }
    }

    fn check_constraints(&self, cs: &Vec<Constraint>, i: usize, code: &Node) -> (r: Result<
        (),
        MatchFailed,
    >)
        ensures
            r.is_ok() == spec_constraints_ok(cs@, i as int, *code),
            r matches Err(e) ==> (e.reason is Some <==> self.debug.active),
        decreases cs@.len() - i,
    {
        if i < cs.len() {
            self.check_constraint(&cs[i], code)?;
            self.check_constraints(cs, i + 1, code)
        } else {
            Ok(())
        }
    }

    /// The shared token comparator: records the token if it is an ignored
    /// comment, accepts trivia, applies the two trailing-separator
    /// tolerances, and otherwise consumes one pattern token of equal kind
    /// and text. Returns the new pattern position.
    fn attempt_match_token(&self, phase: &mut Phase, ps: &Vec<Element>, pi: usize, code: &Token)
        -> (r: Result<usize, MatchFailed>)
        requires
            pi <= ps.len(),
        ensures
            phase_evolves(*old(phase), *final(phase)),
            final(phase).the_match.placeholder_values == old(phase).the_match.placeholder_values,
            match r {
                Ok(pi2) => spec_token_step(ps@, pi as int, *code) == Some(pi2 as int) && pi2
                    <= ps.len(),
                Err(e) => spec_token_step(ps@, pi as int, *code) is None && (e.reason is Some
                    <==> self.debug.active),
            },
    {
        phase.record_ignored_comments(code);
        if is_trivia(code.kind) {
            return Ok(pi);
        }
        let pn = next_non_trivia(ps, pi);
        if pn < ps.len() {
            if let Element::Token(p) = &ps[pn] {
                // A comma in the code just before something closing in the
                // pattern: accept it without consuming pattern.
                if code.kind == SyntaxKind::Comma && is_closing_token(p.kind) {
                    return Ok(pi);
                }
                // A comma in the pattern while the code closes: skip it.
                if p.kind == SyntaxKind::Comma && is_closing_token(code.kind) {
                    let pn2 = next_non_trivia(ps, pn + 1);
                    return self.consume_pattern_token(ps, pn2, code);
                }
            }
        }
        self.consume_pattern_token(ps, pn, code)
    }

    /// Consumes the pattern element at `pn2`, which must be a token equal to
    /// `code` in kind and text.
    fn consume_pattern_token(&self, ps: &Vec<Element>, pn2: usize, code: &Token) -> (r: Result<
        usize,
        MatchFailed,
    >)
        requires
            pn2 <= ps.len(),
            !spec_is_trivia(code.kind),
        ensures
            match r {
                Ok(pi2) => pi2 == pn2 + 1 && pn2 < ps.len() && (ps@[pn2 as int] matches
                    Element::Token(p) && p.kind == code.kind && p.text@ == code.text@),
                Err(e) => !(pn2 < ps.len() && (ps@[pn2 as int] matches Element::Token(p) && p.kind
                    == code.kind && p.text@ == code.text@)) && (e.reason is Some
                    <==> self.debug.active),
            },
    {
        if pn2 < ps.len() {
            match &ps[pn2] {
                Element::Token(p) => {
                    if p.kind == code.kind && p.text == code.text {
                        Ok(pn2 + 1)
                    } else {
                        Err(match_error5(
                            &self.debug,
                            "Pattern wanted token '",
                            p.text.as_str(),
                            "', but code had token '",
                            code.text.as_str(),
                            "'",
                        ))
                    }
                },
                Element::Node(_) => Err(match_error5(
                    &self.debug,
                    "Pattern wanted a subtree, but code had token '",
                    code.text.as_str(),
                    "'",
                    "",
                    "",
                )),
            }
        } else {
            Err(match_error5(
                &self.debug,
                "Pattern exhausted, while code remains: '",
                code.text.as_str(),
                "'",
                "",
                "",
            ))
        }
    }
}

/// The view of an optional borrowed node.
pub open spec fn opt_node(p: Option<&Node>) -> Option<Node> {
    match p {
        Some(n) => Some(*n),
        None => None,
    }
}

/// The node element at `i`, which the caller knows is a node.
fn node_at<'a>(s: &'a Vec<Element>, i: usize) -> (r: &'a Node)
    requires
        i < s@.len(),
        s@[i as int] is Node,
    ensures
        *r == elem_node(s@[i as int]),
{
    match &s[i] {
        Element::Node(n) => n,
        Element::Token(_) => unreached(),
    }
}

/// A short description of a kind, for failure diagnostics.
fn kind_label(k: SyntaxKind) -> &'static str {
    match k {
        SyntaxKind::Whitespace => "whitespace",
        SyntaxKind::Comment => "a comment",
        SyntaxKind::Ident => "an identifier",
        SyntaxKind::Comma => "a comma",
        SyntaxKind::LParen => "an opening parenthesis",
        SyntaxKind::RParen => "a closing parenthesis",
        SyntaxKind::LCurly => "an opening brace",
        SyntaxKind::RCurly => "a closing brace",
        SyntaxKind::LBrack => "an opening bracket",
        SyntaxKind::RBrack => "a closing bracket",
        SyntaxKind::Literal => "a literal",
        SyntaxKind::NameRef => "a name reference",
        SyntaxKind::Path => "a path",
        SyntaxKind::PathSegment => "a path segment",
        SyntaxKind::TypeArgList => "a type argument list",
        SyntaxKind::ParamList => "a parameter list",
        SyntaxKind::ArgList => "an argument list",
        SyntaxKind::CallExpr => "a call expression",
        SyntaxKind::MethodCallExpr => "a method call expression",
        SyntaxKind::PathExpr => "a path expression",
        SyntaxKind::BinExpr => "a binary expression",
        SyntaxKind::RecordExprField => "a record field",
        SyntaxKind::RecordExprFieldList => "a record field list",
        SyntaxKind::TokenTree => "a token tree",
        SyntaxKind::MacroCall => "a macro call",
        SyntaxKind::Other(_) => "another kind",
    }
}

/// The placeholder a pattern node as a whole stands in for, if any.
fn get_placeholder_for_node<'a>(rule: &'a ResolvedRule, n: &Node) -> (r: Option<&'a Placeholder>)
    ensures
        match r {
            Some(p) => spec_get_placeholder(*rule, Element::Node(*n)) == Some(*p),
            None => spec_get_placeholder(*rule, Element::Node(*n)) is None,
        },
{
    if n.children.len() == 1 {
        match only_ident(&n.children[0]) {
            Some(t) => placeholder_lookup(&rule.pattern.placeholders_by_stand_in, 0, &t.text),
            None => None,
        }
    } else {
        None
    }
}

impl Matcher {
    /// Node dispatch (see `spec_match_node`): placeholders bind, an eligible
    /// call-style pattern may match a method call, and otherwise equal kinds
    /// are compared by the kind-specific matcher.
    pub fn attempt_match_node(
        &self,
        rule: &ResolvedRule,
        phase: &mut Phase,
        pattern: &Node,
        code: &Node,
    ) -> (r: Result<(), MatchFailed>)
        ensures
            phase_evolves(*old(phase), *final(phase)),
            r.is_ok() == spec_match_node(
                self.cx(*rule, old(phase).recording),
                *pattern,
                *code,
            ),
            new_bindings_named(
                *rule,
                old(phase).the_match.placeholder_values@,
                final(phase).the_match.placeholder_values@,
            ),
            r matches Err(e) ==> (e.reason is Some <==> self.debug.active),
            spec_get_placeholder(*rule, Element::Node(*pattern)) matches Some(ph) ==> ((old(
                phase,
            ).recording && r.is_ok()) ==> {
                &&& final(phase).the_match.placeholder_values@.len() == old(
                    phase,
                ).the_match.placeholder_values@.len() + 1
                &&& final(phase).the_match.placeholder_values@.last().0.0@ == ph.ident@
                &&& binding_is_node(final(phase).the_match.placeholder_values@.last().1, *code)
            }),
        decreases node_size(*code), 5int, 0int,
    {
        if let Some(placeholder) = get_placeholder_for_node(rule, pattern) {
            self.check_constraints(&placeholder.constraints, 0, code)?;
            if phase.recording {
                let original_range = code.range;
                // The range was validated when the match started, but a
                // placeholder is what ends up bound, so check it again.
                self.validate_range(&original_range)?;
                let pm = PlaceholderMatch::new(code, original_range);
                phase.record_binding(&placeholder.ident, pm);
            }
            proof {
                let tbl = rule.pattern.placeholders_by_stand_in@;
                match spec_only_ident(Element::Node(*pattern)) {
                    Some(tk) => {
                        lemma_lookup_is_table_value(tbl, 0, tk.text@);
                        let k = choose|k: int| 0 <= k < tbl.len() && tbl[k].1 == *placeholder;
                        assert(tbl[k].1.ident@ == placeholder.ident@);
                    },
                    None => {
                        assert(false);
                    },
                }
            }
            return Ok(());
        }
        // A call in the pattern whose target was pre-resolved may match a
        // method call, provided both resolve to the same function.
        if pattern.resolved_call.is_some() && pattern.kind == SyntaxKind::CallExpr && code.kind
            == SyntaxKind::MethodCallExpr {
            return self.attempt_match_ufcs(rule, phase, pattern, code);
        }
        if pattern.kind != code.kind {
            return Err(match_error5(
                &self.debug,
                "Pattern had ",
                kind_label(pattern.kind),
                ", code had ",
                kind_label(code.kind),
                "",
            ));
        }
        // Some kinds of nodes have special handling; everything else falls
        // back to ordered matching of the children.
        match code.kind {
            SyntaxKind::RecordExprFieldList => self.attempt_match_record_field_list(
                rule,
                phase,
                pattern,
                code,
            ),
            SyntaxKind::TokenTree => self.attempt_match_token_tree(rule, phase, pattern, code),
            SyntaxKind::Path => self.attempt_match_path(rule, phase, pattern, code),
            _ => self.attempt_match_node_children(rule, phase, pattern, code),
        }
    }

    /// Ordered matching of all the children of the two nodes.
    fn attempt_match_node_children(
        &self,
        rule: &ResolvedRule,
        phase: &mut Phase,
        pattern: &Node,
        code: &Node,
    ) -> (r: Result<(), MatchFailed>)
        ensures
            phase_evolves(*old(phase), *final(phase)),
            r.is_ok() == spec_match_seq(
                self.cx(*rule, old(phase).recording),
                pattern.children@,
                0,
                code.children@,
                0,
            ),
            new_bindings_named(
                *rule,
                old(phase).the_match.placeholder_values@,
                final(phase).the_match.placeholder_values@,
            ),
            r matches Err(e) ==> (e.reason is Some <==> self.debug.active),
        decreases elems_size_from(code.children@, 0), 8int, 0int,
    {
        self.attempt_match_sequences(rule, phase, &pattern.children, 0, &code.children, 0)
    }

    /// Ordered alignment of pattern elements from `pi` against candidate
    /// elements from `ci` (see `spec_match_seq`).
    fn attempt_match_sequences(
        &self,
        rule: &ResolvedRule,
        phase: &mut Phase,
        ps: &Vec<Element>,
        pi: usize,
        cs: &Vec<Element>,
        ci: usize,
    ) -> (r: Result<(), MatchFailed>)
        requires
            pi <= ps@.len(),
            ci <= cs@.len(),
        ensures
            phase_evolves(*old(phase), *final(phase)),
            r.is_ok() == spec_match_seq(
                self.cx(*rule, old(phase).recording),
                ps@,
                pi as int,
                cs@,
                ci as int,
            ),
            new_bindings_named(
                *rule,
                old(phase).the_match.placeholder_values@,
                final(phase).the_match.placeholder_values@,
            ),
            r matches Err(e) ==> (e.reason is Some <==> self.debug.active),
        decreases elems_size_from(cs@, ci as int), 7int, 0int,
    {
        let cn = phase.next_non_trivial(cs, ci);
        if cn >= cs.len() {
            let pn = next_non_trivia(ps, pi);
            if pn < ps.len() {
                Err(match_error1(&self.debug, "Part of the pattern was unmatched"))
            } else {
                Ok(())
            }
        } else {
            match &cs[cn] {
                Element::Token(t) => {
                    let pi2 = self.attempt_match_token(phase, ps, pi, t)?;
                    self.attempt_match_sequences(rule, phase, ps, pi2, cs, cn + 1)
                },
                Element::Node(n) => {
                    let pn = next_non_trivia(ps, pi);
                    if pn < ps.len() {
                        match &ps[pn] {
                            Element::Node(pnode) => {
                                self.attempt_match_node(rule, phase, pnode, n)?;
                                self.attempt_match_sequences(rule, phase, ps, pn + 1, cs, cn + 1)
                            },
                            Element::Token(p) => Err(match_error5(
                                &self.debug,
                                "Pattern wanted token '",
                                p.text.as_str(),
                                "', code has a subtree",
                                "",
                                "",
                            )),
                        }
                    } else {
                        Err(match_error1(&self.debug, "Pattern reached its end, code has more"))
                    }
                },
            }
        }
    }

    /// A pair of optional nodes, as a typed accessor hands them out.
    fn attempt_match_opt(
        &self,
        rule: &ResolvedRule,
        phase: &mut Phase,
        pattern: Option<&Node>,
        code: Option<&Node>,
    ) -> (r: Result<(), MatchFailed>)
        ensures
            phase_evolves(*old(phase), *final(phase)),
            r.is_ok() == spec_match_opt(
                self.cx(*rule, old(phase).recording),
                opt_node(pattern),
                opt_node(code),
            ),
            new_bindings_named(
                *rule,
                old(phase).the_match.placeholder_values@,
                final(phase).the_match.placeholder_values@,
            ),
            r matches Err(e) ==> (e.reason is Some <==> self.debug.active),
        decreases opt_node_size(opt_node(code)), 5int, 1int,
    {
        match (pattern, code) {
            (Some(p), Some(c)) => self.attempt_match_node(rule, phase, p, c),
            (None, None) => Ok(()),
            (Some(_), None) => Err(
                match_error1(&self.debug, "Pattern had something, code had nothing to match"),
            ),
            (None, Some(_)) => Err(
                match_error1(&self.debug, "Nothing in the pattern to match what the code has"),
            ),
        }
    }

    /// Paths are matched based on whether they refer to the same thing, even
    /// if written differently (see `spec_match_path`).
    fn attempt_match_path(
        &self,
        rule: &ResolvedRule,
        phase: &mut Phase,
        pattern: &Node,
        code: &Node,
    ) -> (r: Result<(), MatchFailed>)
        ensures
            phase_evolves(*old(phase), *final(phase)),
            r.is_ok() == spec_match_path(self.cx(*rule, old(phase).recording), *pattern, *code),
            new_bindings_named(
                *rule,
                old(phase).the_match.placeholder_values@,
                final(phase).the_match.placeholder_values@,
            ),
            r matches Err(e) ==> (e.reason is Some <==> self.debug.active),
        decreases node_size(*code), 4int, 0int,
    {
        if let Some(pattern_resolved) = &pattern.resolution {
            let pseg = find_child_of_kind(&pattern.children, 0, SyntaxKind::PathSegment);
            let cseg = find_child_of_kind(&code.children, 0, SyntaxKind::PathSegment);
            if let (Some(pattern_segment), Some(code_segment)) = (pseg, cseg) {
                // Match everything within the segment other than the name,
                // which is handled by comparing what the path resolves to.
                let ptarg = find_child_of_kind(
                    &pattern_segment.children,
                    0,
                    SyntaxKind::TypeArgList,
                );
                let ctarg = find_child_of_kind(&code_segment.children, 0, SyntaxKind::TypeArgList);
                self.attempt_match_opt(rule, phase, ptarg, ctarg)?;
                let ppar = find_child_of_kind(&pattern_segment.children, 0, SyntaxKind::ParamList);
                let cpar = find_child_of_kind(&code_segment.children, 0, SyntaxKind::ParamList);
                self.attempt_match_opt(rule, phase, ppar, cpar)?;
            }
            if phase.recording {
                match &code.resolution {
                    None => {
                        return Err(match_error1(&self.debug, "Failed to resolve the code path"));
                    },
                    Some(code_resolved) => {
                        if *code_resolved != *pattern_resolved {
                            return Err(
                                match_error1(
                                    &self.debug,
                                    "Pattern path and code path resolve differently",
                                ),
                            );
                        }
                    },
                }
            }
            Ok(())
        } else {
            self.attempt_match_node_children(rule, phase, pattern, code)
        }
    }

    /// Call-style equivalence (see `spec_match_ufcs`): the candidate method
    /// call must resolve to the pattern call's pre-resolved target; then the
    /// pattern's first argument matches the receiver, and the remaining
    /// arguments match pairwise.
    #[verifier::rlimit(60)]
    fn attempt_match_ufcs(
        &self,
        rule: &ResolvedRule,
        phase: &mut Phase,
        pattern: &Node,
        code: &Node,
    ) -> (r: Result<(), MatchFailed>)
        ensures
            phase_evolves(*old(phase), *final(phase)),
            r.is_ok() == spec_match_ufcs(self.cx(*rule, old(phase).recording), *pattern, *code),
            new_bindings_named(
                *rule,
                old(phase).the_match.placeholder_values@,
                final(phase).the_match.placeholder_values@,
            ),
            r matches Err(e) ==> (e.reason is Some <==> self.debug.active),
        decreases node_size(*code), 4int, 0int,
    {
        let code_resolved_function = match &code.resolved_call {
            Some(f) => *f,
            None => {
                return Err(match_error1(&self.debug, "Failed to resolve method call"));
            },
        };
        match &pattern.resolved_call {
            Some(pattern_function) => {
                if *pattern_function != code_resolved_function {
                    return Err(
                        match_error1(&self.debug, "Method call resolved to a different function"),
                    );
                }
            },
            None => {
                return Err(match_error1(&self.debug, "Pattern call has no resolved target"));
            },
        }
        let pargs = match find_child_of_kind(&pattern.children, 0, SyntaxKind::ArgList) {
            Some(a) => a,
            None => {
                return Err(match_error1(&self.debug, "Pattern function call has no args"));
            },
        };
        let pa0 = next_node_child(&pargs.children, 0);
        let popt: Option<&Node> = if pa0 < pargs.children.len() {
            Some(node_at(&pargs.children, pa0))
        } else {
            None
        };
        let ri = next_node_child(&code.children, 0);
        let copt: Option<&Node> = if ri < code.children.len() {
            Some(node_at(&code.children, ri))
        } else {
            None
        };
        self.attempt_match_opt(rule, phase, popt, copt)?;
        let cargs = match find_child_of_kind(&code.children, 0, SyntaxKind::ArgList) {
            Some(a) => a,
            None => {
                return Err(match_error1(&self.debug, "Code method call has no args"));
            },
        };
        let pa1 = if pa0 < pargs.children.len() {
            pa0 + 1
        } else {
            pa0
        };
        self.attempt_match_args(rule, phase, &pargs.children, pa1, &cargs.children, 0)
    }

    /// The remaining arguments of a call-equivalence match, zipped pairwise.
    fn attempt_match_args(
        &self,
        rule: &ResolvedRule,
        phase: &mut Phase,
        ps: &Vec<Element>,
        pi: usize,
        cs: &Vec<Element>,
        ci: usize,
    ) -> (r: Result<(), MatchFailed>)
        ensures
            phase_evolves(*old(phase), *final(phase)),
            r.is_ok() == spec_match_args(
                self.cx(*rule, old(phase).recording),
                ps@,
                pi as int,
                cs@,
                ci as int,
            ),
            new_bindings_named(
                *rule,
                old(phase).the_match.placeholder_values@,
                final(phase).the_match.placeholder_values@,
            ),
            r matches Err(e) ==> (e.reason is Some <==> self.debug.active),
        decreases elems_size_from(cs@, ci as int), 6int, 0int,
    {
        let pn = next_node_child(ps, pi);
        let cn = next_node_child(cs, ci);
        if pn >= ps.len() && cn >= cs.len() {
            return Ok(());
        }
        if pn >= ps.len() || cn >= cs.len() {
            return Err(
                match_error1(&self.debug, "Argument counts differ between pattern and code"),
            );
        }
        let p = node_at(ps, pn);
        let c = node_at(cs, cn);
        self.attempt_match_opt(rule, phase, Some(p), Some(c))?;
        self.attempt_match_args(rule, phase, ps, pn + 1, cs, cn + 1)
    }
}

/// What the executable field index denotes: names and child indexes, without
/// the consumption marks.
pub open spec fn fields_index_view(fl: Seq<(String, usize, bool)>) -> Seq<(Seq<char>, int)> {
    fl.map_values(|e: (String, usize, bool)| (e.0@, e.1 as int))
}

proof fn lemma_contains_push(s: Seq<Seq<char>>, x: Seq<char>, y: Seq<char>)
    ensures
        s.push(x).contains(y) <==> (s.contains(y) || y == x),
{
    if s.push(x).contains(y) {
        let k = choose|k: int| 0 <= k < s.push(x).len() && s.push(x)[k] == y;
        if k < s.len() {
            assert(s[k] == y);
        }
    }
    if s.contains(y) {
        let k = choose|k: int| 0 <= k < s.len() && s[k] == y;
        assert(s.push(x)[k] == y);
    }
    if y == x {
        assert(s.push(x)[s.len() as int] == y);
    }
}

/// Every entry of the field index points at a named record-field child.
pub proof fn lemma_fields_upto_valid(cs: Seq<Element>, i: int)
    requires
        i <= cs.len(),
    ensures
        forall|j: int|
            #![trigger spec_fields_upto(cs, i)[j]]
            0 <= j < spec_fields_upto(cs, i).len() ==> {
                let e = spec_fields_upto(cs, i)[j];
                &&& 0 <= e.1 < i
                &&& cs[e.1] is Node
                &&& elem_node(cs[e.1]).kind == SyntaxKind::RecordExprField
                &&& spec_field_name(elem_node(cs[e.1])) matches Some(t) && t.text@ == e.0
            },
    decreases i,
{
    if i > 0 {
        lemma_fields_upto_valid(cs, i - 1);
    }
}

/// A found field entry really is an entry of the index.
proof fn lemma_field_find_is_entry(fl: Seq<(Seq<char>, int)>, name: Seq<char>)
    ensures
        spec_field_find(fl, name) matches Some(v) ==> exists|j: int|
            0 <= j < fl.len() && fl[j] == (name, v),
    decreases fl.len(),
{
    if fl.len() > 0 {
        if fl.last().0 == name {
            assert(fl[fl.len() - 1] == (name, fl.last().1));
        } else {
            lemma_field_find_is_entry(fl.drop_last(), name);
            match spec_field_find(fl.drop_last(), name) {
                Some(v) => {
                    let j = choose|j: int|
                        0 <= j < fl.drop_last().len() && fl.drop_last()[j] == (name, v);
                    assert(fl[j] == (name, v));
                },
                None => {},
            }
        }
    }
}

/// Builds the field index of a candidate field list: one unconsumed entry per
/// named record-field child, in order.
fn build_fields_index(cs: &Vec<Element>) -> (fl: Vec<(String, usize, bool)>)
    ensures
        fields_index_view(fl@) == spec_fields_upto(cs@, cs@.len() as int),
        forall|j: int| 0 <= j < fl@.len() ==> fl@[j].2 == false,
{
    let mut fl: Vec<(String, usize, bool)> = Vec::new();
    let mut i: usize = 0;
    while i < cs.len()
        invariant
            i <= cs.len(),
            fields_index_view(fl@) == spec_fields_upto(cs@, i as int),
            forall|j: int| 0 <= j < fl@.len() ==> fl@[j].2 == false,
        decreases cs.len() - i,
    {
        let ghost prev = fl@;
        let mut pushed = false;
        match &cs[i] {
            Element::Node(n) => {
                if n.kind == SyntaxKind::RecordExprField {
                    if n.children.len() > 0 {
                        if let Some(t) = only_ident(&n.children[0]) {
                            fl.push((t.text.clone(), i, false));
                            pushed = true;
                        }
                    }
                }
            },
            Element::Token(_) => {},
        }
        proof {
            if pushed {
                assert(fields_index_view(fl@) =~= fields_index_view(prev) + spec_field_entry(
                    cs@,
                    i as int,
                ));
            } else {
                assert(fields_index_view(fl@) =~= fields_index_view(prev) + spec_field_entry(
                    cs@,
                    i as int,
                ));
            }
        }
        i = i + 1;
    }
    fl
}

/// The last entry of the field index with the given name, scanning the first
/// `hi` entries.
fn field_find_upto(fl: &Vec<(String, usize, bool)>, hi: usize, name: &String) -> (r: Option<usize>)
    requires
        hi <= fl@.len(),
    ensures
        match r {
            Some(j) => j < hi && fl@[j as int].0@ == name@ && spec_field_find(
                fields_index_view(fl@).take(hi as int),
                name@,
            ) == Some(fl@[j as int].1 as int),
            None => spec_field_find(fields_index_view(fl@).take(hi as int), name@) is None,
        },
    decreases hi,
{
    proof {
        if hi > 0 {
            assert(fields_index_view(fl@).take(hi as int).drop_last() =~= fields_index_view(
                fl@,
            ).take(hi as int - 1));
        }
    }
    if hi == 0 {
        None
    } else if fl[hi - 1].0 == *name {
        Some(hi - 1)
    } else {
        field_find_upto(fl, hi - 1, name)
    }
}

/// Marks every entry with the given name as consumed.
fn mark_consumed(fl: &mut Vec<(String, usize, bool)>, name: &String)
    ensures
        final(fl)@.len() == old(fl)@.len(),
        forall|j: int|
            0 <= j < final(fl)@.len() ==> final(fl)@[j].0 == old(fl)@[j].0 && final(fl)@[j].1
                == old(fl)@[j].1 && final(fl)@[j].2 == (old(fl)@[j].2 || old(fl)@[j].0@ == name@),
{
    let mut j: usize = 0;
    while j < fl.len()
        invariant
            j <= fl@.len(),
            fl@.len() == old(fl)@.len(),
            forall|k: int|
                0 <= k < j ==> fl@[k].0 == old(fl)@[k].0 && fl@[k].1 == old(fl)@[k].1 && fl@[k].2
                    == (old(fl)@[k].2 || old(fl)@[k].0@ == name@),
            forall|k: int| j <= k < fl@.len() ==> fl@[k] == old(fl)@[k],
        decreases fl@.len() - j,
    {
        if fl[j].0 == *name {
            let nm = fl[j].0.clone();
            let ix = fl[j].1;
            fl[j] = (nm, ix, true);
        }
        j = j + 1;
    }
}

/// The first entry not yet consumed, if any.
fn first_unmarked(fl: &Vec<(String, usize, bool)>, j: usize) -> (r: Option<usize>)
    requires
        j <= fl@.len(),
        forall|k: int| 0 <= k < j ==> fl@[k].2,
    ensures
        match r {
            Some(k) => k < fl@.len() && !fl@[k as int].2,
            None => forall|k: int| 0 <= k < fl@.len() ==> fl@[k].2,
        },
    decreases fl@.len() - j,
{
    if j < fl.len() {
        if !fl[j].2 {
            Some(j)
        } else {
            first_unmarked(fl, j + 1)
        }
    } else {
        None
    }
}

/// The syntactic span of an element within its file.
fn elem_span(e: &Element) -> (r: TextSpan)
    ensures
        r == (match *e {
            Element::Node(n) => n.range.span,
            Element::Token(t) => t.span,
        }),
{
    match e {
        Element::Node(n) => n.range.span,
        Element::Token(t) => t.span,
    }
}

/// The text of the next literal pattern token, as the capture scan sees it.
pub open spec fn npt_text(npt: Option<&Token>) -> Option<Seq<char>> {
    match npt {
        Some(t) => Some(t.text@),
        None => None,
    }
}

impl Matcher {
    /// Record field lists match in any order (see
    /// `spec_match_record_field_list`).
    fn attempt_match_record_field_list(
        &self,
        rule: &ResolvedRule,
        phase: &mut Phase,
        pattern: &Node,
        code: &Node,
    ) -> (r: Result<(), MatchFailed>)
        ensures
            phase_evolves(*old(phase), *final(phase)),
            r.is_ok() == spec_match_record_field_list(
                self.cx(*rule, old(phase).recording),
                *pattern,
                *code,
            ),
            new_bindings_named(
                *rule,
                old(phase).the_match.placeholder_values@,
                final(phase).the_match.placeholder_values@,
            ),
            r matches Err(e) ==> (e.reason is Some <==> self.debug.active),
        decreases node_size(*code), 4int, 0int,
    {
        // Build a map keyed by field name.
        let mut fl = build_fields_index(&code.children);
        self.attempt_match_rfl_fields(
            rule,
            phase,
            &pattern.children,
            0,
            &code.children,
            &mut fl,
            Ghost(Seq::empty()),
        )
    }

    /// Walks the pattern fields, consuming same-named candidate fields from
    /// the index; leftover candidate fields fail; a placeholder in a name
    /// position falls back to ordered matching of the whole list.
    #[verifier::rlimit(100)]
    fn attempt_match_rfl_fields(
        &self,
        rule: &ResolvedRule,
        phase: &mut Phase,
        ps: &Vec<Element>,
        pi: usize,
        cs: &Vec<Element>,
        fl: &mut Vec<(String, usize, bool)>,
        Ghost(consumed): Ghost<Seq<Seq<char>>>,
    ) -> (r: Result<(), MatchFailed>)
        requires
            pi <= ps@.len(),
            fields_index_view(old(fl)@) == spec_fields_upto(cs@, cs@.len() as int),
            forall|j: int|
                0 <= j < old(fl)@.len() ==> old(fl)@[j].2 == consumed.contains(old(fl)@[j].0@),
        ensures
            phase_evolves(*old(phase), *final(phase)),
            r.is_ok() == spec_match_rfl_fields(
                self.cx(*rule, old(phase).recording),
                ps@,
                pi as int,
                cs@,
                spec_fields_upto(cs@, cs@.len() as int),
                consumed,
            ),
            new_bindings_named(
                *rule,
                old(phase).the_match.placeholder_values@,
                final(phase).the_match.placeholder_values@,
            ),
            r matches Err(e) ==> (e.reason is Some <==> self.debug.active),
        decreases elems_size_from(cs@, 0), 7int, pat_rem(ps@, pi as int),
    {
        if pi < ps.len() {
            match &ps[pi] {
                Element::Node(pf) => {
                    if pf.children.len() > 0 {
                        let name_el = &pf.children[0];
                        if get_placeholder(rule, name_el).is_some() {
                            // A placeholder in a field-name position makes a
                            // name-keyed index meaningless: match in order.
                            return self.attempt_match_sequences(rule, phase, ps, 0, cs, 0);
                        }
                        match only_ident(name_el) {
                            Some(t) => {
                                proof {
                                    assert(fields_index_view(fl@).take(fl@.len() as int)
                                        =~= fields_index_view(fl@));
                                }
                                let found = field_find_upto(fl, fl.len(), &t.text);
                                match found {
                                    None => Err(match_error5(
                                        &self.debug,
                                        "Pattern has record field '",
                                        t.text.as_str(),
                                        "', but code doesn't",
                                        "",
                                        "",
                                    )),
                                    Some(j) => {
                                        if fl[j].2 {
                                            // Already consumed by an earlier
                                            // pattern field of the same name.
                                            Err(match_error5(
                                                &self.debug,
                                                "Pattern has record field '",
                                                t.text.as_str(),
                                                "', but code doesn't",
                                                "",
                                                "",
                                            ))
                                        } else {
                                            proof {
                                                lemma_fields_upto_valid(cs@, cs@.len() as int);
                                                lemma_field_find_is_entry(
                                                    fields_index_view(fl@),
                                                    t.text@,
                                                );
                                                let j2 = choose|j2: int|
                                                    0 <= j2 < fields_index_view(fl@).len()
                                                        && fields_index_view(fl@)[j2] == (
                                                    t.text@,
                                                    fl@[j as int].1 as int,
                                                );
                                                assert(spec_fields_upto(
                                                    cs@,
                                                    cs@.len() as int,
                                                )[j2] == (t.text@, fl@[j as int].1 as int));
                                            }
                                            let idx = fl[j].1;
                                            let cnode = node_at(cs, idx);
                                            self.attempt_match_node(rule, phase, pf, cnode)?;
                                            let ghost fl_before = fl@;
                                            mark_consumed(fl, &t.text);
                                            proof {
                                                assert(fields_index_view(fl@)
                                                    =~= fields_index_view(fl_before));
                                                assert forall|j2: int|
                                                    0 <= j2 < fl@.len() implies fl@[j2].2
                                                    == consumed.push(t.text@).contains(
                                                    fl@[j2].0@,
                                                ) by {
                                                    lemma_contains_push(
                                                        consumed,
                                                        t.text@,
                                                        fl@[j2].0@,
                                                    );
                                                }
                                            }
                                            self.attempt_match_rfl_fields(
                                                rule,
                                                phase,
                                                ps,
                                                pi + 1,
                                                cs,
                                                fl,
                                                Ghost(consumed.push(t.text@)),
                                            )
                                        }
                                    },
                                }
                            },
                            None => self.attempt_match_rfl_fields(
                                rule,
                                phase,
                                ps,
                                pi + 1,
                                cs,
                                fl,
                                Ghost(consumed),
                            ),
                        }
                    } else {
                        self.attempt_match_rfl_fields(
                            rule,
                            phase,
                            ps,
                            pi + 1,
                            cs,
                            fl,
                            Ghost(consumed),
                        )
                    }
                },
                Element::Token(_) => self.attempt_match_rfl_fields(
                    rule,
                    phase,
                    ps,
                    pi + 1,
                    cs,
                    fl,
                    Ghost(consumed),
                ),
            }
        } else {
            match first_unmarked(fl, 0) {
                Some(k) => {
                    proof {
                        assert(fields_index_view(fl@)[k as int].0 == fl@[k as int].0@);
                        assert(!spec_all_consumed(
                            spec_fields_upto(cs@, cs@.len() as int),
                            consumed,
                        ));
                    }
                    Err(match_error5(
                        &self.debug,
                        "Record literal field(s) failed to match, starting with '",
                        fl[k].0.as_str(),
                        "'",
                        "",
                        "",
                    ))
                },
                None => {
                    proof {
                        assert forall|j: int|
                            0 <= j < spec_fields_upto(cs@, cs@.len() as int).len() implies consumed.contains(
                            spec_fields_upto(cs@, cs@.len() as int)[j].0,
                        ) by {
                            assert(fields_index_view(fl@)[j].0 == fl@[j].0@);
                            assert(fl@[j].2);
                        }
                    }
                    Ok(())
                },
            }
        }
    }

    /// Matching within an unexpanded macro's token tree (see
    /// `spec_match_tt`): here a placeholder captures a run of raw tokens.
    fn attempt_match_token_tree(
        &self,
        rule: &ResolvedRule,
        phase: &mut Phase,
        pattern: &Node,
        code: &Node,
    ) -> (r: Result<(), MatchFailed>)
        ensures
            phase_evolves(*old(phase), *final(phase)),
            r.is_ok() == spec_match_tt(
                self.cx(*rule, old(phase).recording),
                pattern.children@,
                0,
                code.children@,
                0,
            ),
            new_bindings_named(
                *rule,
                old(phase).the_match.placeholder_values@,
                final(phase).the_match.placeholder_values@,
            ),
            r matches Err(e) ==> (e.reason is Some <==> self.debug.active),
        decreases elems_size_from(code.children@, 0), 8int, 0int,
    {
        self.attempt_match_tt_elements(
            rule,
            phase,
            &pattern.children,
            0,
            &code.children,
            0,
            code.range.file_id,
        )
    }

    fn attempt_match_tt_elements(
        &self,
        rule: &ResolvedRule,
        phase: &mut Phase,
        ps: &Vec<Element>,
        pi: usize,
        cs: &Vec<Element>,
        ci: usize,
        file_id: u32,
    ) -> (r: Result<(), MatchFailed>)
        requires
            pi <= ps@.len(),
            ci <= cs@.len(),
        ensures
            phase_evolves(*old(phase), *final(phase)),
            r.is_ok() == spec_match_tt(
                self.cx(*rule, old(phase).recording),
                ps@,
                pi as int,
                cs@,
                ci as int,
            ),
            new_bindings_named(
                *rule,
                old(phase).the_match.placeholder_values@,
                final(phase).the_match.placeholder_values@,
            ),
            r matches Err(e) ==> (e.reason is Some <==> self.debug.active),
        decreases elems_size_from(cs@, ci as int), 7int, 0int,
    {
        if ci < cs.len() {
            let pn = next_non_trivia(ps, pi);
            if pn < ps.len() {
                if let Some(placeholder) = get_placeholder(rule, &ps[pn]) {
                    // The placeholder consumes this element and captures
                    // forward until the next literal pattern token's text.
                    let pi2 = pn + 1;
                    let pn2 = next_non_trivia(ps, pi2);
                    let npt: Option<&Token> = if pn2 < ps.len() {
                        elem_first_token(&ps[pn2])
                    } else {
                        None
                    };
                    let first = elem_span(&cs[ci]);
                    proof {
                        let tbl = rule.pattern.placeholders_by_stand_in@;
                        match spec_only_ident(ps@[pn as int]) {
                            Some(tk) => {
                                lemma_lookup_is_table_value(tbl, 0, tk.text@);
                                let k = choose|k: int|
                                    0 <= k < tbl.len() && tbl[k].1 == *placeholder;
                                assert(tbl[k].1.ident@ == placeholder.ident@);
                            },
                            None => {
                                assert(false);
                            },
                        }
                    }
                    return self.attempt_match_tt_scan(
                        rule,
                        phase,
                        ps,
                        pi2,
                        cs,
                        ci + 1,
                        npt,
                        file_id,
                        first,
                        first,
                        &placeholder.ident,
                    );
                }
            }
            match &cs[ci] {
                Element::Token(t) => {
                    let pi3 = self.attempt_match_token(phase, ps, pi, t)?;
                    self.attempt_match_tt_elements(rule, phase, ps, pi3, cs, ci + 1, file_id)
                },
                Element::Node(n) => {
                    if pn < ps.len() {
                        match &ps[pn] {
                            Element::Node(pnode) => {
                                self.attempt_match_token_tree(rule, phase, pnode, n)?;
                                self.attempt_match_tt_elements(
                                    rule,
                                    phase,
                                    ps,
                                    pn + 1,
                                    cs,
                                    ci + 1,
                                    file_id,
                                )
                            },
                            Element::Token(p) => Err(match_error5(
                                &self.debug,
                                "Pattern has token '",
                                p.text.as_str(),
                                "', code has a subtree",
                                "",
                                "",
                            )),
                        }
                    } else {
                        Err(match_error1(&self.debug, "Pattern has nothing, code has a subtree"))
                    }
                },
            }
        } else {
            let pn = next_non_trivia(ps, pi);
            if pn < ps.len() {
                Err(
                    match_error1(
                        &self.debug,
                        "Reached end of token tree in code, but the pattern remains",
                    ),
                )
            } else {
                Ok(())
            }
        }
    }

    /// The capture scan (see `spec_tt_scan`): accumulates candidate elements
    /// into the placeholder's range until one hits the next pattern token's
    /// text, then records the capture as a range-only binding.
    fn attempt_match_tt_scan(
        &self,
        rule: &ResolvedRule,
        phase: &mut Phase,
        ps: &Vec<Element>,
        pi: usize,
        cs: &Vec<Element>,
        ci: usize,
        npt: Option<&Token>,
        file_id: u32,
        first: TextSpan,
        last: TextSpan,
        name: &String,
    ) -> (r: Result<(), MatchFailed>)
        requires
            pi <= ps@.len(),
            ci <= cs@.len(),
            spec_is_placeholder_name(*rule, name@),
        ensures
            phase_evolves(*old(phase), *final(phase)),
            r.is_ok() == spec_tt_scan(
                self.cx(*rule, old(phase).recording),
                ps@,
                pi as int,
                cs@,
                ci as int,
                npt_text(npt),
            ),
            new_bindings_named(
                *rule,
                old(phase).the_match.placeholder_values@,
                final(phase).the_match.placeholder_values@,
            ),
            r matches Err(e) ==> (e.reason is Some <==> self.debug.active),
        decreases elems_size_from(cs@, ci as int), 6int, 0int,
    {
        if ci < cs.len() {
            match &cs[ci] {
                Element::Token(t) => {
                    let hit = match npt {
                        Some(nt) => t.text == nt.text,
                        None => false,
                    };
                    if hit {
                        self.record_capture(phase, name, file_id, first, last);
                        let pn = next_non_trivia(ps, pi);
                        let pi2 = if pn < ps.len() {
                            pn + 1
                        } else {
                            pn
                        };
                        self.attempt_match_tt_elements(rule, phase, ps, pi2, cs, ci + 1, file_id)
                    } else {
                        let l2 = elem_span(&cs[ci]);
                        self.attempt_match_tt_scan(
                            rule,
                            phase,
                            ps,
                            pi,
                            cs,
                            ci + 1,
                            npt,
                            file_id,
                            first,
                            l2,
                            name,
                        )
                    }
                },
                Element::Node(n) => {
                    let hit = match (elem_first_token(&cs[ci]), npt) {
                        (Some(ft), Some(nt)) => ft.text == nt.text,
                        _ => false,
                    };
                    if hit {
                        let pn = next_non_trivia(ps, pi);
                        if pn < ps.len() {
                            let is_node = match &ps[pn] {
                                Element::Node(_) => true,
                                Element::Token(_) => false,
                            };
                            if is_node {
                                // A subtree that starts with the next token
                                // of the pattern: end the capture, then match
                                // the two subtrees.
                                self.record_capture(phase, name, file_id, first, last);
                                let pnode = node_at(ps, pn);
                                self.attempt_match_token_tree(rule, phase, pnode, n)?;
                                return self.attempt_match_tt_elements(
                                    rule,
                                    phase,
                                    ps,
                                    pn + 1,
                                    cs,
                                    ci + 1,
                                    file_id,
                                );
                            }
                        }
                        // The pattern element after the placeholder was a
                        // token (or missing): it is consumed, and the scan
                        // goes on.
                        let pi2 = if pn < ps.len() {
                            pn + 1
                        } else {
                            pn
                        };
                        let l2 = elem_span(&cs[ci]);
                        self.attempt_match_tt_scan(
                            rule,
                            phase,
                            ps,
                            pi2,
                            cs,
                            ci + 1,
                            npt,
                            file_id,
                            first,
                            l2,
                            name,
                        )
                    } else {
                        let l2 = elem_span(&cs[ci]);
                        self.attempt_match_tt_scan(
                            rule,
                            phase,
                            ps,
                            pi,
                            cs,
                            ci + 1,
                            npt,
                            file_id,
                            first,
                            l2,
                            name,
                        )
                    }
                },
            }
        } else {
            // The capture ran to the end of the stream.
            self.record_capture(phase, name, file_id, first, last);
            let pn = next_non_trivia(ps, pi);
            if pn < ps.len() {
                Err(
                    match_error1(
                        &self.debug,
                        "Reached end of token tree in code, but the pattern remains",
                    ),
                )
            } else {
                Ok(())
            }
        }
    }

    /// Records a token-run capture as a range-only binding, anchored to the
    /// file of the enclosing macro call.
    fn record_capture(
        &self,
        phase: &mut Phase,
        name: &String,
        file_id: u32,
        first: TextSpan,
        last: TextSpan,
    )
        ensures
            phase_evolves(*old(phase), *final(phase)),
            old(phase).recording ==> (final(phase).the_match.placeholder_values@.len() == old(
                phase,
            ).the_match.placeholder_values@.len() + 1
                && final(phase).the_match.placeholder_values@.last().0.0@ == name@),
            !old(phase).recording ==> final(phase).the_match == old(phase).the_match,
    {
        let span = first.cover(&last);
        let pm = PlaceholderMatch::from_range(FileSpan { file_id, span });
        phase.record_binding(name, pm);
    }
}

/// The module-qualified path the context renders `def` as, if any: the first
/// table entry for it.
pub open spec fn spec_use_path_lookup(tbl: Seq<(u64, String)>, i: int, def: u64) -> Option<String>
    decreases (if i <= tbl.len() { tbl.len() - i } else { 0int }),
{
    if 0 <= i < tbl.len() {
        if tbl[i].0 == def {
            Some(tbl[i].1)
        } else {
            spec_use_path_lookup(tbl, i + 1, def)
        }
    } else {
        None
    }
}

fn use_path_lookup<'a>(tbl: &'a Vec<(u64, String)>, i: usize, def: u64) -> (r: Option<&'a String>)
    ensures
        match r {
            Some(s) => spec_use_path_lookup(tbl@, i as int, def) == Some(*s),
            None => spec_use_path_lookup(tbl@, i as int, def) is None,
        },
    decreases (if i <= tbl.len() { tbl@.len() - i } else { 0int }),
{
    if i < tbl.len() {
        if tbl[i].0 == def {
            Some(&tbl[i].1)
        } else {
            use_path_lookup(tbl, i + 1, def)
        }
    } else {
        None
    }
}

/// What one template path contributes to the rendered map: its range and
/// rendered path if it resolved to a definition the context can render,
/// nothing for any other resolution.
pub open spec fn spec_rendered_entry(p: TemplatePath, tbl: Seq<(u64, String)>) -> Seq<
    (FileSpan, String),
> {
    match p.resolution {
        PathResolution::Def(d) => match spec_use_path_lookup(tbl, 0, d) {
            Some(s) => seq![(p.range, s)],
            None => Seq::empty(),
        },
        PathResolution::OtherDef(_) => Seq::empty(),
    }
}

/// The rendered template paths contributed by the first `i` entries.
pub open spec fn spec_rendered_upto(ps: Seq<TemplatePath>, tbl: Seq<(u64, String)>, i: int) -> Seq<
    (FileSpan, String),
>
    decreases i,
{
    if i <= 0 {
        Seq::empty()
    } else {
        spec_rendered_upto(ps, tbl, i - 1) + spec_rendered_entry(ps[i - 1], tbl)
    }
}

/// Template rendering succeeds exactly when the match site has a module and
/// every definition a template path refers to has a rendered path there.
pub open spec fn spec_render_ok(t: ResolvedPattern, ctx: MatchContext) -> bool {
    &&& ctx.module is Some
    &&& forall|j: int|
        0 <= j < t.paths@.len() ==> (#[trigger] t.paths@[j].resolution matches PathResolution::Def(
            d,
        ) ==> spec_use_path_lookup(ctx.use_paths@, 0, d) is Some)
}

impl Match {
    /// Resolves every semantic path referenced by the template to the
    /// module-qualified path visible at the match site, failing if the
    /// matched node has no enclosing module or a path cannot be rendered
    /// there.
    fn render_template_paths(
        &mut self,
        template: &ResolvedPattern,
        ctx: &MatchContext,
        debug: &MatchDebug,
    ) -> (r: Result<(), MatchFailed>)
        ensures
            r.is_ok() == spec_render_ok(*template, *ctx),
            final(self).range == old(self).range,
            final(self).matched_node == old(self).matched_node,
            final(self).placeholder_values == old(self).placeholder_values,
            final(self).ignored_comments == old(self).ignored_comments,
            final(self).rule_index == old(self).rule_index,
            final(self).depth == old(self).depth,
            r.is_ok() ==> final(self).rendered_template_paths@ == old(
                self,
            ).rendered_template_paths@ + spec_rendered_upto(
                template.paths@,
                ctx.use_paths@,
                template.paths@.len() as int,
            ),
            r matches Err(e) ==> (e.reason is Some <==> debug.active),
    {
        if ctx.module.is_none() {
            return Err(match_error1(debug, "Matched node isn't in a module"));
        }
        let ghost orig = *self;
        let mut i: usize = 0;
        while i < template.paths.len()
            invariant
                i <= template.paths@.len(),
                orig == *old(self),
                self.range == orig.range,
                self.matched_node == orig.matched_node,
                self.placeholder_values == orig.placeholder_values,
                self.ignored_comments == orig.ignored_comments,
                self.rule_index == orig.rule_index,
                self.depth == orig.depth,
                self.rendered_template_paths@ == orig.rendered_template_paths@
                    + spec_rendered_upto(template.paths@, ctx.use_paths@, i as int),
                forall|j: int|
                    0 <= j < i ==> (#[trigger] template.paths@[j].resolution matches
                        PathResolution::Def(d) ==> spec_use_path_lookup(ctx.use_paths@, 0, d)
                        is Some),
            decreases template.paths@.len() - i,
        {
            let tp = &template.paths[i];
            let ghost before = self.rendered_template_paths@;
            match tp.resolution {
                PathResolution::Def(d) => {
                    match use_path_lookup(&ctx.use_paths, 0, d) {
                        Some(mod_path) => {
                            let rendered = mod_path.clone();
                            self.rendered_template_paths.push((tp.range, rendered));
                            proof {
                                assert(self.rendered_template_paths@ =~= before
                                    + spec_rendered_entry(template.paths@[i as int], ctx.use_paths@));
                                assert(before + spec_rendered_entry(
                                    template.paths@[i as int],
                                    ctx.use_paths@,
                                ) =~= orig.rendered_template_paths@ + spec_rendered_upto(
                                    template.paths@,
                                    ctx.use_paths@,
                                    i as int + 1,
                                ));
                            }
                        },
                        None => {
                            return Err(
                                match_error1(
                                    debug,
                                    "Failed to render a template path at the match location",
                                ),
                            );
                        },
                    }
                },
                PathResolution::OtherDef(_) => {
                    proof {
                        assert(self.rendered_template_paths@ =~= orig.rendered_template_paths@
                            + spec_rendered_upto(template.paths@, ctx.use_paths@, i as int + 1));
                    }
                },
            }
            i = i + 1;
        }
        Ok(())
    }
}

/// Whether the whole two-phase attempt accepts the candidate: the
/// non-recording pass, the range restriction on the matched node, the
/// recording pass (which also compares path resolutions), and, when the rule
/// has a template, the rendering of its paths at the match site.
pub open spec fn spec_try_match(
    rule: ResolvedRule,
    code: Node,
    restrict_range: Option<FileSpan>,
    ctx: MatchContext,
) -> bool {
    &&& spec_match_node(
        Cx { rule, restrict_range, second: false },
        rule.pattern.node,
        code,
    )
    &&& spec_range_ok(restrict_range, code.range)
    &&& spec_match_node(Cx { rule, restrict_range, second: true }, rule.pattern.node, code)
    &&& match rule.template {
        Some(t) => spec_render_ok(t, ctx),
        None => true,
    }
}

impl Matcher {
    /// The two-phase driver: a cheap non-recording pass over the whole
    /// pattern, the range-restriction guard, and then the recording pass
    /// that builds the `Match` and renders the template's paths.
    pub fn try_match(
        rule: &ResolvedRule,
        code: &Node,
        restrict_range: &Option<FileSpan>,
        ctx: &MatchContext,
        debug: MatchDebug,
    ) -> (r: Result<Match, MatchFailed>)
        ensures
            r.is_ok() == spec_try_match(*rule, *code, *restrict_range, *ctx),
            r matches Ok(m) ==> {
                &&& m.range == code.range
                &&& node_eq(m.matched_node, *code)
                &&& m.rule_index == rule.index
                &&& m.depth == ctx.depth
                &&& forall|i: int|
                    0 <= i < m.placeholder_values@.len() ==> spec_is_placeholder_name(
                        *rule,
                        (#[trigger] m.placeholder_values@[i]).0.0@,
                    )
                &&& match rule.template {
                    Some(t) => m.rendered_template_paths@ == spec_rendered_upto(
                        t.paths@,
                        ctx.use_paths@,
                        t.paths@.len() as int,
                    ),
                    None => m.rendered_template_paths@.len() == 0,
                }
            },
            r matches Err(e) ==> (e.reason is Some <==> debug.active),
    {
        let match_state = Matcher { restrict_range: *restrict_range, debug };
        // First pass at matching, where node kinds, tokens and constraints
        // are checked and nothing is recorded.
        let empty_node = Node {
            kind: SyntaxKind::Other(0),
            children: Vec::new(),
            range: code.range,
            resolution: None,
            resolved_call: None,
        };
        let mut phase1 = Phase {
            recording: false,
            the_match: Match {
                range: code.range,
                matched_node: empty_node,
                placeholder_values: Vec::new(),
                ignored_comments: Vec::new(),
                rule_index: rule.index,
                depth: 0,
                rendered_template_paths: Vec::new(),
            },
        };
        match_state.attempt_match_node(rule, &mut phase1, &rule.pattern.node, code)?;
        match_state.validate_range(&code.range)?;
        // Second pass, where placeholder bindings and ignored comments are
        // recorded, and the more expensive checks are made.
        let mut phase2 = Phase {
            recording: true,
            the_match: Match {
                range: code.range,
                matched_node: code.deep_clone(),
                placeholder_values: Vec::new(),
                ignored_comments: Vec::new(),
                rule_index: rule.index,
                depth: 0,
                rendered_template_paths: Vec::new(),
            },
        };
        match_state.attempt_match_node(rule, &mut phase2, &rule.pattern.node, code)?;
        let mut the_match = phase2.the_match;
        the_match.depth = ctx.depth;
        if let Some(template) = &rule.template {
            the_match.render_template_paths(template, ctx, &match_state.debug)?;
            proof {
                assert(the_match.rendered_template_paths@ =~= spec_rendered_upto(
                    template.paths@,
                    ctx.use_paths@,
                    template.paths@.len() as int,
                ));
            }
        }
        Ok(the_match)
    }
}

/// Checks if `code` matches the rule's search pattern, returning information
/// about the match if it does. Only matching happens here: nested matches
/// inside placeholder bindings are the search driver's business.
pub fn get_match(
    debug_active: bool,
    rule: &ResolvedRule,
    code: &Node,
    restrict_range: &Option<FileSpan>,
    ctx: &MatchContext,
) -> (r: Result<Match, MatchFailed>)
    ensures
        r.is_ok() == spec_try_match(*rule, *code, *restrict_range, *ctx),
        r matches Ok(m) ==> {
            &&& m.range == code.range
            &&& node_eq(m.matched_node, *code)
            &&& m.rule_index == rule.index
            &&& m.depth == ctx.depth
            &&& forall|i: int|
                0 <= i < m.placeholder_values@.len() ==> spec_is_placeholder_name(
                    *rule,
                    (#[trigger] m.placeholder_values@[i]).0.0@,
                )
        },
        r matches Err(e) ==> (e.reason is Some <==> debug_active),
{
    let debug = record_match_fails_reasons_scope(debug_active);
    Matcher::try_match(rule, code, restrict_range, ctx, debug)
}

} // verus!
