//! General properties of the matcher, proved once and for all inputs: a
//! pattern without placeholders matches the tree it was parsed from; a
//! candidate outside the permitted range is always rejected; call-equivalence
//! accepts only calls that resolve to the pattern's target; whatever the
//! recording phase accepts, the first phase accepts too; and a placeholder in
//! a field-name position forces ordered matching of the whole field list.

use vstd::prelude::*;

use crate::matching::{
    elem_node, spec_all_consumed, spec_field_find, spec_field_name, spec_fields_upto,
    spec_get_placeholder, spec_match_args, spec_match_node, spec_match_opt, spec_match_path,
    spec_match_record_field_list, spec_match_rfl_fields, spec_match_seq, spec_match_tt,
    spec_match_ufcs, spec_only_ident, spec_range_ok, spec_token_step, spec_try_match, Cx,
    MatchContext,
};
use crate::rule::ResolvedRule;
use crate::syntax::{
    elems_size_from, node_size, spec_find_child_of_kind, spec_is_trivia, spec_next_non_trivia,
    Element, FileSpan, Node, SyntaxKind,
};

verus! {

broadcast use crate::syntax::group_tree_size, crate::syntax::group_tree_bounds;

/// A field list all of whose subtrees are named record fields with pairwise
/// distinct names: the shape a parsed record literal has.
pub open spec fn spec_field_list_wf(n: Node) -> bool {
    &&& forall|i: int|
        0 <= i < n.children@.len() && n.children@[i] is Node ==> ((#[trigger] n.children@[i])
            matches Element::Node(f) && f.kind == SyntaxKind::RecordExprField && spec_field_name(f)
            is Some)
    &&& forall|i: int, j: int|
        #![trigger n.children@[i], n.children@[j]]
        0 <= i < j < n.children@.len() && n.children@[i] is Node && n.children@[j] is Node
            ==> field_name_text(elem_node(n.children@[i])) != field_name_text(
            elem_node(n.children@[j]),
        )
}

/// The text of a field's name; meaningful when the field has one.
pub open spec fn field_name_text(f: Node) -> Seq<char> {
    match spec_field_name(f) {
        Some(t) => t.text@,
        None => Seq::empty(),
    }
}

/// A tree that stands for itself: no element of it reduces to one of the
/// rule's placeholder stand-ins, no subtree carries a trivia kind, and its
/// record field lists have the shape a parser gives them.
pub open spec fn spec_plain(rule: ResolvedRule, e: Element) -> bool
    decreases e, 0int,
{
    match e {
        Element::Token(_) => spec_get_placeholder(rule, e) is None,
        Element::Node(n) => {
            &&& spec_get_placeholder(rule, e) is None
            &&& !spec_is_trivia(n.kind)
            &&& (n.kind == SyntaxKind::RecordExprFieldList ==> spec_field_list_wf(n))
            &&& spec_plain_children(rule, n, 0)
        },
    }
}

pub open spec fn spec_plain_children(rule: ResolvedRule, n: Node, i: int) -> bool
    decreases n, (if i <= n.children@.len() { n.children@.len() - i } else { 0int }),
{
    if 0 <= i < n.children@.len() {
        spec_plain(rule, n.children@[i]) && spec_plain_children(rule, n, i + 1)
    } else {
        true
    }
}

/// Every element of the sequence is plain.
pub open spec fn spec_plain_seq(rule: ResolvedRule, s: Seq<Element>) -> bool {
    forall|i: int| 0 <= i < s.len() ==> spec_plain(rule, #[trigger] s[i])
}

proof fn lemma_plain_children_all(rule: ResolvedRule, n: Node, i: int)
    requires
        0 <= i,
        spec_plain_children(rule, n, i),
    ensures
        forall|j: int| i <= j < n.children@.len() ==> spec_plain(rule, #[trigger] n.children@[j]),
    decreases n.children@.len() - i,
{
    if 0 <= i < n.children@.len() {
        lemma_plain_children_all(rule, n, i + 1);
    }
}

proof fn lemma_plain_node_children(rule: ResolvedRule, n: Node)
    requires
        spec_plain(rule, Element::Node(n)),
    ensures
        spec_plain_seq(rule, n.children@),
{
    lemma_plain_children_all(rule, n, 0);
}

/// A child found by kind is one of the children.
proof fn lemma_find_child_is_child(s: Seq<Element>, i: int, k: SyntaxKind)
    requires
        0 <= i,
    ensures
        spec_find_child_of_kind(s, i, k) matches Some(m) ==> exists|j: int|
            0 <= j < s.len() && s[j] == Element::Node(m),
    decreases (if i <= s.len() { s.len() - i } else { 0int }),
{
    if 0 <= i < s.len() {
        lemma_find_child_is_child(s, i + 1, k);
        match s[i] {
            Element::Node(n) => {
                if n.kind == k {
                    assert(s[i] == Element::Node(n));
                } else {
                    lift_find_child_witness(s, i, k);
                }
            },
            Element::Token(_) => {
                lift_find_child_witness(s, i, k);
            },
        }
    }
}

proof fn lift_find_child_witness(s: Seq<Element>, i: int, k: SyntaxKind)
    requires
        0 <= i < s.len(),
        spec_find_child_of_kind(s, i + 1, k) matches Some(m) ==> exists|j: int|
            0 <= j < s.len() && s[j] == Element::Node(m),
        spec_find_child_of_kind(s, i, k) == spec_find_child_of_kind(s, i + 1, k),
    ensures
        spec_find_child_of_kind(s, i, k) matches Some(m) ==> exists|j: int|
            0 <= j < s.len() && s[j] == Element::Node(m),
{
}

/// Matching one token of a tree against itself consumes exactly that token.
proof fn lemma_token_step_reflexive(s: Seq<Element>, pi: int, cn: int)
    requires
        0 <= pi,
        spec_next_non_trivia(s, pi) == cn,
        0 <= cn < s.len(),
        s[cn] matches Element::Token(t) && !spec_is_trivia(t.kind),
    ensures
        s[cn] matches Element::Token(t) && spec_token_step(s, pi, t) == Some(cn + 1),
{
}

/// Reflexivity of the node dispatch: a plain tree matches itself.
pub proof fn lemma_reflexive_node(cx: Cx, n: Node)
    requires
        spec_plain(cx.rule, Element::Node(n)),
    ensures
        spec_match_node(cx, n, n),
    decreases node_size(n), 5int, 0int,
{
    lemma_plain_node_children(cx.rule, n);
    if n.resolved_call is Some && n.kind == SyntaxKind::CallExpr && n.kind
        == SyntaxKind::MethodCallExpr {
        // A node cannot be of two kinds at once.
        assert(false);
    }
    if n.kind == SyntaxKind::RecordExprFieldList {
        lemma_reflexive_rfl(cx, n.children@, 0);
        assert(spec_fields_upto(n.children@, 0).map_values(|e: (Seq<char>, int)| e.0)
            =~= Seq::<Seq<char>>::empty());
    } else if n.kind == SyntaxKind::TokenTree {
        lemma_reflexive_tt(cx, n.children@, 0, 0);
    } else if n.kind == SyntaxKind::Path {
        lemma_reflexive_path(cx, n);
    } else {
        lemma_reflexive_seq(cx, n.children@, 0, 0);
    }
}

/// Reflexivity of ordered alignment, for two cursors that agree on the next
/// non-trivia element of the same sequence.
proof fn lemma_reflexive_seq(cx: Cx, s: Seq<Element>, pi: int, ci: int)
    requires
        spec_plain_seq(cx.rule, s),
        0 <= pi,
        0 <= ci,
        spec_next_non_trivia(s, pi) == spec_next_non_trivia(s, ci),
    ensures
        spec_match_seq(cx, s, pi, s, ci),
    decreases elems_size_from(s, ci), 7int, 0int,
{
    let cn = spec_next_non_trivia(s, ci);
    crate::syntax::lemma_next_non_trivia_props(s, ci);
    if cn < s.len() {
        match s[cn] {
            Element::Token(t) => {
                lemma_token_step_reflexive(s, pi, cn);
                lemma_reflexive_seq(cx, s, cn + 1, cn + 1);
            },
            Element::Node(m) => {
                assert(spec_plain(cx.rule, s[cn]));
                lemma_reflexive_node(cx, m);
                lemma_reflexive_seq(cx, s, cn + 1, cn + 1);
            },
        }
    }
}

/// Reflexivity of token-tree matching, with the same cursor agreement.
proof fn lemma_reflexive_tt(cx: Cx, s: Seq<Element>, pi: int, ci: int)
    requires
        spec_plain_seq(cx.rule, s),
        0 <= pi,
        0 <= ci,
        spec_next_non_trivia(s, pi) == spec_next_non_trivia(s, ci),
    ensures
        spec_match_tt(cx, s, pi, s, ci),
    decreases elems_size_from(s, ci), 7int, 0int,
{
    if 0 <= ci < s.len() {
        let pn = spec_next_non_trivia(s, pi);
        if pn < s.len() {
            assert(spec_plain(cx.rule, s[pn]));
            assert(spec_get_placeholder(cx.rule, s[pn]) is None);
        }
        match s[ci] {
            Element::Token(t) => {
                if spec_is_trivia(t.kind) {
                    assert(spec_next_non_trivia(s, ci) == spec_next_non_trivia(s, ci + 1));
                    lemma_reflexive_tt(cx, s, pi, ci + 1);
                } else {
                    assert(spec_next_non_trivia(s, ci) == ci);
                    lemma_token_step_reflexive(s, pi, ci);
                    lemma_reflexive_tt(cx, s, ci + 1, ci + 1);
                }
            },
            Element::Node(m) => {
                assert(spec_plain(cx.rule, s[ci]));
                assert(!spec_is_trivia(m.kind));
                assert(spec_next_non_trivia(s, ci) == ci);
                lemma_plain_node_children(cx.rule, m);
                lemma_reflexive_tt(cx, m.children@, 0, 0);
                lemma_reflexive_tt(cx, s, ci + 1, ci + 1);
            },
        }
    }
}

/// Reflexivity of a path node against itself.
proof fn lemma_reflexive_path(cx: Cx, n: Node)
    requires
        spec_plain(cx.rule, Element::Node(n)),
    ensures
        spec_match_path(cx, n, n),
    decreases node_size(n), 4int, 0int,
{
    lemma_plain_node_children(cx.rule, n);
    match n.resolution {
        Some(_) => {
            match spec_find_child_of_kind(n.children@, 0, SyntaxKind::PathSegment) {
                Some(seg) => {
                    lemma_find_child_is_child(n.children@, 0, SyntaxKind::PathSegment);
                    assert(spec_plain(cx.rule, Element::Node(seg))) by {
                        let j = choose|j: int|
                            0 <= j < n.children@.len() && n.children@[j] == Element::Node(seg);
                        assert(spec_plain(cx.rule, n.children@[j]));
                    }
                    lemma_plain_node_children(cx.rule, seg);
                    lemma_reflexive_opt_of_kind(cx, seg, SyntaxKind::TypeArgList);
                    lemma_reflexive_opt_of_kind(cx, seg, SyntaxKind::ParamList);
                },
                None => {},
            }
        },
        None => {
            lemma_reflexive_seq(cx, n.children@, 0, 0);
        },
    }
}

/// Matching a segment's optional sub-list of a given kind against itself.
proof fn lemma_reflexive_opt_of_kind(cx: Cx, seg: Node, k: SyntaxKind)
    requires
        spec_plain_seq(cx.rule, seg.children@),
    ensures
        spec_match_opt(
            cx,
            spec_find_child_of_kind(seg.children@, 0, k),
            spec_find_child_of_kind(seg.children@, 0, k),
        ),
    decreases node_size(seg), 5int, 1int,
{
    match spec_find_child_of_kind(seg.children@, 0, k) {
        Some(m) => {
            lemma_find_child_is_child(seg.children@, 0, k);
            assert(spec_plain(cx.rule, Element::Node(m))) by {
                let j = choose|j: int|
                    0 <= j < seg.children@.len() && seg.children@[j] == Element::Node(m);
                assert(spec_plain(cx.rule, seg.children@[j]));
            }
            lemma_reflexive_node(cx, m);
        },
        None => {},
    }
}

/// With pairwise distinct names, looking a name up finds the entry that
/// carries it.
proof fn lemma_field_find_unique(fl: Seq<(Seq<char>, int)>, name: Seq<char>, v: int)
    requires
        forall|i: int, j: int|
            #![trigger fl[i], fl[j]]
            0 <= i < j < fl.len() ==> fl[i].0 != fl[j].0,
        exists|i: int| 0 <= i < fl.len() && fl[i] == (name, v),
    ensures
        spec_field_find(fl, name) == Some(v),
    decreases fl.len(),
{
    let i = choose|i: int| 0 <= i < fl.len() && fl[i] == (name, v);
    if i == fl.len() - 1 {
        assert(fl.last() == (name, v));
    } else {
        assert(fl.last().0 != name) by {
            assert(fl[i].0 == name && fl[fl.len() - 1] == fl.last());
        }
        assert(fl.drop_last()[i] == (name, v));
        lemma_field_find_unique(fl.drop_last(), name, v);
    }
}

/// The names consumed after walking the first `i` pattern fields: the names
/// of the index entries the first `i` children contribute.
pub open spec fn consumed_upto(s: Seq<Element>, i: int) -> Seq<Seq<char>> {
    spec_fields_upto(s, i).map_values(|e: (Seq<char>, int)| e.0)
}

/// Reflexivity of order-independent field matching: walking the fields of a
/// well-formed list against its own index consumes every entry.
proof fn lemma_reflexive_rfl(cx: Cx, s: Seq<Element>, pi: int)
    requires
        spec_plain_seq(cx.rule, s),
        0 <= pi <= s.len(),
        forall|i: int|
            0 <= i < s.len() && s[i] is Node ==> ((#[trigger] s[i]) matches Element::Node(f)
                && f.kind == SyntaxKind::RecordExprField && spec_field_name(f) is Some),
        forall|i: int, j: int|
            #![trigger s[i], s[j]]
            0 <= i < j < s.len() && s[i] is Node && s[j] is Node ==> field_name_text(
                elem_node(s[i]),
            ) != field_name_text(elem_node(s[j])),
    ensures
        spec_match_rfl_fields(
            cx,
            s,
            pi,
            s,
            spec_fields_upto(s, s.len() as int),
            consumed_upto(s, pi),
        ),
    decreases elems_size_from(s, 0), 7int, (if pi <= s.len() { s.len() - pi } else { 0int }),
{
    crate::matching::lemma_fields_upto_valid(s, s.len() as int);
    crate::matching::lemma_fields_upto_valid(s, pi);
    let fl = spec_fields_upto(s, s.len() as int);
    let consumed = consumed_upto(s, pi);
    if pi < s.len() {
        match s[pi] {
            Element::Node(pf) => {
                assert(s[pi] is Node);
                assert(pf.kind == SyntaxKind::RecordExprField && spec_field_name(pf) is Some);
                let t = spec_field_name(pf)->0;
                assert(pf.children@.len() > 0 && spec_only_ident(pf.children@[0]) == Some(t));
                assert(spec_plain(cx.rule, s[pi]));
                assert(spec_get_placeholder(cx.rule, pf.children@[0]) is None) by {
                    lemma_plain_children_all(cx.rule, pf, 0);
                    lemma_placeholder_free_children(cx.rule, pf);
                }
                // The field's name was not consumed by an earlier field.
                assert(!consumed.contains(t.text@)) by {
                    if consumed.contains(t.text@) {
                        let j = choose|j: int|
                            0 <= j < consumed.len() && consumed[j] == t.text@;
                        let e = spec_fields_upto(s, pi)[j];
                        assert(e.0 == t.text@ && 0 <= e.1 < pi && s[e.1] is Node);
                        assert(field_name_text(elem_node(s[e.1])) == field_name_text(
                            elem_node(s[pi]),
                        ));
                        assert(false);
                    }
                }
                // Looking the name up finds this very field.
                assert(spec_field_find(fl, t.text@) == Some(pi)) by {
                    lemma_upto_has_entry(s, pi);
                    assert forall|i: int, j: int|
                        #![trigger fl[i], fl[j]]
                        0 <= i < j < fl.len() implies fl[i].0 != fl[j].0 by {
                        assert(s[fl[i].1] is Node && s[fl[j].1] is Node);
                        lemma_upto_entries_distinct(s, s.len() as int, i, j);
                        if fl[i].1 < fl[j].1 {
                            assert(field_name_text(elem_node(s[fl[i].1])) != field_name_text(
                                elem_node(s[fl[j].1]),
                            ));
                        } else {
                            assert(field_name_text(elem_node(s[fl[j].1])) != field_name_text(
                                elem_node(s[fl[i].1]),
                            ));
                        }
                    }
                    lemma_field_find_unique(fl, t.text@, pi);
                }
                lemma_reflexive_node(cx, pf);
                lemma_reflexive_rfl(cx, s, pi + 1);
                assert(consumed_upto(s, pi + 1) =~= consumed.push(t.text@));
            },
            Element::Token(_) => {
                lemma_reflexive_rfl(cx, s, pi + 1);
                assert(consumed_upto(s, pi + 1) =~= consumed);
            },
        }
    } else {
        // Everything the index lists was consumed.
        assert(spec_all_consumed(fl, consumed)) by {
            assert forall|j: int| 0 <= j < fl.len() implies consumed.contains(fl[j].0) by {
                assert(pi == s.len());
                assert(consumed[j] == fl[j].0);
            }
        }
    }
}

/// A named field child contributes its entry `(name, index)` to the index.
proof fn lemma_upto_has_entry(s: Seq<Element>, i: int)
    requires
        0 <= i < s.len(),
        s[i] is Node,
        elem_node(s[i]).kind == SyntaxKind::RecordExprField,
        spec_field_name(elem_node(s[i])) is Some,
    ensures
        exists|j: int|
            0 <= j < spec_fields_upto(s, s.len() as int).len() && spec_fields_upto(
                s,
                s.len() as int,
            )[j] == (spec_field_name(elem_node(s[i]))->0.text@, i),
    decreases s.len(),
{
    lemma_upto_entry_in_prefix(s, i + 1, s.len() as int, i);
}

/// An entry present in `spec_fields_upto(s, a)` is present in any longer
/// prefix, and the child at `i` contributes its entry to `upto(i + 1)`.
proof fn lemma_upto_entry_in_prefix(s: Seq<Element>, a: int, b: int, i: int)
    requires
        0 <= i < a <= b <= s.len(),
        s[i] is Node,
        elem_node(s[i]).kind == SyntaxKind::RecordExprField,
        spec_field_name(elem_node(s[i])) is Some,
    ensures
        exists|j: int|
            0 <= j < spec_fields_upto(s, b).len() && spec_fields_upto(s, b)[j] == (
                spec_field_name(elem_node(s[i]))->0.text@,
                i,
            ),
    decreases b,
{
    if b == a {
        if a == i + 1 {
            let e = (spec_field_name(elem_node(s[i]))->0.text@, i);
            assert(spec_fields_upto(s, a) == spec_fields_upto(s, i) + crate::matching::spec_field_entry(
                s,
                i,
            ));
            assert(spec_fields_upto(s, a)[spec_fields_upto(s, i).len() as int] == e);
        } else {
            lemma_upto_entry_in_prefix(s, a - 1, a - 1, i);
            let j = choose|j: int|
                0 <= j < spec_fields_upto(s, a - 1).len() && (#[trigger] spec_fields_upto(
                    s,
                    a - 1,
                )[j]) == (spec_field_name(elem_node(s[i]))->0.text@, i);
            assert(spec_fields_upto(s, a)[j] == spec_fields_upto(s, a - 1)[j]);
        }
    } else {
        lemma_upto_entry_in_prefix(s, a, b - 1, i);
        let j = choose|j: int|
            0 <= j < spec_fields_upto(s, b - 1).len() && (#[trigger] spec_fields_upto(
                s,
                b - 1,
            )[j]) == (spec_field_name(elem_node(s[i]))->0.text@, i);
        assert(spec_fields_upto(s, b)[j] == spec_fields_upto(s, b - 1)[j]);
    }
}

/// Distinct index entries point at distinct children.
proof fn lemma_upto_entries_distinct(s: Seq<Element>, b: int, i: int, j: int)
    requires
        0 <= b <= s.len(),
        0 <= i < j < spec_fields_upto(s, b).len(),
    ensures
        spec_fields_upto(s, b)[i].1 != spec_fields_upto(s, b)[j].1,
    decreases b,
{
    crate::matching::lemma_fields_upto_valid(s, b);
    if b > 0 {
        let prev = spec_fields_upto(s, b - 1);
        if j < prev.len() {
            assert(spec_fields_upto(s, b)[i] == prev[i]);
            assert(spec_fields_upto(s, b)[j] == prev[j]);
            lemma_upto_entries_distinct(s, b - 1, i, j);
        } else {
            crate::matching::lemma_fields_upto_valid(s, b - 1);
            assert(spec_fields_upto(s, b)[j].1 == b - 1);
            assert(spec_fields_upto(s, b)[i] == prev[i]);
            assert(prev[i].1 < b - 1);
        }
    }
}

/// A plain node's placeholder table lookups fail for its first child too.
proof fn lemma_placeholder_free_children(rule: ResolvedRule, n: Node)
    requires
        spec_plain_children(rule, n, 0),
        n.children@.len() > 0,
    ensures
        spec_get_placeholder(rule, n.children@[0]) is None,
{
    lemma_plain_children_all(rule, n, 0);
    assert(spec_plain(rule, n.children@[0]));
    match n.children@[0] {
        Element::Token(_) => {},
        Element::Node(_) => {},
    }
}

/// Reflexivity: matching a pattern containing no placeholders against the
/// very tree it was parsed from always succeeds, in either phase.
pub proof fn lemma_reflexivity(cx: Cx, n: Node)
    requires
        spec_plain(cx.rule, Element::Node(n)),
        cx.rule.pattern.node == n,
        cx.second ==> spec_range_ok(cx.restrict_range, n.range),
    ensures
        spec_match_node(cx, cx.rule.pattern.node, n),
{
    lemma_reflexive_node(cx, n);
}

/// The same matching inputs, with the recording phase's extra checks
/// switched off.
pub open spec fn first_of(cx: Cx) -> Cx {
    Cx { rule: cx.rule, restrict_range: cx.restrict_range, second: false }
}

/// The two phases share one traversal, and the recording phase only adds
/// checks: whatever it accepts, the first phase accepts too. (The converse
/// does not hold: path and call resolution are compared only while
/// recording, on purpose.)
pub proof fn lemma_recording_phase_implies_first(cx: Cx, p: Node, c: Node)
    requires
        spec_match_node(cx, p, c),
    ensures
        spec_match_node(first_of(cx), p, c),
    decreases node_size(c), 5int, 0int,
{
    match spec_get_placeholder(cx.rule, Element::Node(p)) {
        Some(_) => {},
        None => {
            if p.resolved_call is Some && p.kind == SyntaxKind::CallExpr && c.kind
                == SyntaxKind::MethodCallExpr {
                lemma_mono_ufcs(cx, p, c);
            } else if p.kind != c.kind {
            } else if c.kind == SyntaxKind::RecordExprFieldList {
                lemma_mono_rfl_fields(
                    cx,
                    p.children@,
                    0,
                    c.children@,
                    spec_fields_upto(c.children@, c.children@.len() as int),
                    Seq::empty(),
                );
            } else if c.kind == SyntaxKind::TokenTree {
                lemma_mono_tt(cx, p.children@, 0, c.children@, 0);
            } else if c.kind == SyntaxKind::Path {
                lemma_mono_path(cx, p, c);
            } else {
                lemma_mono_seq(cx, p.children@, 0, c.children@, 0);
            }
        },
    }
}

proof fn lemma_mono_seq(cx: Cx, ps: Seq<Element>, pi: int, cs: Seq<Element>, ci: int)
    requires
        spec_match_seq(cx, ps, pi, cs, ci),
    ensures
        spec_match_seq(first_of(cx), ps, pi, cs, ci),
    decreases elems_size_from(cs, ci), 7int, 0int,
{
    let cn = spec_next_non_trivia(cs, ci);
    crate::syntax::lemma_next_non_trivia_props(cs, ci);
    if 0 <= ci && cn < cs.len() {
        match cs[cn] {
            Element::Token(t) => {
                match spec_token_step(ps, pi, t) {
                    Some(pi2) => {
                        lemma_mono_seq(cx, ps, pi2, cs, cn + 1);
                    },
                    None => {},
                }
            },
            Element::Node(n) => {
                let pn = spec_next_non_trivia(ps, pi);
                if pn < ps.len() {
                    match ps[pn] {
                        Element::Node(pnode) => {
                            lemma_recording_phase_implies_first(cx, pnode, n);
                            lemma_mono_seq(cx, ps, pn + 1, cs, cn + 1);
                        },
                        Element::Token(_) => {},
                    }
                }
            },
        }
    }
}

proof fn lemma_mono_opt(cx: Cx, p: Option<Node>, c: Option<Node>)
    requires
        spec_match_opt(cx, p, c),
    ensures
        spec_match_opt(first_of(cx), p, c),
    decreases crate::matching::opt_node_size(c), 5int, 1int,
{
    match p {
        Some(pn) => match c {
            Some(cn) => {
                lemma_recording_phase_implies_first(cx, pn, cn);
            },
            None => {},
        },
        None => {},
    }
}

proof fn lemma_mono_path(cx: Cx, p: Node, c: Node)
    requires
        spec_match_path(cx, p, c),
    ensures
        spec_match_path(first_of(cx), p, c),
    decreases node_size(c), 4int, 0int,
{
    match p.resolution {
        Some(_) => {
            match spec_find_child_of_kind(p.children@, 0, SyntaxKind::PathSegment) {
                Some(psg) => {
                    match spec_find_child_of_kind(c.children@, 0, SyntaxKind::PathSegment) {
                        Some(csg) => {
                            lemma_mono_opt(
                                cx,
                                spec_find_child_of_kind(psg.children@, 0, SyntaxKind::TypeArgList),
                                spec_find_child_of_kind(csg.children@, 0, SyntaxKind::TypeArgList),
                            );
                            lemma_mono_opt(
                                cx,
                                spec_find_child_of_kind(psg.children@, 0, SyntaxKind::ParamList),
                                spec_find_child_of_kind(csg.children@, 0, SyntaxKind::ParamList),
                            );
                        },
                        None => {},
                    }
                },
                None => {},
            }
        },
        None => {
            lemma_mono_seq(cx, p.children@, 0, c.children@, 0);
        },
    }
}

proof fn lemma_mono_ufcs(cx: Cx, p: Node, c: Node)
    requires
        spec_match_ufcs(cx, p, c),
    ensures
        spec_match_ufcs(first_of(cx), p, c),
    decreases node_size(c), 4int, 0int,
{
    match c.resolved_call {
        None => {},
        Some(_) => {
            match spec_find_child_of_kind(p.children@, 0, SyntaxKind::ArgList) {
                None => {},
                Some(pargs) => {
                    let pa0 = crate::syntax::spec_next_node_child(pargs.children@, 0);
                    let popt = if pa0 < pargs.children@.len() {
                        Some(elem_node(pargs.children@[pa0]))
                    } else {
                        None
                    };
                    let ri = crate::syntax::spec_next_node_child(c.children@, 0);
                    let copt = if ri < c.children@.len() {
                        Some(elem_node(c.children@[ri]))
                    } else {
                        None
                    };
                    lemma_mono_opt(cx, popt, copt);
                    match spec_find_child_of_kind(c.children@, 0, SyntaxKind::ArgList) {
                        None => {},
                        Some(cargs) => {
                            lemma_mono_args(cx, pargs.children@, pa0 + 1, cargs.children@, 0);
                        },
                    }
                },
            }
        },
    }
}

proof fn lemma_mono_args(cx: Cx, ps: Seq<Element>, pi: int, cs: Seq<Element>, ci: int)
    requires
        spec_match_args(cx, ps, pi, cs, ci),
    ensures
        spec_match_args(first_of(cx), ps, pi, cs, ci),
    decreases elems_size_from(cs, ci), 6int, 0int,
{
    if 0 <= pi && 0 <= ci {
        let pn = crate::syntax::spec_next_node_child(ps, pi);
        let cn = crate::syntax::spec_next_node_child(cs, ci);
        crate::syntax::lemma_next_node_child_props(cs, ci);
        if pn < ps.len() && cn < cs.len() {
            lemma_mono_opt(cx, Some(elem_node(ps[pn])), Some(elem_node(cs[cn])));
            lemma_mono_args(cx, ps, pn + 1, cs, cn + 1);
        }
    }
}

proof fn lemma_mono_rfl_fields(
    cx: Cx,
    ps: Seq<Element>,
    pi: int,
    cs: Seq<Element>,
    fl: Seq<(Seq<char>, int)>,
    consumed: Seq<Seq<char>>,
)
    requires
        spec_match_rfl_fields(cx, ps, pi, cs, fl, consumed),
    ensures
        spec_match_rfl_fields(first_of(cx), ps, pi, cs, fl, consumed),
    decreases elems_size_from(cs, 0), 7int, crate::matching::pat_rem(ps, pi),
{
    if 0 <= pi < ps.len() {
        match ps[pi] {
            Element::Node(pf) => {
                if pf.children@.len() > 0 {
                    let name_el = pf.children@[0];
                    if spec_get_placeholder(cx.rule, name_el) is Some {
                        lemma_mono_seq(cx, ps, 0, cs, 0);
                    } else {
                        match spec_only_ident(name_el) {
                            Some(t) => {
                                if !consumed.contains(t.text@) {
                                    match spec_field_find(fl, t.text@) {
                                        None => {},
                                        Some(idx) => {
                                            if 0 <= idx < cs.len() && cs[idx] is Node {
                                                lemma_recording_phase_implies_first(
                                                    cx,
                                                    pf,
                                                    elem_node(cs[idx]),
                                                );
                                                lemma_mono_rfl_fields(
                                                    cx,
                                                    ps,
                                                    pi + 1,
                                                    cs,
                                                    fl,
                                                    consumed.push(t.text@),
                                                );
                                            }
                                        },
                                    }
                                }
                            },
                            None => {
                                lemma_mono_rfl_fields(cx, ps, pi + 1, cs, fl, consumed);
                            },
                        }
                    }
                } else {
                    lemma_mono_rfl_fields(cx, ps, pi + 1, cs, fl, consumed);
                }
            },
            Element::Token(_) => {
                lemma_mono_rfl_fields(cx, ps, pi + 1, cs, fl, consumed);
            },
        }
    }
}

proof fn lemma_mono_tt(cx: Cx, ps: Seq<Element>, pi: int, cs: Seq<Element>, ci: int)
    requires
        spec_match_tt(cx, ps, pi, cs, ci),
    ensures
        spec_match_tt(first_of(cx), ps, pi, cs, ci),
    decreases elems_size_from(cs, ci), 7int, 0int,
{
    if 0 <= ci < cs.len() {
        let pn = spec_next_non_trivia(ps, pi);
        if pn < ps.len() && spec_get_placeholder(cx.rule, ps[pn]) is Some {
            let pi2 = pn + 1;
            let pn2 = spec_next_non_trivia(ps, pi2);
            let npt: Option<Seq<char>> = if pn2 < ps.len() {
                match crate::syntax::spec_elem_first_token(ps[pn2]) {
                    Some(t) => Some(t.text@),
                    None => None,
                }
            } else {
                None
            };
            lemma_mono_scan(cx, ps, pi2, cs, ci + 1, npt);
        } else {
            match cs[ci] {
                Element::Token(t) => {
                    match spec_token_step(ps, pi, t) {
                        Some(pi3) => {
                            lemma_mono_tt(cx, ps, pi3, cs, ci + 1);
                        },
                        None => {},
                    }
                },
                Element::Node(n) => {
                    if pn < ps.len() {
                        match ps[pn] {
                            Element::Node(pnode) => {
                                lemma_mono_tt(cx, pnode.children@, 0, n.children@, 0);
                                lemma_mono_tt(cx, ps, pn + 1, cs, ci + 1);
                            },
                            Element::Token(_) => {},
                        }
                    }
                },
            }
        }
    }
}

proof fn lemma_mono_scan(
    cx: Cx,
    ps: Seq<Element>,
    pi: int,
    cs: Seq<Element>,
    ci: int,
    npt: Option<Seq<char>>,
)
    requires
        crate::matching::spec_tt_scan(cx, ps, pi, cs, ci, npt),
    ensures
        crate::matching::spec_tt_scan(first_of(cx), ps, pi, cs, ci, npt),
    decreases elems_size_from(cs, ci), 6int, 0int,
{
    if 0 <= ci < cs.len() {
        match cs[ci] {
            Element::Token(t) => {
                if npt == Some(t.text@) {
                    let pn = spec_next_non_trivia(ps, pi);
                    lemma_mono_tt(
                        cx,
                        ps,
                        if pn < ps.len() {
                            pn + 1
                        } else {
                            pn
                        },
                        cs,
                        ci + 1,
                    );
                } else {
                    lemma_mono_scan(cx, ps, pi, cs, ci + 1, npt);
                }
            },
            Element::Node(n) => {
                let hit = match crate::syntax::spec_elem_first_token(Element::Node(n)) {
                    Some(t0) => npt == Some(t0.text@),
                    None => false,
                };
                if hit {
                    let pn = spec_next_non_trivia(ps, pi);
                    if pn < ps.len() && ps[pn] is Node {
                        lemma_mono_tt(cx, elem_node(ps[pn]).children@, 0, n.children@, 0);
                        lemma_mono_tt(cx, ps, pn + 1, cs, ci + 1);
                    } else {
                        lemma_mono_scan(
                            cx,
                            ps,
                            if pn < ps.len() {
                                pn + 1
                            } else {
                                pn
                            },
                            cs,
                            ci + 1,
                            npt,
                        );
                    }
                } else {
                    lemma_mono_scan(cx, ps, pi, cs, ci + 1, npt);
                }
            },
        }
    }
}

/// A pattern child the field walk would look at: a subtree with a first
/// child to read a name from.
pub open spec fn is_field_candidate(e: Element) -> bool {
    e is Node && elem_node(e).children@.len() > 0
}

/// A placeholder in a field-name position abandons order independence: when
/// the first field the walk reaches carries one, the whole field list
/// matches exactly as ordered matching decides.
pub proof fn lemma_placeholder_field_name_forces_order(cx: Cx, p: Node, c: Node, pi: int)
    requires
        0 <= pi < p.children@.len(),
        forall|j: int| 0 <= j < pi ==> !is_field_candidate(#[trigger] p.children@[j]),
        is_field_candidate(p.children@[pi]),
        spec_get_placeholder(cx.rule, elem_node(p.children@[pi]).children@[0]) is Some,
    ensures
        spec_match_record_field_list(cx, p, c) == spec_match_seq(
            cx,
            p.children@,
            0,
            c.children@,
            0,
        ),
{
    lemma_rfl_walk_reaches_placeholder(
        cx,
        p.children@,
        0,
        pi,
        c.children@,
        spec_fields_upto(c.children@, c.children@.len() as int),
        Seq::empty(),
    );
}

proof fn lemma_rfl_walk_reaches_placeholder(
    cx: Cx,
    ps: Seq<Element>,
    i: int,
    pi: int,
    cs: Seq<Element>,
    fl: Seq<(Seq<char>, int)>,
    consumed: Seq<Seq<char>>,
)
    requires
        0 <= i <= pi < ps.len(),
        forall|j: int| i <= j < pi ==> !is_field_candidate(#[trigger] ps[j]),
        is_field_candidate(ps[pi]),
        spec_get_placeholder(cx.rule, elem_node(ps[pi]).children@[0]) is Some,
    ensures
        spec_match_rfl_fields(cx, ps, i, cs, fl, consumed) == spec_match_seq(cx, ps, 0, cs, 0),
    decreases pi - i,
{
    if i < pi {
        lemma_rfl_walk_reaches_placeholder(cx, ps, i + 1, pi, cs, fl, consumed);
    }
}

/// Range restriction: a candidate whose original range lies outside the
/// supplied restriction is rejected, whatever its structure.
pub proof fn lemma_range_restriction(
    rule: ResolvedRule,
    code: Node,
    restrict_range: Option<FileSpan>,
    ctx: MatchContext,
)
    requires
        !spec_range_ok(restrict_range, code.range),
    ensures
        !spec_try_match(rule, code, restrict_range, ctx),
{
}

/// Call-equivalence only accepts a method call that resolves to the very
/// function the pattern's call was resolved to.
pub proof fn lemma_call_equivalence_same_target(cx: Cx, p: Node, c: Node)
    requires
        spec_get_placeholder(cx.rule, Element::Node(p)) is None,
        p.resolved_call is Some,
        p.kind == SyntaxKind::CallExpr,
        c.kind == SyntaxKind::MethodCallExpr,
        spec_match_node(cx, p, c),
    ensures
        c.resolved_call == p.resolved_call,
{
    assert(spec_match_ufcs(cx, p, c));
}

/// And conversely: a method call that resolves to a different function, or
/// that does not resolve at all, never matches.
pub proof fn lemma_call_equivalence_rejects_other(cx: Cx, p: Node, c: Node)
    requires
        spec_get_placeholder(cx.rule, Element::Node(p)) is None,
        p.resolved_call is Some,
        p.kind == SyntaxKind::CallExpr,
        c.kind == SyntaxKind::MethodCallExpr,
        c.resolved_call != p.resolved_call,
    ensures
        !spec_match_node(cx, p, c),
{
}

} // verus!
