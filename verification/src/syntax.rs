//! The syntax tree model the matcher walks: kinds, source ranges, tokens,
//! nodes, and the size measure that recursion over trees decreases on.
//!
//! A node carries, besides its kind and children, the answers that the
//! external semantic services would give for it: its range in the original
//! (pre-macro-expansion) file, and, for path and method-call nodes, what the
//! node resolves to. The resolution stage that computes those answers is a
//! collaborator outside this crate; the matcher only reads them.

use vstd::prelude::*;

verus! {

/// The syntactic kind of a token or node. Only the kinds the matcher treats
/// specially are named; every other kind is carried as `Other`.
#[derive(Clone, Copy, Debug, PartialEq, Eq, Structural)]
pub enum SyntaxKind {
    Whitespace,
    Comment,
    Ident,
    Comma,
    LParen,
    RParen,
    LCurly,
    RCurly,
    LBrack,
    RBrack,
    Literal,
    NameRef,
    Path,
    PathSegment,
    TypeArgList,
    ParamList,
    ArgList,
    CallExpr,
    MethodCallExpr,
    PathExpr,
    BinExpr,
    RecordExprField,
    RecordExprFieldList,
    TokenTree,
    MacroCall,
    Other(u16),
}

/// Whitespace and comments: skipped during structural alignment.
pub open spec fn spec_is_trivia(kind: SyntaxKind) -> bool {
    kind == SyntaxKind::Whitespace || kind == SyntaxKind::Comment
}

pub fn is_trivia(kind: SyntaxKind) -> (r: bool)
    ensures
        r == spec_is_trivia(kind),
{
    kind == SyntaxKind::Whitespace || kind == SyntaxKind::Comment
}

/// A token that closes a delimited list; a separator just before one of these
/// is the "trailing separator" the aligner tolerates.
pub open spec fn spec_is_closing_token(kind: SyntaxKind) -> bool {
    kind == SyntaxKind::RParen || kind == SyntaxKind::RCurly || kind == SyntaxKind::RBrack
}

pub fn is_closing_token(kind: SyntaxKind) -> (r: bool)
    ensures
        r == spec_is_closing_token(kind),
{
    kind == SyntaxKind::RParen || kind == SyntaxKind::RCurly || kind == SyntaxKind::RBrack
}

/// A half-open span of text offsets within one file.
#[derive(Clone, Copy, Debug, PartialEq, Eq, Structural)]
pub struct TextSpan {
    pub start: u32,
    pub end: u32,
}

impl TextSpan {
    /// Whether `other` lies entirely within `self`.
    pub open spec fn spec_contains_span(self, other: TextSpan) -> bool {
        self.start <= other.start && other.end <= self.end
    }

    pub fn contains_span(&self, other: &TextSpan) -> (r: bool)
        ensures
            r == self.spec_contains_span(*other),
    {
        self.start <= other.start && other.end <= self.end
    }

    /// The smallest span covering both `self` and `other`.
    pub open spec fn spec_cover(self, other: TextSpan) -> TextSpan {
        TextSpan {
            start: if self.start <= other.start {
                self.start
            } else {
                other.start
            },
            end: if self.end >= other.end {
                self.end
            } else {
                other.end
            },
        }
    }

    pub fn cover(&self, other: &TextSpan) -> (r: TextSpan)
        ensures
            r == self.spec_cover(*other),
    {
        TextSpan {
            start: if self.start <= other.start {
                self.start
            } else {
                other.start
            },
            end: if self.end >= other.end {
                self.end
            } else {
                other.end
            },
        }
    }
}

/// A span of text in a named file: what a node maps back to in the original,
/// pre-macro-expansion source.
#[derive(Clone, Copy, Debug, PartialEq, Eq, Structural)]
pub struct FileSpan {
    pub file_id: u32,
    pub span: TextSpan,
}

/// What the semantic resolution service says a path refers to. Only
/// module-level definitions can be rendered into a template path; every other
/// answer is carried as `OtherDef`.
#[derive(Clone, Copy, Debug, PartialEq, Eq, Structural)]
pub enum PathResolution {
    /// A module-level definition, identified by the service's stable id.
    Def(u64),
    /// Anything else a path may resolve to (a local, a generic parameter, ...).
    OtherDef(u64),
}

/// A leaf of the tree: a kind, its exact text, and its span within the file
/// of the node that owns it.
#[derive(Debug)]
pub struct Token {
    pub kind: SyntaxKind,
    pub text: String,
    pub span: TextSpan,
}

/// An interior node of the tree.
///
/// `range` models the node's range in the original file. `resolution` models
/// the resolution service's answer for a path node (`None` when resolution
/// fails or was never recorded); `resolved_call` its answer for a call or
/// method-call node. On pattern nodes these fields hold what the rule's
/// resolution stage pre-recorded; on candidate nodes, what the service would
/// answer at match time.
pub struct Node {
    pub kind: SyntaxKind,
    pub children: Vec<Element>,
    pub range: FileSpan,
    pub resolution: Option<PathResolution>,
    pub resolved_call: Option<u64>,
}

/// A child of a node: either a subtree or a token.
pub enum Element {
    Node(Node),
    Token(Token),
}

impl Element {
    pub open spec fn spec_kind(self) -> SyntaxKind {
        match self {
            Element::Node(n) => n.kind,
            Element::Token(t) => t.kind,
        }
    }

    pub fn kind(&self) -> (k: SyntaxKind)
        ensures
            k == self.spec_kind(),
    {
        match self {
            Element::Node(n) => n.kind,
            Element::Token(t) => t.kind,
        }
    }
}

/// The size of an element: one for a token, one plus the sizes of the
/// children for a node. Recursions of the matcher decrease on it.
pub open spec fn elem_size(e: Element) -> int
    decreases e, 0int,
{
    match e {
        Element::Token(_) => 1int,
        Element::Node(n) => 1int + elems_size_from(n.children@, 0),
    }
}

/// The summed size of the elements of `s` from index `i` on.
pub open spec fn elems_size_from(s: Seq<Element>, i: int) -> int
    decreases s, (if i <= s.len() { s.len() - i } else { 0int }),
{
    if 0 <= i < s.len() {
        elem_size(s[i]) + elems_size_from(s, i + 1)
    } else {
        0
    }
}

pub open spec fn node_size(n: Node) -> int {
    1int + elems_size_from(n.children@, 0)
}

pub proof fn lemma_elem_size_pos(e: Element)
    ensures
        elem_size(e) >= 1,
    decreases e, 0int,
{
    match e {
        Element::Token(_) => {},
        Element::Node(n) => {
            lemma_elems_size_from_nonneg(n.children@, 0);
        },
    }
}

pub proof fn lemma_elems_size_from_nonneg(s: Seq<Element>, i: int)
    ensures
        elems_size_from(s, i) >= 0,
    decreases s, (if i <= s.len() { s.len() - i } else { 0int }),
{
    if 0 <= i < s.len() {
        lemma_elem_size_pos(s[i]);
        lemma_elems_size_from_nonneg(s, i + 1);
    }
}

pub broadcast proof fn lemma_auto_elems_size_from_nonneg(s: Seq<Element>, i: int)
    ensures
        #[trigger] elems_size_from(s, i) >= 0,
{
    lemma_elems_size_from_nonneg(s, i);
}

pub broadcast proof fn lemma_auto_elem_size_pos(e: Element)
    ensures
        #[trigger] elem_size(e) >= 1,
{
    lemma_elem_size_pos(e);
}

pub broadcast proof fn lemma_auto_node_size_pos(n: Node)
    ensures
        #[trigger] node_size(n) >= 1,
{
    lemma_elems_size_from_nonneg(n.children@, 0);
}

pub broadcast proof fn lemma_auto_elems_size_from_bound(s: Seq<Element>, i: int, j: int)
    ensures
        #![trigger elems_size_from(s, i), s[j]]
        0 <= i <= j < s.len() ==> elems_size_from(s, i) >= elem_size(s[j]) + elems_size_from(
            s,
            j + 1,
        ),
{
    if 0 <= i <= j < s.len() {
        lemma_elems_size_from_bound(s, i, j);
    }
}

pub broadcast proof fn lemma_auto_elems_size_from_mono(s: Seq<Element>, i: int, j: int)
    ensures
        #![trigger elems_size_from(s, i), elems_size_from(s, j)]
        0 <= i <= j <= s.len() ==> elems_size_from(s, i) >= elems_size_from(s, j),
{
    if 0 <= i <= j <= s.len() {
        lemma_elems_size_from_bound(s, i, j);
    }
}

pub broadcast group group_tree_size {
    lemma_auto_elems_size_from_nonneg,
    lemma_auto_elem_size_pos,
    lemma_auto_node_size_pos,
    lemma_auto_elems_size_from_bound,
    lemma_auto_elems_size_from_mono,
}

/// `b` begins with `a`: entries are only ever appended.
pub open spec fn seq_extends<T>(a: Seq<T>, b: Seq<T>) -> bool {
    a.len() <= b.len() && forall|i: int| 0 <= i < a.len() ==> a[i] == b[i]
}

pub broadcast proof fn lemma_auto_seq_extends_trans<T>(a: Seq<T>, b: Seq<T>, c: Seq<T>)
    ensures
        #![trigger seq_extends(a, b), seq_extends(b, c)]
        seq_extends(a, b) && seq_extends(b, c) ==> seq_extends(a, c),
{
    if seq_extends(a, b) && seq_extends(b, c) {
        assert forall|i: int| 0 <= i < a.len() implies a[i] == c[i] by {
            assert(a[i] == b[i]);
        }
    }
}

/// Structural equality of tokens: kind, text and span.
pub open spec fn token_eq(a: Token, b: Token) -> bool {
    a.kind == b.kind && a.text@ == b.text@ && a.span == b.span
}

/// Structural equality of elements, field by field and child by child.
pub open spec fn elem_eq(a: Element, b: Element) -> bool
    decreases a, 0int,
{
    match a {
        Element::Token(x) => match b {
            Element::Token(y) => token_eq(x, y),
            Element::Node(_) => false,
        },
        Element::Node(x) => match b {
            Element::Node(y) => x.kind == y.kind && x.range == y.range && x.resolution
                == y.resolution && x.resolved_call == y.resolved_call && x.children@.len()
                == y.children@.len() && children_eq_from(x, y, 0),
            Element::Token(_) => false,
        },
    }
}

pub open spec fn children_eq_from(a: Node, b: Node, i: int) -> bool
    decreases a, (if i <= a.children@.len() { a.children@.len() - i } else { 0int }),
{
    if 0 <= i < a.children@.len() {
        (i < b.children@.len() && elem_eq(a.children@[i], b.children@[i])) && children_eq_from(
            a,
            b,
            i + 1,
        )
    } else {
        true
    }
}

pub open spec fn node_eq(a: Node, b: Node) -> bool {
    elem_eq(Element::Node(a), Element::Node(b))
}

/// From an earlier index the summed size is at least what it is from a later
/// one, and each element in between contributes its full size.
pub proof fn lemma_elems_size_from_bound(s: Seq<Element>, i: int, j: int)
    requires
        0 <= i <= j <= s.len(),
    ensures
        elems_size_from(s, i) >= elems_size_from(s, j),
        j < s.len() ==> elems_size_from(s, i) >= elem_size(s[j]) + elems_size_from(s, j + 1),
    decreases j - i,
{
    if i < j {
        lemma_elem_size_pos(s[i]);
        lemma_elems_size_from_bound(s, i + 1, j);
    } else {
        if j < s.len() {
            lemma_elems_size_from_nonneg(s, j + 1);
        }
    }
}

impl Token {
    /// A copy of the token, equal to it.
    pub fn deep_clone(&self) -> (r: Token)
        ensures
            r == *self,
    {
        Token { kind: self.kind, text: self.text.clone(), span: self.span }
    }
}

/// A copy of the element, equal to it structurally.
pub fn deep_clone_element(e: &Element) -> (r: Element)
    ensures
        elem_eq(r, *e),
    decreases elem_size(*e), 1int,
{
    match e {
        Element::Token(t) => Element::Token(t.deep_clone()),
        Element::Node(n) => {
            proof {
                lemma_elems_size_from_nonneg(n.children@, 0);
            }
            Element::Node(n.deep_clone())
        },
    }
}

impl Node {
    /// A copy of the whole subtree, equal to it structurally.
    pub fn deep_clone(&self) -> (r: Node)
        ensures
            node_eq(r, *self),
        decreases elem_size(Element::Node(*self)), 0int,
    {
        let mut children: Vec<Element> = Vec::new();
        let mut i: usize = 0;
        while i < self.children.len()
            invariant
                i <= self.children.len(),
                children@.len() == i as int,
                forall|j: int| 0 <= j < i ==> elem_eq(children@[j], self.children@[j]),
            decreases self.children.len() - i,
        {
            proof {
                lemma_elems_size_from_bound(self.children@, 0, i as int);
                lemma_elems_size_from_nonneg(self.children@, i as int + 1);
                lemma_elem_size_pos(self.children@[i as int]);
            }
            let c = deep_clone_element(&self.children[i]);
            children.push(c);
            i = i + 1;
        }
        let r = Node {
            kind: self.kind,
            children,
            range: self.range,
            resolution: self.resolution,
            resolved_call: self.resolved_call,
        };
        proof {
            lemma_children_eq_from_pointwise(r, *self, 0);
        }
        r
    }
}

/// Pointwise equality of children from `i` on gives `children_eq_from`.
proof fn lemma_children_eq_from_pointwise(a: Node, b: Node, i: int)
    requires
        0 <= i,
        a.children@.len() == b.children@.len(),
        forall|j: int| i <= j < a.children@.len() ==> elem_eq(a.children@[j], b.children@[j]),
    ensures
        children_eq_from(a, b, i),
    decreases (if i <= a.children@.len() { a.children@.len() - i } else { 0int }),
{
    if 0 <= i < a.children@.len() {
        lemma_children_eq_from_pointwise(a, b, i + 1);
    }
}

/// The first token of an element, in depth-first order; for a node this is
/// the first token of its first child, with no backtracking past an empty
/// inner node.
pub open spec fn spec_elem_first_token(e: Element) -> Option<Token>
    decreases e,
{
    match e {
        Element::Token(t) => Some(t),
        Element::Node(n) => if n.children@.len() == 0 {
            None
        } else {
            spec_elem_first_token(n.children@[0])
        },
    }
}

pub fn elem_first_token<'a>(e: &'a Element) -> (r: Option<&'a Token>)
    ensures
        match r {
            Some(t) => spec_elem_first_token(*e) == Some(*t),
            None => spec_elem_first_token(*e) is None,
        },
    decreases *e,
{
    match e {
        Element::Token(t) => Some(t),
        Element::Node(n) => {
            if n.children.len() == 0 {
                None
            } else {
                elem_first_token(&n.children[0])
            }
        },
    }
}

/// The index of the first non-trivia element at or after `i`, or the length
/// when there is none.
pub open spec fn spec_next_non_trivia(s: Seq<Element>, i: int) -> int
    decreases (if i <= s.len() { s.len() - i } else { 0int }),
{
    if 0 <= i < s.len() {
        if spec_is_trivia(s[i].spec_kind()) {
            spec_next_non_trivia(s, i + 1)
        } else {
            i
        }
    } else {
        s.len() as int
    }
}

pub proof fn lemma_next_non_trivia_props(s: Seq<Element>, i: int)
    requires
        0 <= i,
    ensures
        spec_next_non_trivia(s, i) <= s.len(),
        i <= s.len() ==> i <= spec_next_non_trivia(s, i),
        spec_next_non_trivia(s, i) < s.len() ==> !spec_is_trivia(
            s[spec_next_non_trivia(s, i)].spec_kind(),
        ),
    decreases (if i <= s.len() { s.len() - i } else { 0int }),
{
    if 0 <= i < s.len() && spec_is_trivia(s[i].spec_kind()) {
        lemma_next_non_trivia_props(s, i + 1);
    }
}

pub fn next_non_trivia(s: &Vec<Element>, i: usize) -> (j: usize)
    ensures
        j as int == spec_next_non_trivia(s@, i as int),
        j <= s.len(),
    decreases (if i <= s.len() { s@.len() - i } else { 0int }),
{
    proof {
        lemma_next_non_trivia_props(s@, i as int);
    }
    if i < s.len() {
        if is_trivia(s[i].kind()) {
            next_non_trivia(s, i + 1)
        } else {
            i
        }
    } else {
        s.len()
    }
}

/// The index of the first node element at or after `i`, or the length when
/// there is none.
pub open spec fn spec_next_node_child(s: Seq<Element>, i: int) -> int
    decreases (if i <= s.len() { s.len() - i } else { 0int }),
{
    if 0 <= i < s.len() {
        if s[i] is Node {
            i
        } else {
            spec_next_node_child(s, i + 1)
        }
    } else {
        s.len() as int
    }
}

pub proof fn lemma_next_node_child_props(s: Seq<Element>, i: int)
    requires
        0 <= i,
    ensures
        spec_next_node_child(s, i) <= s.len(),
        i <= s.len() ==> i <= spec_next_node_child(s, i),
        spec_next_node_child(s, i) < s.len() ==> s[spec_next_node_child(s, i)] is Node,
    decreases (if i <= s.len() { s.len() - i } else { 0int }),
{
    if 0 <= i < s.len() && !(s[i] is Node) {
        lemma_next_node_child_props(s, i + 1);
    }
}

pub fn next_node_child(s: &Vec<Element>, i: usize) -> (j: usize)
    ensures
        j as int == spec_next_node_child(s@, i as int),
        j <= s.len(),
    decreases (if i <= s.len() { s@.len() - i } else { 0int }),
{
    proof {
        lemma_next_node_child_props(s@, i as int);
    }
    if i < s.len() {
        let is_node = match &s[i] {
            Element::Node(_) => true,
            Element::Token(_) => false,
        };
        if is_node {
            i
        } else {
            next_node_child(s, i + 1)
        }
    } else {
        s.len()
    }
}

/// The first child node of kind `k`, if any: how a typed accessor such as
/// "the path's segment" or "the call's argument list" reads the tree.
pub open spec fn spec_find_child_of_kind(s: Seq<Element>, i: int, k: SyntaxKind) -> Option<Node>
    decreases (if i <= s.len() { s.len() - i } else { 0int }),
{
    if 0 <= i < s.len() {
        match s[i] {
            Element::Node(n) => if n.kind == k {
                Some(n)
            } else {
                spec_find_child_of_kind(s, i + 1, k)
            },
            Element::Token(_) => spec_find_child_of_kind(s, i + 1, k),
        }
    } else {
        None
    }
}

pub proof fn lemma_find_child_of_kind_size(s: Seq<Element>, i: int, k: SyntaxKind)
    requires
        0 <= i,
    ensures
        spec_find_child_of_kind(s, i, k) matches Some(n) ==> node_size(n) <= elems_size_from(s, i),
    decreases (if i <= s.len() { s.len() - i } else { 0int }),
{
    if 0 <= i < s.len() {
        lemma_elems_size_from_nonneg(s, i + 1);
        lemma_find_child_of_kind_size(s, i + 1, k);
        lemma_elem_size_pos(s[i]);
    }
}

pub broadcast proof fn lemma_auto_find_child_of_kind_size(s: Seq<Element>, i: int, k: SyntaxKind)
    ensures
        0 <= i ==> (#[trigger] spec_find_child_of_kind(s, i, k) matches Some(n) ==> node_size(n)
            <= elems_size_from(s, i)),
{
    if 0 <= i {
        lemma_find_child_of_kind_size(s, i, k);
    }
}

pub broadcast proof fn lemma_auto_next_non_trivia_bounds(s: Seq<Element>, i: int)
    ensures
        0 <= i ==> #[trigger] spec_next_non_trivia(s, i) <= s.len(),
        0 <= i <= s.len() ==> i <= spec_next_non_trivia(s, i),
{
    if 0 <= i {
        lemma_next_non_trivia_props(s, i);
    }
}

pub broadcast proof fn lemma_auto_next_node_child_bounds(s: Seq<Element>, i: int)
    ensures
        0 <= i ==> #[trigger] spec_next_node_child(s, i) <= s.len(),
        0 <= i <= s.len() ==> i <= spec_next_node_child(s, i),
        0 <= i && spec_next_node_child(s, i) < s.len() ==> s[spec_next_node_child(s, i)] is Node,
{
    if 0 <= i {
        lemma_next_node_child_props(s, i);
    }
}

pub broadcast group group_tree_bounds {
    lemma_auto_find_child_of_kind_size,
    lemma_auto_next_non_trivia_bounds,
    lemma_auto_next_node_child_bounds,
}

pub fn find_child_of_kind<'a>(s: &'a Vec<Element>, i: usize, k: SyntaxKind) -> (r: Option<
    &'a Node,
>)
    ensures
        match r {
            Some(n) => spec_find_child_of_kind(s@, i as int, k) == Some(*n),
            None => spec_find_child_of_kind(s@, i as int, k) is None,
        },
    decreases (if i <= s.len() { s@.len() - i } else { 0int }),
{
    if i < s.len() {
        match &s[i] {
            Element::Node(n) => {
                if n.kind == k {
                    Some(n)
                } else {
                    find_child_of_kind(s, i + 1, k)
                }
            },
            Element::Token(_) => find_child_of_kind(s, i + 1, k),
        }
    } else {
        None
    }
}

} // verus!
