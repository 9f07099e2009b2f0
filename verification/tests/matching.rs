//! Scenario tests for the structural search matcher: trees are built the way
//! the external parsing and resolution stages would hand them in, and the
//! matcher's verdicts, bindings and diagnostics are checked against them.

use ssr_match::matching::{
    get_match, record_match_fails_reasons_scope, recording_match_fail_reasons, Match,
    MatchContext,
};
use ssr_match::rule::{Constraint, NodeKind, Placeholder, ResolvedPattern, ResolvedRule};
use ssr_match::syntax::{Element, FileSpan, Node, PathResolution, SyntaxKind, TextSpan, Token};

fn span(start: u32, end: u32) -> TextSpan {
    TextSpan { start, end }
}

fn fspan(start: u32, end: u32) -> FileSpan {
    FileSpan {
        file_id: 1,
        span: span(start, end),
    }
}

fn tok(kind: SyntaxKind, text: &str, start: u32) -> Element {
    Element::Token(Token {
        kind,
        text: text.to_string(),
        span: span(start, start + text.len() as u32),
    })
}

fn ws(start: u32) -> Element {
    tok(SyntaxKind::Whitespace, " ", start)
}

fn node(kind: SyntaxKind, children: Vec<Element>, start: u32, end: u32) -> Node {
    Node {
        kind,
        children,
        range: fspan(start, end),
        resolution: None,
        resolved_call: None,
    }
}

fn nd(kind: SyntaxKind, children: Vec<Element>, start: u32, end: u32) -> Element {
    Element::Node(node(kind, children, start, end))
}

/// `PathExpr[Path[PathSegment[NameRef[Ident name]]]]`, every wrapper holding
/// exactly one child, as a parsed identifier expression looks.
fn ident_expr(name: &str, start: u32) -> Node {
    let end = start + name.len() as u32;
    node(
        SyntaxKind::PathExpr,
        vec![nd(
            SyntaxKind::Path,
            vec![nd(
                SyntaxKind::PathSegment,
                vec![nd(
                    SyntaxKind::NameRef,
                    vec![tok(SyntaxKind::Ident, name, start)],
                    start,
                    end,
                )],
                start,
                end,
            )],
            start,
            end,
        )],
        start,
        end,
    )
}

fn ident_expr_el(name: &str, start: u32) -> Element {
    Element::Node(ident_expr(name, start))
}

/// A literal expression node holding one literal token.
fn lit(text: &str, start: u32) -> Element {
    let end = start + text.len() as u32;
    nd(
        SyntaxKind::Literal,
        vec![tok(SyntaxKind::Other(7), text, start)],
        start,
        end,
    )
}

/// The call `name(args...)` with the given argument-list elements.
fn call(name: &str, start: u32, end: u32, arg_elements: Vec<Element>) -> Node {
    let name_end = start + name.len() as u32;
    let mut args = vec![tok(SyntaxKind::LParen, "(", name_end)];
    args.extend(arg_elements);
    args.push(tok(SyntaxKind::RParen, ")", end - 1));
    node(
        SyntaxKind::CallExpr,
        vec![
            Element::Node(ident_expr(name, start)),
            nd(SyntaxKind::ArgList, args, name_end, end),
        ],
        start,
        end,
    )
}

/// The `$x`-style placeholder as it stands in a pattern tree: an identifier
/// expression whose identifier text is the placeholder's stand-in.
fn placeholder_expr(stand_in: &str) -> Element {
    ident_expr_el(stand_in, 0)
}

fn plain_placeholder(name: &str) -> Placeholder {
    Placeholder {
        ident: name.to_string(),
        constraints: vec![],
    }
}

fn rule_of(pattern: Node, stand_ins: Vec<(String, Placeholder)>) -> ResolvedRule {
    ResolvedRule {
        index: 0,
        pattern: ResolvedPattern {
            node: pattern,
            placeholders_by_stand_in: stand_ins,
            paths: vec![],
        },
        template: None,
    }
}

fn ctx0() -> MatchContext {
    MatchContext {
        depth: 0,
        module: Some(1),
        use_paths: vec![],
    }
}

fn try_node(rule: &ResolvedRule, code: &Node) -> Result<Match, String> {
    match get_match(true, rule, code, &None, &ctx0()) {
        Ok(m) => Ok(m),
        Err(e) => Err(e.reason.unwrap_or_default()),
    }
}

fn match_ok(rule: &ResolvedRule, code: &Node) -> Match {
    match try_node(rule, code) {
        Ok(m) => m,
        Err(e) => panic!("expected a match, got: {}", e),
    }
}

fn match_err(rule: &ResolvedRule, code: &Node) -> String {
    match try_node(rule, code) {
        Ok(_) => panic!("expected a failure, got a match"),
        Err(e) => e,
    }
}

/// Walks the candidate tree, attempting the rule on every node, as the outer
/// search driver would.
fn collect_matches(rule: &ResolvedRule, code: &Node, out: &mut Vec<Match>) {
    if let Ok(m) = get_match(false, rule, code, &None, &ctx0()) {
        out.push(m);
    }
    for child in &code.children {
        if let Element::Node(n) = child {
            collect_matches(rule, n, out);
        }
    }
}

fn slice(input: &str, fs: &FileSpan) -> String {
    input[fs.span.start as usize..fs.span.end as usize].to_string()
}

/// The pattern `foo($x)` with stand-in `__ssr_x` for `x`.
fn foo_x_rule() -> ResolvedRule {
    let pattern = node(
        SyntaxKind::CallExpr,
        vec![
            ident_expr_el("foo", 0),
            nd(
                SyntaxKind::ArgList,
                vec![
                    tok(SyntaxKind::LParen, "(", 3),
                    placeholder_expr("__ssr_x"),
                    tok(SyntaxKind::RParen, ")", 4),
                ],
                3,
                5,
            ),
        ],
        0,
        5,
    );
    rule_of(
        pattern,
        vec![("__ssr_x".to_string(), plain_placeholder("x"))],
    )
}

/// The candidate file `fn foo() {} fn bar() {} fn main() { foo(1+2); }`,
/// with every span pointing into `input`.
fn candidate_file(input: &str) -> Node {
    let len = input.len() as u32;
    let call_start = input.find("foo(1+2)").unwrap() as u32;
    let one = call_start + 4;
    let call_node = call(
        "foo",
        call_start,
        call_start + 8,
        vec![nd(
            SyntaxKind::BinExpr,
            vec![
                lit("1", one),
                tok(SyntaxKind::Other(8), "+", one + 1),
                lit("2", one + 2),
            ],
            one,
            one + 3,
        )],
    );
    let fn_item = |text: &str, name: &str, inner: Option<Node>| -> Element {
        let start = input.find(text).unwrap() as u32;
        let end = start + text.len() as u32;
        let mut children = vec![
            tok(SyntaxKind::Other(20), "fn", start),
            ws(start + 2),
            tok(SyntaxKind::Ident, name, start + 3),
        ];
        if let Some(n) = inner {
            children.push(Element::Node(n));
        }
        Element::Node(node(SyntaxKind::Other(21), children, start, end))
    };
    let main_start = input.find("fn main()").unwrap() as u32;
    let body = node(
        SyntaxKind::Other(22),
        vec![
            tok(SyntaxKind::LCurly, "{", main_start + 10),
            ws(main_start + 11),
            Element::Node(call_node),
            tok(SyntaxKind::Other(23), ";", call_start + 8),
            ws(call_start + 9),
            tok(SyntaxKind::RCurly, "}", len - 1),
        ],
        main_start + 10,
        len,
    );
    node(
        SyntaxKind::Other(24),
        vec![
            fn_item("fn foo() {}", "foo", None),
            ws(11),
            fn_item("fn bar() {}", "bar", None),
            ws(23),
            fn_item("fn main() { foo(1+2); }", "main", Some(body)),
        ],
        0,
        len,
    )
}

#[test]
fn parse_match_replace() {
    let input = "fn foo() {} fn bar() {} fn main() { foo(1+2); }";
    let rule = foo_x_rule();
    let file = candidate_file(input);

    let mut matches: Vec<Match> = Vec::new();
    collect_matches(&rule, &file, &mut matches);
    assert_eq!(matches.len(), 1);
    assert_eq!(slice(input, &matches[0].range), "foo(1+2)");
    assert_eq!(matches[0].placeholder_values.len(), 1);
    let (var, binding) = &matches[0].placeholder_values[0];
    assert_eq!(var.0, "x");
    let bound = binding.node.as_ref().unwrap();
    assert_eq!(slice(input, &bound.range), "1+2");

    // Render the template `bar($x)` textually, as the edit applier would.
    let replacement = format!("bar({})", slice(input, &binding.range));
    let mut after = input.to_string();
    after.replace_range(
        matches[0].range.span.start as usize..matches[0].range.span.end as usize,
        &replacement,
    );
    assert_eq!(after, "fn foo() {} fn bar() {} fn main() { bar(1+2); }");
}

#[test]
fn placeholder_capture_exactness() {
    let input = "fn foo() {} fn bar() {} fn main() { foo(1+2); }";
    let rule = foo_x_rule();
    let file = candidate_file(input);
    let mut matches: Vec<Match> = Vec::new();
    collect_matches(&rule, &file, &mut matches);
    assert_eq!(matches.len(), 1);
    let m = &matches[0];
    assert_eq!(slice(input, &m.range), "foo(1+2)");
    assert_eq!(m.placeholder_values.len(), 1);
    assert_eq!(m.placeholder_values[0].0 .0, "x");
    assert_eq!(slice(input, &m.placeholder_values[0].1.range), "1+2");
}

#[test]
fn reflexivity_no_placeholders() {
    // A pattern with no placeholders, matched against a tree built from the
    // identical text, always succeeds.
    let pattern = call("foo", 0, 8, vec![lit("42", 4)]);
    let code = call("foo", 0, 8, vec![lit("42", 4)]);
    let rule = rule_of(pattern, vec![]);
    assert!(try_node(&rule, &code).is_ok());
}

#[test]
fn trailing_separator_tolerance() {
    // foo($a) matches foo(1,)
    let pattern = call("foo", 0, 5, vec![placeholder_expr("__ssr_a")]);
    let rule = rule_of(
        pattern,
        vec![("__ssr_a".to_string(), plain_placeholder("a"))],
    );
    let code = call(
        "foo",
        0,
        7,
        vec![lit("1", 4), tok(SyntaxKind::Comma, ",", 5)],
    );
    assert!(try_node(&rule, &code).is_ok());

    // foo($a,) matches foo(1)
    let pattern2 = call(
        "foo",
        0,
        6,
        vec![placeholder_expr("__ssr_a"), tok(SyntaxKind::Comma, ",", 5)],
    );
    let rule2 = rule_of(
        pattern2,
        vec![("__ssr_a".to_string(), plain_placeholder("a"))],
    );
    let code2 = call("foo", 0, 6, vec![lit("1", 4)]);
    assert!(try_node(&rule2, &code2).is_ok());
}

#[test]
fn token_mismatch_fails_with_reason() {
    let pattern = call("foo", 0, 8, vec![lit("42", 4)]);
    let rule = rule_of(pattern, vec![]);
    let code = call("foo", 0, 8, vec![lit("43", 4)]);
    let err = match_err(&rule, &code);
    assert!(err.contains("42") && err.contains("43"));
}

#[test]
fn kind_mismatch_fails() {
    let pattern = call("foo", 0, 8, vec![lit("42", 4)]);
    let rule = rule_of(pattern, vec![]);
    let code = ident_expr("foo", 0);
    assert!(try_node(&rule, &code).is_err());
}

#[test]
fn leftover_pattern_fails() {
    // The candidate call has no argument list at all: the pattern's is left
    // unmatched when the candidate's children run out.
    let pattern = call("foo", 0, 8, vec![lit("42", 4)]);
    let rule = rule_of(pattern, vec![]);
    let code = node(SyntaxKind::CallExpr, vec![ident_expr_el("foo", 0)], 0, 3);
    let err = match_err(&rule, &code);
    assert!(err.contains("unmatched"));
}

fn field(name: &str, name_start: u32, value: Element, end: u32) -> Element {
    let name_end = name_start + name.len() as u32;
    nd(
        SyntaxKind::RecordExprField,
        vec![
            nd(
                SyntaxKind::NameRef,
                vec![tok(SyntaxKind::Ident, name, name_start)],
                name_start,
                name_end,
            ),
            tok(SyntaxKind::Other(9), ":", name_end),
            value,
        ],
        name_start,
        end,
    )
}

fn record(fields: Vec<Element>, start: u32, end: u32) -> Node {
    let mut children = vec![Element::Node(ident_expr("Foo", start))];
    let mut list = vec![tok(SyntaxKind::LCurly, "{", start + 4)];
    list.extend(fields);
    list.push(tok(SyntaxKind::RCurly, "}", end - 1));
    children.push(nd(SyntaxKind::RecordExprFieldList, list, start + 4, end));
    node(SyntaxKind::Other(25), children, start, end)
}

#[test]
fn field_list_order_independence() {
    // Pattern: Foo { a: $a, b: $b }   Candidate: Foo { b: 2, a: 1 }
    let pattern = record(
        vec![
            field("a", 6, placeholder_expr("__ssr_a"), 11),
            tok(SyntaxKind::Comma, ",", 11),
            field("b", 13, placeholder_expr("__ssr_b"), 18),
        ],
        0,
        20,
    );
    let rule = rule_of(
        pattern,
        vec![
            ("__ssr_a".to_string(), plain_placeholder("a")),
            ("__ssr_b".to_string(), plain_placeholder("b")),
        ],
    );
    let input = "Foo { b: 2, a: 1 }";
    let code = record(
        vec![
            field("b", 6, lit("2", 9), 10),
            tok(SyntaxKind::Comma, ",", 10),
            field("a", 12, lit("1", 15), 16),
        ],
        0,
        18,
    );
    let m = match_ok(&rule, &code);
    let mut a_text = String::new();
    let mut b_text = String::new();
    for (var, pm) in &m.placeholder_values {
        if var.0 == "a" {
            a_text = slice(input, &pm.range);
        }
        if var.0 == "b" {
            b_text = slice(input, &pm.range);
        }
    }
    assert_eq!(a_text, "1");
    assert_eq!(b_text, "2");
}

#[test]
fn field_list_missing_field_fails_with_reason() {
    let pattern = record(
        vec![
            field("a", 6, placeholder_expr("__ssr_a"), 11),
            tok(SyntaxKind::Comma, ",", 11),
            field("b", 13, placeholder_expr("__ssr_b"), 18),
        ],
        0,
        20,
    );
    let rule = rule_of(
        pattern,
        vec![
            ("__ssr_a".to_string(), plain_placeholder("a")),
            ("__ssr_b".to_string(), plain_placeholder("b")),
        ],
    );
    // The candidate omits field `a`.
    let code = record(vec![field("b", 6, lit("2", 9), 10)], 0, 12);
    let err = match_err(&rule, &code);
    assert!(err.contains("a"));
}

#[test]
fn field_list_leftover_field_fails() {
    let pattern = record(vec![field("b", 6, placeholder_expr("__ssr_b"), 11)], 0, 13);
    let rule = rule_of(
        pattern,
        vec![("__ssr_b".to_string(), plain_placeholder("b"))],
    );
    let code = record(
        vec![
            field("b", 6, lit("2", 9), 10),
            tok(SyntaxKind::Comma, ",", 10),
            field("c", 12, lit("3", 15), 16),
        ],
        0,
        18,
    );
    let err = match_err(&rule, &code);
    assert!(err.contains("failed to match") && err.contains("c"));
}

#[test]
fn field_list_placeholder_name_falls_back_to_ordered() {
    // A placeholder in name position: only the identical order matches.
    let ph_name_field = |value: Element, end: u32| -> Element {
        nd(
            SyntaxKind::RecordExprField,
            vec![
                placeholder_expr("__ssr_n"),
                tok(SyntaxKind::Other(9), ":", 7),
                value,
            ],
            6,
            end,
        )
    };
    let pattern = record(
        vec![
            ph_name_field(lit("1", 9), 10),
            tok(SyntaxKind::Comma, ",", 10),
            field("b", 12, lit("2", 15), 16),
        ],
        0,
        18,
    );
    let rule = rule_of(
        pattern,
        vec![("__ssr_n".to_string(), plain_placeholder("n"))],
    );
    let same_order = record(
        vec![
            field("a", 6, lit("1", 9), 10),
            tok(SyntaxKind::Comma, ",", 10),
            field("b", 12, lit("2", 15), 16),
        ],
        0,
        18,
    );
    assert!(try_node(&rule, &same_order).is_ok());

    let other_order = record(
        vec![
            field("b", 6, lit("2", 9), 10),
            tok(SyntaxKind::Comma, ",", 10),
            field("a", 12, lit("1", 15), 16),
        ],
        0,
        18,
    );
    assert!(try_node(&rule, &other_order).is_err());
}

/// The method call `r.method(x)`, with its resolved target.
fn method_call(target: Option<u64>) -> Node {
    let mut n = node(
        SyntaxKind::MethodCallExpr,
        vec![
            ident_expr_el("r", 0),
            tok(SyntaxKind::Other(10), ".", 1),
            nd(
                SyntaxKind::NameRef,
                vec![tok(SyntaxKind::Ident, "method", 2)],
                2,
                8,
            ),
            nd(
                SyntaxKind::ArgList,
                vec![
                    tok(SyntaxKind::LParen, "(", 8),
                    ident_expr_el("x", 9),
                    tok(SyntaxKind::RParen, ")", 10),
                ],
                8,
                11,
            ),
        ],
        0,
        11,
    );
    n.resolved_call = target;
    n
}

/// The pattern `Type::method(r, $x)`, pre-resolved to `target`.
fn ufcs_pattern(target: u64) -> Node {
    let mut n = node(
        SyntaxKind::CallExpr,
        vec![
            ident_expr_el("method", 0),
            nd(
                SyntaxKind::ArgList,
                vec![
                    tok(SyntaxKind::LParen, "(", 12),
                    ident_expr_el("r", 13),
                    tok(SyntaxKind::Comma, ",", 14),
                    placeholder_expr("__ssr_x"),
                    tok(SyntaxKind::RParen, ")", 18),
                ],
                12,
                19,
            ),
        ],
        0,
        19,
    );
    n.resolved_call = Some(target);
    n
}

#[test]
fn call_equivalence_same_function() {
    let rule = rule_of(
        ufcs_pattern(42),
        vec![("__ssr_x".to_string(), plain_placeholder("x"))],
    );
    let code = method_call(Some(42));
    let m = match_ok(&rule, &code);
    assert_eq!(m.placeholder_values.len(), 1);
    assert_eq!(m.placeholder_values[0].0 .0, "x");
}

#[test]
fn call_equivalence_different_function_fails() {
    let rule = rule_of(
        ufcs_pattern(42),
        vec![("__ssr_x".to_string(), plain_placeholder("x"))],
    );
    let code = method_call(Some(43));
    let err = match_err(&rule, &code);
    assert!(err.contains("different function"));
}

#[test]
fn call_equivalence_unresolved_fails() {
    let rule = rule_of(
        ufcs_pattern(42),
        vec![("__ssr_x".to_string(), plain_placeholder("x"))],
    );
    let code = method_call(None);
    let err = match_err(&rule, &code);
    assert!(err.contains("resolve"));
}

#[test]
fn constraint_kind_literal() {
    // foo($x) where $x must be a literal.
    let pattern = call("foo", 0, 5, vec![placeholder_expr("__ssr_x")]);
    let constrained = Placeholder {
        ident: "x".to_string(),
        constraints: vec![Constraint::Kind(NodeKind::Literal)],
    };
    let rule = rule_of(pattern, vec![("__ssr_x".to_string(), constrained)]);
    let ok_code = call("foo", 0, 7, vec![lit("42", 4)]);
    assert!(try_node(&rule, &ok_code).is_ok());
    let bad_code = call("foo", 0, 6, vec![ident_expr_el("y", 4)]);
    assert!(try_node(&rule, &bad_code).is_err());
}

#[test]
fn constraint_not_inverts() {
    let pattern = call("foo", 0, 5, vec![placeholder_expr("__ssr_x")]);
    let constrained = Placeholder {
        ident: "x".to_string(),
        constraints: vec![Constraint::Not(Box::new(Constraint::Kind(
            NodeKind::Literal,
        )))],
    };
    let rule = rule_of(pattern, vec![("__ssr_x".to_string(), constrained)]);
    let literal_code = call("foo", 0, 7, vec![lit("42", 4)]);
    assert!(try_node(&rule, &literal_code).is_err());
    let other_code = call("foo", 0, 6, vec![ident_expr_el("y", 4)]);
    assert!(try_node(&rule, &other_code).is_ok());
}

#[test]
fn path_resolution_decides_match() {
    // A pattern path pre-resolved to Def(7) matches a differently written
    // candidate path that resolves to the same definition, and rejects one
    // that resolves elsewhere or not at all.
    let mut pattern = ident_expr("alias", 0);
    if let Element::Node(p) = &mut pattern.children[0] {
        p.resolution = Some(PathResolution::Def(7));
    }
    let rule_ok = rule_of(pattern, vec![]);
    let make_code = |res: Option<PathResolution>| -> Node {
        let mut code = ident_expr("target", 0);
        if let Element::Node(c) = &mut code.children[0] {
            c.resolution = res;
        }
        code
    };
    assert!(try_node(&rule_ok, &make_code(Some(PathResolution::Def(7)))).is_ok());
    assert!(try_node(&rule_ok, &make_code(Some(PathResolution::Def(8)))).is_err());
    let err = match try_node(&rule_ok, &make_code(None)) {
        Ok(_) => panic!("expected a failure, got a match"),
        Err(e) => e,
    };
    assert!(err.contains("resolve"));
}

#[test]
fn range_restriction_rejects_outside() {
    let pattern = call("foo", 0, 8, vec![lit("42", 4)]);
    let rule = rule_of(pattern, vec![]);
    let code = call("foo", 0, 8, vec![lit("42", 4)]);
    // Without a restriction the candidate matches.
    assert!(get_match(false, &rule, &code, &None, &ctx0()).is_ok());
    // A restriction that does not cover the candidate rejects it.
    let narrow = Some(FileSpan {
        file_id: 1,
        span: span(100, 200),
    });
    assert!(get_match(false, &rule, &code, &narrow, &ctx0()).is_err());
    // So does one in a different file, even when the span covers it.
    let other_file = Some(FileSpan {
        file_id: 2,
        span: span(0, 100),
    });
    assert!(get_match(false, &rule, &code, &other_file, &ctx0()).is_err());
    // A covering restriction in the right file accepts it.
    let covering = Some(FileSpan {
        file_id: 1,
        span: span(0, 100),
    });
    assert!(get_match(false, &rule, &code, &covering, &ctx0()).is_ok());
}

#[test]
fn debug_flag_gates_reasons() {
    let debug_on = record_match_fails_reasons_scope(true);
    assert!(recording_match_fail_reasons(&debug_on));
    let debug_off = record_match_fails_reasons_scope(false);
    assert!(!recording_match_fail_reasons(&debug_off));

    let pattern = call("foo", 0, 8, vec![lit("42", 4)]);
    let rule = rule_of(pattern, vec![]);
    let code = call("foo", 0, 8, vec![lit("43", 4)]);
    let with_reason = match get_match(true, &rule, &code, &None, &ctx0()) {
        Ok(_) => panic!("expected a failure, got a match"),
        Err(e) => e,
    };
    assert!(with_reason.reason.is_some());
    let without_reason = match get_match(false, &rule, &code, &None, &ctx0()) {
        Ok(_) => panic!("expected a failure, got a match"),
        Err(e) => e,
    };
    assert!(without_reason.reason.is_none());
}

#[test]
fn macro_token_run_capture() {
    // Candidate: the token tree of `m!(1 + (2 * 3), 2)`.
    let input = "m!(1 + (2 * 3), 2)";
    let nested = nd(
        SyntaxKind::TokenTree,
        vec![
            tok(SyntaxKind::LParen, "(", 7),
            tok(SyntaxKind::Other(7), "2", 8),
            ws(9),
            tok(SyntaxKind::Other(8), "*", 10),
            ws(11),
            tok(SyntaxKind::Other(7), "3", 12),
            tok(SyntaxKind::RParen, ")", 13),
        ],
        7,
        14,
    );
    let code = node(
        SyntaxKind::TokenTree,
        vec![
            tok(SyntaxKind::LParen, "(", 2),
            tok(SyntaxKind::Other(7), "1", 3),
            ws(4),
            tok(SyntaxKind::Other(8), "+", 5),
            ws(6),
            nested,
            tok(SyntaxKind::Comma, ",", 14),
            ws(15),
            tok(SyntaxKind::Other(7), "2", 16),
            tok(SyntaxKind::RParen, ")", 17),
        ],
        2,
        18,
    );
    // Pattern: the token tree of `m!($a, 2)`.
    let pattern = node(
        SyntaxKind::TokenTree,
        vec![
            tok(SyntaxKind::LParen, "(", 0),
            tok(SyntaxKind::Ident, "__ssr_a", 1),
            tok(SyntaxKind::Comma, ",", 2),
            tok(SyntaxKind::Other(7), "2", 3),
            tok(SyntaxKind::RParen, ")", 4),
        ],
        0,
        5,
    );
    let rule = rule_of(
        pattern,
        vec![("__ssr_a".to_string(), plain_placeholder("a"))],
    );
    let m = match_ok(&rule, &code);
    assert_eq!(m.placeholder_values.len(), 1);
    let (var, pm) = &m.placeholder_values[0];
    assert_eq!(var.0, "a");
    // A token run, not a subtree: the binding carries only a range, spanning
    // the maximal run up to (not including) the next literal pattern token.
    assert!(pm.node.is_none());
    assert_eq!(slice(input, &pm.range), "1 + (2 * 3)");
}

#[test]
fn macro_token_run_leftover_pattern_fails() {
    // Pattern `(1, 2)` against candidate `(1)`: the pattern has content left
    // when the candidate token stream ends.
    let pattern = node(
        SyntaxKind::TokenTree,
        vec![
            tok(SyntaxKind::LParen, "(", 0),
            tok(SyntaxKind::Other(7), "1", 1),
            tok(SyntaxKind::Comma, ",", 2),
            tok(SyntaxKind::Other(7), "2", 3),
            tok(SyntaxKind::RParen, ")", 4),
        ],
        0,
        5,
    );
    let rule = rule_of(pattern, vec![]);
    let code = node(
        SyntaxKind::TokenTree,
        vec![tok(SyntaxKind::LParen, "(", 0), tok(SyntaxKind::Other(7), "1", 1)],
        0,
        2,
    );
    let err = match_err(&rule, &code);
    assert!(err.contains("token tree"));
}

fn rule_with_template(template_paths: Vec<ssr_match::rule::TemplatePath>) -> ResolvedRule {
    let pattern = call("foo", 0, 8, vec![lit("42", 4)]);
    let template = node(SyntaxKind::CallExpr, vec![ident_expr_el("bar", 0)], 0, 8);
    ResolvedRule {
        index: 0,
        pattern: ResolvedPattern {
            node: pattern,
            placeholders_by_stand_in: vec![],
            paths: vec![],
        },
        template: Some(ResolvedPattern {
            node: template,
            placeholders_by_stand_in: vec![],
            paths: template_paths,
        }),
    }
}

#[test]
fn template_paths_are_rendered_at_match_site() {
    let tp = ssr_match::rule::TemplatePath {
        range: fspan(0, 3),
        resolution: PathResolution::Def(5),
    };
    let rule = rule_with_template(vec![tp]);
    let code = call("foo", 0, 8, vec![lit("42", 4)]);
    let ctx = MatchContext {
        depth: 3,
        module: Some(1),
        use_paths: vec![(5, "crate::bar".to_string())],
    };
    let m = match get_match(false, &rule, &code, &None, &ctx) {
        Ok(m) => m,
        Err(e) => panic!("expected a match, got: {:?}", e.reason),
    };
    assert_eq!(m.depth, 3);
    assert_eq!(m.rendered_template_paths.len(), 1);
    assert_eq!(m.rendered_template_paths[0].0, fspan(0, 3));
    assert_eq!(m.rendered_template_paths[0].1, "crate::bar");
}

#[test]
fn template_without_module_fails() {
    let rule = rule_with_template(vec![]);
    let code = call("foo", 0, 8, vec![lit("42", 4)]);
    let ctx = MatchContext {
        depth: 0,
        module: None,
        use_paths: vec![],
    };
    let err = match get_match(true, &rule, &code, &None, &ctx) {
        Ok(_) => panic!("expected a failure, got a match"),
        Err(e) => e,
    };
    assert!(err.reason.unwrap().contains("module"));
}

#[test]
fn template_with_unrenderable_path_fails() {
    let tp = ssr_match::rule::TemplatePath {
        range: fspan(0, 3),
        resolution: PathResolution::Def(5),
    };
    let rule = rule_with_template(vec![tp]);
    let code = call("foo", 0, 8, vec![lit("42", 4)]);
    let ctx = MatchContext {
        depth: 0,
        module: Some(1),
        use_paths: vec![],
    };
    let err = match get_match(true, &rule, &code, &None, &ctx) {
        Ok(_) => panic!("expected a failure, got a match"),
        Err(e) => e,
    };
    assert!(err.reason.unwrap().contains("render"));
}

#[test]
fn failure_reason_surfaces_recorded_text() {
    let pattern = call("foo", 0, 8, vec![lit("42", 4)]);
    let rule = rule_of(pattern, vec![]);
    let code = call("foo", 0, 8, vec![lit("43", 4)]);
    let failed = match get_match(true, &rule, &code, &None, &ctx0()) {
        Ok(_) => panic!("expected a failure, got a match"),
        Err(e) => e,
    };
    let surfaced = failed.failure_reason().unwrap();
    assert!(surfaced.reason.contains("42"));
}

#[test]
fn ignored_comments_are_collected() {
    let pattern = call("foo", 0, 8, vec![lit("42", 4)]);
    let rule = rule_of(pattern, vec![]);
    // foo(/* note */ 42): the comment is trivia to the aligner, but is kept.
    let code = call(
        "foo",
        0,
        19,
        vec![
            tok(SyntaxKind::Comment, "/* note */", 4),
            ws(14),
            lit("42", 15),
        ],
    );
    let m = match_ok(&rule, &code);
    assert_eq!(m.ignored_comments.len(), 1);
    assert_eq!(m.ignored_comments[0].text, "/* note */");
}
