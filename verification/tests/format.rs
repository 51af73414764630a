use plsfmt::algorithm::Token;
use plsfmt::macro_syntax::MacroSyntax;
use plsfmt::model::FormatError;
use plsfmt::replacement::{replace, Replacement};
use plsfmt::select::{
    requires_comma_to_be_match_arm, ArmSyntax, BodyExpr, ExprKind, SelectSyntax, StmtSyntax,
};

fn text(s: &str) -> Vec<Token> {
    vec![Token::Text(s.as_bytes().to_vec())]
}

fn leaf_arm(pat: &str, future: &str, body: &str) -> ArmSyntax {
    ArmSyntax {
        pat: text(pat),
        future: text(future),
        body: BodyExpr::Leaf {
            kind: ExprKind::MethodCall,
            doc: text(body),
        },
        comma: true,
    }
}

/// An arm written `pat = future => { body }` in the source: a bare block
/// holding one bare-expression statement.
fn braced_arm(pat: &str, future: &str, body: &str) -> ArmSyntax {
    ArmSyntax {
        pat: text(pat),
        future: text(future),
        body: BodyExpr::Block {
            label: None,
            attrs: Vec::new(),
            stmts: vec![StmtSyntax {
                doc: text(body),
                bare_expr: Some(Box::new(BodyExpr::Leaf {
                    kind: ExprKind::MethodCall,
                    doc: text(body),
                })),
            }],
        },
        comma: false,
    }
}

/// A multi-statement block arm: never unwrapped.
fn block_arm(pat: &str, future: &str, stmts: &[&str]) -> ArmSyntax {
    ArmSyntax {
        pat: text(pat),
        future: text(future),
        body: BodyExpr::Block {
            label: None,
            attrs: Vec::new(),
            stmts: stmts
                .iter()
                .map(|s| StmtSyntax {
                    doc: text(s),
                    bare_expr: None,
                })
                .collect(),
        },
        comma: false,
    }
}

fn render(s: &SelectSyntax, base_indent: i32) -> String {
    String::from_utf8(s.delimiter_replacement(base_indent).unwrap()).unwrap()
}

/// Splice a freshly rendered macro body over the braced region of `content`.
fn format_macro_body(content: &str, s: &SelectSyntax, base_indent: i32) -> String {
    let start = content.find("select! ").unwrap() + "select! ".len();
    let end = content[start..]
        .char_indices()
        .scan(0i32, |depth, (i, c)| {
            *depth += match c {
                '{' => 1,
                '}' => -1,
                _ => 0,
            };
            Some((i, *depth))
        })
        .find(|&(_, d)| d == 0)
        .map(|(i, _)| start + i + 1)
        .unwrap();
    let new_body = s.delimiter_replacement(base_indent).unwrap();
    let out = replace(
        &content.as_bytes().to_vec(),
        vec![Replacement::new(start, end, new_body)],
    )
    .unwrap();
    String::from_utf8(out).unwrap()
}

#[test]
fn test_replace_select_unbraced_expr() {
    // Already in canonical form: formatting leaves every byte unchanged.
    let code = "
fn func() {
    loop {
        select! {
            val1 = future1.expr() => a.expr(),
            val2 = future2.expr() => b.expr(),
        }
    }
}
        ";
    let s = SelectSyntax {
        arms: vec![
            leaf_arm("val1", "future1.expr()", "a.expr()"),
            leaf_arm("val2", "future2.expr()", "b.expr()"),
        ],
    };
    assert_eq!(format_macro_body(code, &s, 8), code);
}

#[test]
fn test_replace_select_braced_expr() {
    // Multi-statement bodies keep their braces; formatting is idempotent.
    let code = "
fn func() {
    loop {
        select! {
            val1 = future1.expr() => {
                stmt();
                a.expr()
            }
            val2 = future2.expr() => {
                stmt();
                b.expr()
            }
        }
    }
}
        ";
    let s = SelectSyntax {
        arms: vec![
            block_arm("val1", "future1.expr()", &["stmt();", "a.expr()"]),
            block_arm("val2", "future2.expr()", &["stmt();", "b.expr()"]),
        ],
    };
    assert_eq!(format_macro_body(code, &s, 8), code);
}

#[test]
fn test_replace_select_unbrace() {
    // A needlessly braced single-statement body loses its braces.
    let code = "
fn func() {
    loop {
        select! {
            val1 = future1.expr() => {
                a.expr()
            }
            val2 = future2.expr() => {
                b.expr()
            }
        }
    }
}
        ";
    let expected = "
fn func() {
    loop {
        select! {
            val1 = future1.expr() => a.expr(),
            val2 = future2.expr() => b.expr(),
        }
    }
}
        ";
    let s = SelectSyntax {
        arms: vec![
            braced_arm("val1", "future1.expr()", "a.expr()"),
            braced_arm("val2", "future2.expr()", "b.expr()"),
        ],
    };
    assert_eq!(format_macro_body(code, &s, 8), expected);
}

#[test]
fn test_replace_select_brace() {
    // A body too long for its line is wrapped in braces, with no comma.
    let long = "a.expr().expr().expr().expr().expr().expr().expr().expr().expr().expr()";
    let code = format!(
        "
fn func() {{
    loop {{
        select! {{
            val1 = future1.expr() => {},
        }}
    }}
}}
        ",
        long
    );
    let expected = format!(
        "
fn func() {{
    loop {{
        select! {{
            val1 = future1.expr() => {{
                {}
            }}
        }}
    }}
}}
        ",
        long
    );
    let s = SelectSyntax {
        arms: vec![leaf_arm("val1", "future1.expr()", long)],
    };
    assert_eq!(format_macro_body(&code, &s, 8), expected);
}

#[test]
fn scenario_two_short_arms_then_long_third() {
    let s2 = SelectSyntax {
        arms: vec![
            leaf_arm("val1", "future1.expr()", "a.expr()"),
            leaf_arm("val2", "future2.expr()", "b.expr()"),
        ],
    };
    let rendered = render(&s2, 8);
    assert_eq!(
        rendered,
        "{\n            val1 = future1.expr() => a.expr(),\n            val2 = future2.expr() => b.expr(),\n        }"
    );

    let long = "c.expr().expr().expr().expr().expr().expr().expr().expr().expr().expr()";
    let s3 = SelectSyntax {
        arms: vec![
            leaf_arm("val1", "future1.expr()", "a.expr()"),
            leaf_arm("val2", "future2.expr()", "b.expr()"),
            leaf_arm("val3", "future3.expr()", long),
        ],
    };
    let rendered3 = render(&s3, 8);
    let expected3 = format!(
        "{{\n            val1 = future1.expr() => a.expr(),\n            val2 = future2.expr() => b.expr(),\n            val3 = future3.expr() => {{\n                {}\n            }}\n        }}",
        long
    );
    assert_eq!(rendered3, expected3);
}

#[test]
fn format_is_idempotent_on_rendered_body() {
    // Rendering is a pure function of the parsed arms: a second run over
    // the same arms reproduces the text byte for byte.
    let s = SelectSyntax {
        arms: vec![
            leaf_arm("val1", "future1.expr()", "a.expr()"),
            leaf_arm("val2", "future2.expr()", "b.expr()"),
        ],
    };
    assert_eq!(render(&s, 8), render(&s, 8));
}

#[test]
fn empty_macro_body_renders_to_bare_braces() {
    let s = SelectSyntax { arms: vec![] };
    assert_eq!(render(&s, 8), "{}");
}

#[test]
fn block_kind_leaf_body_gets_no_comma() {
    // An un-braced body that itself ends in a block (an `if`) takes no
    // separator when left inline.
    let mut a = leaf_arm("val1", "future1.expr()", "if x { y() } else { z() }");
    if let BodyExpr::Leaf { kind, .. } = &mut a.body {
        *kind = ExprKind::If;
    }
    let s = SelectSyntax { arms: vec![a] };
    assert_eq!(
        render(&s, 0),
        "{\n    val1 = future1.expr() => if x { y() } else { z() }\n}"
    );
}

#[test]
fn unhandled_expression_kind_is_rejected() {
    assert!(matches!(
        requires_comma_to_be_match_arm(ExprKind::Unrecognized),
        Err(FormatError::UnhandledExpressionKind)
    ));
    assert!(matches!(
        requires_comma_to_be_match_arm(ExprKind::MethodCall),
        Ok(true)
    ));
    assert!(matches!(
        requires_comma_to_be_match_arm(ExprKind::Match),
        Ok(false)
    ));

    let mut a = leaf_arm("val1", "future1.expr()", "whatever");
    if let BodyExpr::Leaf { kind, .. } = &mut a.body {
        *kind = ExprKind::Unrecognized;
    }
    let s = SelectSyntax { arms: vec![a] };
    assert!(matches!(
        s.delimiter_replacement(8),
        Err(FormatError::UnhandledExpressionKind)
    ));
}

#[test]
fn labelled_block_body_keeps_label_and_braces() {
    let a = ArmSyntax {
        pat: text("val1"),
        future: text("future1.expr()"),
        body: BodyExpr::Block {
            label: Some(b"'outer: ".to_vec()),
            attrs: Vec::new(),
            stmts: vec![StmtSyntax {
                doc: text("a.expr()"),
                bare_expr: Some(Box::new(BodyExpr::Leaf {
                    kind: ExprKind::MethodCall,
                    doc: text("a.expr()"),
                })),
            }],
        },
        comma: false,
    };
    let s = SelectSyntax { arms: vec![a] };
    assert_eq!(
        render(&s, 0),
        "{\n    val1 = future1.expr() => 'outer: {\n        a.expr()\n    }\n}"
    );
}
