use loc_analysis::lang::LANG;
use loc_analysis::sloc::{compute, NodeKind, Stats, SyntaxNode};

fn node(kind: NodeKind, start_row: usize, end_row: usize) -> SyntaxNode {
    SyntaxNode { kind, start_row, end_row }
}

#[test]
fn block_with_one_statement_counts_one_line() {
    let cases = [
        (LANG::Python, NodeKind::Block),
        (LANG::Rust, NodeKind::Block),
        (LANG::Cpp, NodeKind::CompoundStatement),
        (LANG::Mozjs, NodeKind::StatementBlock),
        (LANG::Typescript, NodeKind::StatementBlock),
    ];
    for (lang, block) in cases {
        let mut stats = Stats::new();
        compute(lang, &node(block, 1, 3), &mut stats, false);
        compute(lang, &node(NodeKind::Other, 2, 2), &mut stats, false);
        assert_eq!(stats.lloc(), 1);
    }
}

#[test]
fn scope_span_gives_sloc() {
    let mut stats = Stats::new();
    compute(LANG::Rust, &node(NodeKind::Other, 10, 24), &mut stats, true);
    assert_eq!(stats.sloc(), 15);
    assert_eq!(stats.lloc(), 1);
    let mut one = Stats::new();
    compute(LANG::Cpp, &node(NodeKind::Other, 7, 7), &mut one, true);
    assert_eq!(one.sloc(), 1);
}

#[test]
fn fresh_accumulator_reads_one_and_zero() {
    let stats = Stats::default();
    assert_eq!(stats.sloc(), 1);
    assert_eq!(stats.lloc(), 0);
}

#[test]
fn rows_are_counted_once() {
    let mut stats = Stats::new();
    compute(LANG::Python, &node(NodeKind::Other, 4, 4), &mut stats, false);
    compute(LANG::Python, &node(NodeKind::Other, 4, 5), &mut stats, false);
    compute(LANG::Python, &node(NodeKind::Comment, 6, 6), &mut stats, false);
    compute(LANG::Python, &node(NodeKind::String, 7, 7), &mut stats, false);
    assert_eq!(stats.lloc(), 1);
}

#[test]
fn unsupported_language_records_nothing() {
    for lang in [LANG::Java, LANG::Go, LANG::Css, LANG::Html, LANG::CSharp, LANG::Preproc] {
        let mut stats = Stats::new();
        compute(lang, &node(NodeKind::Other, 3, 9), &mut stats, true);
        compute(lang, &node(NodeKind::Other, 4, 4), &mut stats, false);
        assert_eq!(stats.lloc(), 0);
        assert_eq!(stats.sloc(), 1);
    }
}

#[test]
fn merge_unions_lines_and_keeps_span() {
    let mut a = Stats::new();
    compute(LANG::Rust, &node(NodeKind::Other, 1, 9), &mut a, true);
    compute(LANG::Rust, &node(NodeKind::Other, 2, 2), &mut a, false);
    let mut b = Stats::new();
    compute(LANG::Rust, &node(NodeKind::Other, 2, 3), &mut b, true);
    compute(LANG::Rust, &node(NodeKind::Other, 3, 3), &mut b, false);
    let before = a.lloc();
    a.merge(&b);
    assert_eq!(a.lloc(), 3);
    assert!(a.lloc() >= before);
    assert_eq!(a.sloc(), 9);
}

#[test]
fn merge_with_equal_lines_keeps_lloc() {
    let mut a = Stats::new();
    let mut b = Stats::new();
    for s in [&mut a, &mut b] {
        compute(LANG::Cpp, &node(NodeKind::Other, 5, 5), s, false);
        compute(LANG::Cpp, &node(NodeKind::Other, 8, 8), s, false);
    }
    a.merge(&b);
    assert_eq!(a.lloc(), 2);
}

#[test]
fn kinds_from_grammar_names() {
    assert_eq!(NodeKind::from_name("compound_statement"), NodeKind::CompoundStatement);
    assert_eq!(NodeKind::from_name("\""), NodeKind::Quote);
    assert_eq!(NodeKind::from_name("line_comment"), NodeKind::LineComment);
    assert_eq!(NodeKind::from_name("if_statement"), NodeKind::Other);
}

#[test]
fn walk_of_nodes() {
    let mut stats = Stats::new();
    let nodes = vec![
        (node(NodeKind::Other, 0, 4), true),
        (node(NodeKind::Block, 0, 4), false),
        (node(NodeKind::ExpressionStatement, 1, 1), false),
        (node(NodeKind::Other, 1, 1), false),
        (node(NodeKind::Other, 3, 3), false),
    ];
    stats.compute_all(LANG::Rust, &nodes);
    assert_eq!(stats.sloc(), 5);
    assert_eq!(stats.lloc(), 3);
}
