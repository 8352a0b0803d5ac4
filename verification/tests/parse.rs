use fucker::ast::AST;
use fucker::ast::ASTNode;

#[test]
fn too_many_loop_begins() {
    let ast = AST::parse("[[]");
    assert!(ast.is_err());
}

#[test]
fn too_many_loop_ends() {
    let ast = AST::parse("[]]");
    assert!(ast.is_err());
}

#[test]
fn run_length_encode() {
    let ast = AST::parse("+++++").unwrap();
    assert_eq!(ast.data.len(), 1);
    assert_eq!(ast.data[0], ASTNode::Incr(5));
}

#[test]
fn unmatched_close_message() {
    let err = AST::parse("]").unwrap_err();
    assert_eq!(err, "More ] than [");
}

#[test]
fn unmatched_open_message() {
    let err = AST::parse("[").unwrap_err();
    assert_eq!(err, "More [ than ]");
}

#[test]
fn matched_counts_bad_nesting_rejected() {
    // As many `[` as `]`, but ill-formed nesting.
    assert!(AST::parse("][").is_err());
    assert!(AST::parse("]-[").is_err());
}

#[test]
fn balanced_sources_parse() {
    assert!(AST::parse("").is_ok());
    assert!(AST::parse("+[>+<-]").is_ok());
    assert!(AST::parse("+[[->]<[,.]]").is_ok());
    assert!(AST::parse("no instructions at all").is_ok());
}

#[test]
fn empty_prefix_elision() {
    // A loop before any non-loop instruction can never run and is dropped.
    let ast = AST::parse("[+]+").unwrap();
    assert_eq!(ast.data.len(), 1);
    assert_eq!(ast.data[0], ASTNode::Incr(1));
}

#[test]
fn wrap_around_fuses_to_zero() {
    // 256 increments wrap to Incr(0); the node is kept, not dropped.
    let src: String = "+".repeat(256) + ".";
    let ast = AST::parse(&src).unwrap();
    assert_eq!(ast.data.len(), 2);
    assert_eq!(ast.data[0], ASTNode::Incr(0));
    assert_eq!(ast.data[1], ASTNode::Print);
}

#[test]
fn comments_are_skipped() {
    let ast = AST::parse("a+b+c d?!").unwrap();
    assert_eq!(ast.data.len(), 1);
    assert_eq!(ast.data[0], ASTNode::Incr(2));
}

#[test]
fn mixed_runs_stay_separate() {
    let ast = AST::parse("++--
>><<").unwrap();
    assert_eq!(
        ast.data,
        vec![
            ASTNode::Incr(2),
            ASTNode::Decr(2),
            ASTNode::Next(2),
            ASTNode::Prev(2),
        ]
    );
}

#[test]
fn loop_bodies_are_fused() {
    let ast = AST::parse("+[>>><<<]").unwrap();
    assert_eq!(ast.data.len(), 2);
    assert_eq!(ast.data[0], ASTNode::Incr(1));
    assert_eq!(
        ast.data[1],
        ASTNode::Loop(vec![ASTNode::Next(3), ASTNode::Prev(3)])
    );
}
