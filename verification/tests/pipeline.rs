use std::rc::Rc;

use lambda_eval::church::Church;
use lambda_eval::cst::Cst;
use lambda_eval::de_bruijn::{eval, rename, step, subst, DeBruijn};
use lambda_eval::lexer::Lexer;
use lambda_eval::parser::{parse_text, ParseErr, Parser};
use lambda_eval::tok::Tok;

fn tokens_of(input: &str) -> Vec<Tok<String>> {
    let mut lexer = Lexer::new(input);
    let mut toks: Vec<Tok<String>> = Vec::new();
    while let Some(t) = lexer.advance() {
        toks.push(t);
    }
    toks
}

fn id(s: &str) -> Tok<String> {
    Tok::Id(s.to_string())
}

#[test]
fn tokenize_glyph_example() {
    let toks = tokens_of("(λx. λy. x) a b");
    let expected = vec![
        Tok::LPar,
        Tok::Lam,
        id("x"),
        Tok::Dot,
        Tok::Lam,
        id("y"),
        Tok::Dot,
        id("x"),
        Tok::RPar,
        id("a"),
        id("b"),
    ];
    assert_eq!(toks, expected);
}

#[test]
fn tokenize_backslash_like_glyph() {
    assert_eq!(tokens_of(r"\x. x"), tokens_of("λx. x"));
}

#[test]
fn tokenize_maximal_identifier() {
    assert_eq!(tokens_of("foo1 bar"), vec![id("foo1"), id("bar")]);
}

#[test]
fn tokenize_unrecognized_char_empty_identifier() {
    assert_eq!(tokens_of("@"), vec![id("")]);
}

#[test]
fn tokenize_whitespace_only() {
    assert_eq!(tokens_of("  \t\n "), vec![]);
}

#[test]
fn peek_does_not_consume() {
    let lexer = Lexer::new("λx. x");
    assert_eq!(lexer.peek(), Some(Tok::Lam));
    assert_eq!(lexer.peek(), Some(Tok::Lam));
}

#[test]
fn peek_identifier_without_text() {
    let lexer = Lexer::new("hello world");
    assert_eq!(lexer.peek(), Some(Tok::Id(())));
}

#[test]
fn parse_application_left_associative() {
    let cst = parse_text("a b c").unwrap();
    let expected = Cst::app(
        Cst::app(Cst::var("a".to_string()), Cst::var("b".to_string())),
        Cst::var("c".to_string()),
    );
    assert_eq!(cst, expected);
    let right_leaning = Cst::app(
        Cst::var("a".to_string()),
        Cst::app(Cst::var("b".to_string()), Cst::var("c".to_string())),
    );
    assert_ne!(cst, right_leaning);
}

#[test]
fn parse_unclosed_paren_is_eof() {
    assert!(matches!(parse_text("(a"), Err(ParseErr::UnexpectedEof)));
}

#[test]
fn parse_stray_rpar_is_unexpected_token() {
    match parse_text("a)") {
        Err(ParseErr::UnexpectedTok(t)) => assert_eq!(t, Tok::RPar),
        other => panic!("expected an unexpected-token error, got {:?}", other),
    }
}

#[test]
fn parse_empty_input_is_eof() {
    assert!(matches!(parse_text(""), Err(ParseErr::UnexpectedEof)));
}

#[test]
fn parse_dot_after_atom_is_unexpected_token() {
    match parse_text("a .") {
        Err(ParseErr::UnexpectedTok(t)) => assert_eq!(t, Tok::Dot),
        other => panic!("expected an unexpected-token error, got {:?}", other),
    }
}

#[test]
fn parse_lambda_without_binder_is_unexpected_token() {
    match parse_text("λ. x") {
        Err(ParseErr::UnexpectedTok(t)) => assert_eq!(t, Tok::Dot),
        other => panic!("expected an unexpected-token error, got {:?}", other),
    }
}

#[test]
fn parse_keeps_grouping_node() {
    let grouped = parse_text("(a b) c").unwrap();
    let plain = parse_text("a b c").unwrap();
    assert_ne!(grouped, plain);
}

#[test]
fn parse_parenthesized_argument_keeps_grouping() {
    let cst = parse_text("a (b c)").unwrap();
    let expected = Cst::app(
        Cst::var("a".to_string()),
        Cst::par(Cst::app(Cst::var("b".to_string()), Cst::var("c".to_string()))),
    );
    assert_eq!(cst, expected);
}

#[test]
fn parse_nested_parens() {
    let cst = parse_text("((a))").unwrap();
    let expected = Cst::par(Cst::par(Cst::var("a".to_string())));
    assert_eq!(cst, expected);
}

#[test]
fn parse_via_parser_struct() {
    let lexer = Lexer::new("x");
    let mut parser = Parser::new(lexer);
    assert_eq!(parser.parse().unwrap(), Cst::var("x".to_string()));
}

#[test]
fn desugar_multi_binder_right_fold() {
    let cst = parse_text("λx y. x").unwrap();
    let church = Church::desugar(&cst);
    let expected = Church::abs("x", Church::abs("y", Church::var("x")));
    assert_eq!(church, expected);
}

#[test]
fn desugar_erases_grouping() {
    let grouped = Church::desugar(&parse_text("(a b) c").unwrap());
    let plain = Church::desugar(&parse_text("a b c").unwrap());
    assert_eq!(grouped, plain);
}

#[test]
fn desugar_is_deterministic() {
    let cst = parse_text("(λx y. x y) (a b)").unwrap();
    let once = Church::desugar(&cst);
    let twice = Church::desugar(&cst);
    assert_eq!(once, twice);
}

#[test]
fn desugar_abs_many_builds_nested_abs() {
    let names = vec!["x".to_string(), "y".to_string(), "z".to_string()];
    let folded = Church::abs_many(&names, Church::var("x"));
    let expected = Church::abs("x", Church::abs("y", Church::abs("z", Church::var("x"))));
    assert_eq!(folded, expected);
}

fn resolve(input: &str) -> Rc<DeBruijn> {
    rename(&Church::desugar(&parse_text(input).unwrap()))
}

#[test]
fn rename_shadowing_resolves_innermost() {
    let term = resolve("λx. λx. x");
    let expected = DeBruijn::abs(
        "x".to_string(),
        DeBruijn::abs("x".to_string(), DeBruijn::bound("x".to_string(), 0)),
    );
    assert_eq!(term, expected);
}

#[test]
fn rename_unbound_name_stays_free() {
    let term = resolve("λx. x y");
    let expected = DeBruijn::abs(
        "x".to_string(),
        DeBruijn::app(
            DeBruijn::bound("x".to_string(), 0),
            DeBruijn::free("y".to_string()),
        ),
    );
    assert_eq!(term, expected);
}

#[test]
fn rename_index_counts_binders_between() {
    let term = resolve("λx. λy. x");
    let expected = DeBruijn::abs(
        "x".to_string(),
        DeBruijn::abs("y".to_string(), DeBruijn::bound("x".to_string(), 1)),
    );
    assert_eq!(term, expected);
}

#[test]
fn rename_restores_outer_binding_after_scope() {
    // after the inner scope that shadows x closes, x resolves to the outer
    // binder again in the sibling subtree
    let term = resolve("λx. (λx. x) x");
    let expected = DeBruijn::abs(
        "x".to_string(),
        DeBruijn::app(
            DeBruijn::abs("x".to_string(), DeBruijn::bound("x".to_string(), 0)),
            DeBruijn::bound("x".to_string(), 0),
        ),
    );
    assert_eq!(term, expected);
}

#[test]
fn subst_replaces_only_matching_index() {
    let body = DeBruijn::app(
        DeBruijn::bound("x".to_string(), 0),
        DeBruijn::bound("y".to_string(), 1),
    );
    let with = DeBruijn::free("a".to_string());
    let out = subst(0, &body, &with);
    let expected = DeBruijn::app(
        DeBruijn::free("a".to_string()),
        DeBruijn::bound("y".to_string(), 1),
    );
    assert_eq!(out, expected);
}

#[test]
fn subst_index_grows_under_binder() {
    let body = DeBruijn::abs("y".to_string(), DeBruijn::bound("x".to_string(), 1));
    let with = DeBruijn::free("a".to_string());
    let out = subst(0, &body, &with);
    let expected = DeBruijn::abs("y".to_string(), DeBruijn::free("a".to_string()));
    assert_eq!(out, expected);
}

#[test]
fn step_on_value_is_none() {
    assert_eq!(step(&DeBruijn::free("a".to_string())), None);
    let abs = DeBruijn::abs("x".to_string(), DeBruijn::bound("x".to_string(), 0));
    assert_eq!(step(&abs), None);
}

#[test]
fn eval_end_to_end_const_function() {
    let term = resolve("(λx y. x) a b");
    let (result, done) = eval(term, 100);
    assert!(done);
    assert_eq!(result, DeBruijn::free("a".to_string()));
}

#[test]
fn eval_end_to_end_three_binders() {
    let term = resolve("(λx y z. x) a b c");
    let (result, done) = eval(term, 100);
    assert!(done);
    assert_eq!(result, DeBruijn::free("a".to_string()));
}

#[test]
fn eval_lazy_argument_ignores_divergent_term() {
    // the argument loops forever under reduction, but a constant function
    // never forces it
    let term = resolve("(λx. y) ((λz. z z) (λz. z z))");
    let (result, done) = eval(term, 100);
    assert!(done);
    assert_eq!(result, DeBruijn::free("y".to_string()));
}

#[test]
fn eval_lazy_argument_needs_one_step() {
    // a single beta step discards the divergent argument
    let term = resolve("(λx. y) ((λz. z z) (λz. z z))");
    let (result, done) = eval(term, 1);
    assert!(done);
    assert_eq!(result, DeBruijn::free("y".to_string()));
}

#[test]
fn eval_divergent_term_exhausts_budget() {
    let term = resolve("(λz. z z) (λz. z z)");
    let (result, done) = eval(term.clone(), 50);
    assert!(!done);
    // one step of the self-application reproduces the term itself
    assert_eq!(result, term);
}

#[test]
fn eval_stuck_application_returned_unchanged() {
    let term = resolve("a b");
    let (result, done) = eval(term.clone(), 10);
    assert!(done);
    assert_eq!(result, term);
}

#[test]
fn eval_does_not_reduce_under_abstraction() {
    let term = resolve("λx. (λy. y) x");
    let (result, done) = eval(term.clone(), 10);
    assert!(done);
    assert_eq!(result, term);
}

#[test]
fn eval_zero_budget_returns_input() {
    let term = resolve("(λx. x) a");
    let (result, done) = eval(term.clone(), 0);
    assert!(!done);
    assert_eq!(result, term);
}
