use atto::ast::{Builtin, Decl, Expr, Literal};
use atto::error::{Error, Expected, Unexpected};
use atto::lex::lex;
use atto::parse::{code, gen_global_arities, is_builtin, parse_program};
use atto::source::{SrcLoc, SrcRange};

#[test]
fn arities() {
    let code = "
            def add'' |x| |y|
                + x y

            def foo' |x''|
                x 10 20

            def no_args
                |x| + 5 x

            def bar''' |a'| |b''| |c'''|
                c b a 1 2 3 4 5

            def main' |@|
                10
        ";

    assert_eq!(
        gen_global_arities(&lex(code).unwrap()),
        Ok(vec![
            ("add".to_string(), 2),
            ("foo".to_string(), 1),
            ("no_args".to_string(), 0),
            ("bar".to_string(), 3),
            ("main".to_string(), 1),
        ])
    );
}

#[test]
fn call_takes_as_many_arguments_as_the_callee_arity() {
    let prog = code("def f' x -> x   def main @ -> __print @ f 7").unwrap();
    let main = prog.get("main").unwrap();
    let expected = Expr::Closure(
        Decl::Single("@".to_string()),
        Box::new(Expr::Builtin(
            Builtin::Print,
            vec![
                Expr::Call("@".to_string(), vec![]),
                Expr::Call("f".to_string(), vec![Expr::Literal(Literal::Num("7".to_string()))]),
            ],
        )),
    );
    assert_eq!(main, &expected);
}

#[test]
fn scalar_reference_takes_no_arguments() {
    let prog = code("def add'' x -> y -> __add x y   def main @ -> $add").unwrap();
    let main = prog.get("main").unwrap();
    assert_eq!(
        main,
        &Expr::Closure(Decl::Single("@".to_string()), Box::new(Expr::Call("add".to_string(), vec![])))
    );
}

#[test]
fn destructuring_let_binds_names_of_arity_zero() {
    let prog = code("def main @ -> let |a b| null a").unwrap();
    let main = prog.get("main").unwrap();
    assert_eq!(
        main,
        &Expr::Closure(
            Decl::Single("@".to_string()),
            Box::new(Expr::Let(
                Decl::Destructure(vec!["a".to_string(), "b".to_string()]),
                Box::new(Expr::Literal(Literal::Null)),
                Box::new(Expr::Call("a".to_string(), vec![])),
            )),
        )
    );
}

#[test]
fn unknown_identifier_is_an_error() {
    let errs = code("def main nope").unwrap_err();
    assert_eq!(errs, vec![Error::unknown_ident("nope".to_string()).at(SrcRange::new(SrcLoc::new(1, 10), 4))]);
}

#[test]
fn arity_marks_at_a_use_site_are_an_error() {
    let errs = code("def f' x -> x  def main f' 1").unwrap_err();
    assert_eq!(errs, vec![Error::expected(Expected::NoArityIdent).at(SrcRange::new(SrcLoc::new(1, 25), 2))]);
}

#[test]
fn bad_number_is_an_error() {
    let errs = code("def main 12abc").unwrap_err();
    assert_eq!(errs, vec![Error::bad_number().at(SrcRange::new(SrcLoc::new(1, 10), 5))]);
}

#[test]
fn exponent_numbers_parse() {
    let prog = code("def main 1e5").unwrap();
    assert_eq!(prog.get("main").unwrap(), &Expr::Literal(Literal::Num("1e5".to_string())));
}

#[test]
fn def_inside_an_expression_is_an_error() {
    let errs = code("def main def x").unwrap_err();
    assert_eq!(errs, vec![Error::unexpected(Unexpected::Def).at(SrcRange::new(SrcLoc::new(1, 10), 3))]);
}

#[test]
fn missing_body_is_unexpected_end() {
    assert_eq!(code("def main").unwrap_err(), vec![Error::unexpected_eof()]);
}

#[test]
fn top_level_must_be_def() {
    let errs = code("null").unwrap_err();
    assert_eq!(errs, vec![Error::expected(Expected::Def).at(SrcRange::new(SrcLoc::new(1, 1), 4))]);
}

#[test]
fn parameter_with_arity_marks_is_an_error() {
    let errs = code("def main |x'| -> x").unwrap_err();
    assert_eq!(errs, vec![Error::expected(Expected::ArityIdent).at(SrcRange::new(SrcLoc::new(1, 11), 2))]);
}

#[test]
fn parameter_list_needs_an_arrow() {
    let errs = code("def main |x| null").unwrap_err();
    assert_eq!(errs, vec![Error::expected(Expected::Arrow).at(SrcRange::new(SrcLoc::new(1, 14), 4))]);
}

#[test]
fn unclosed_parameter_list_is_an_error() {
    assert_eq!(code("def main |x").unwrap_err(), vec![Error::expected_delimiter('|')]);
}

#[test]
fn later_definition_of_a_name_wins() {
    let prog = code("def a 1 def a 2").unwrap();
    assert_eq!(prog.globals.len(), 1);
    assert_eq!(prog.get("a").unwrap(), &Expr::Literal(Literal::Num("2".to_string())));
}

#[test]
fn builtins_are_recognised() {
    assert!(is_builtin("__print"));
    assert!(is_builtin("__lesseq"));
    assert!(!is_builtin("print"));
}

#[test]
fn parse_program_reports_first_error() {
    let toks = lex("def main __add 1").unwrap();
    assert_eq!(parse_program(&toks).unwrap_err(), Error::unexpected_eof());
}

#[test]
fn decl_idents_in_order() {
    let d = Decl::Destructure(vec!["x".to_string(), "y".to_string()]);
    assert_eq!(d.get_idents(), vec!["x".to_string(), "y".to_string()]);
    assert_eq!(Decl::Single("z".to_string()).get_idents(), vec!["z".to_string()]);
}
