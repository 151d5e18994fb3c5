use atto::error::Error;
use atto::lex::{lex, Lexeme, Token};
use atto::source::{SrcLoc, SrcRange};

fn ident(name: &str, arity: usize, line: usize, col: usize, len: usize) -> Token {
    Token(Lexeme::Ident(name.to_string(), false, arity), SrcRange::new(SrcLoc::new(line, col), len))
}

#[test]
fn lex_idents() {
    assert_eq!(
        lex("'''test"),
        Ok(vec![
            Token(Lexeme::Ident("'".to_string(), false, 2), SrcRange::new(SrcLoc::new(1, 1), 3)),
            Token(Lexeme::Ident("test".to_string(), false, 0), SrcRange::new(SrcLoc::new(1, 4), 4)),
        ]),
    );

    assert_eq!(
        lex("foobar'''"),
        Ok(vec![
            Token(Lexeme::Ident("foobar".to_string(), false, 3), SrcRange::new(SrcLoc::new(1, 1), 9)),
        ]),
    );

    assert_eq!(
        lex("test f00'''bar bleugh"),
        Ok(vec![
            Token(Lexeme::Ident("test".to_string(), false, 0), SrcRange::new(SrcLoc::new(1, 1), 4)),
            Token(Lexeme::Ident("f00".to_string(), false, 3), SrcRange::new(SrcLoc::new(1, 6), 6)),
            Token(Lexeme::Ident("bar".to_string(), false, 0), SrcRange::new(SrcLoc::new(1, 12), 3)),
            Token(Lexeme::Ident("bleugh".to_string(), false, 0), SrcRange::new(SrcLoc::new(1, 16), 6)),
        ]),
    );
}

#[test]
fn lex_singular() {
    assert_eq!(
        lex("[,];|(' '){}["),
        Ok(vec![
            Token(Lexeme::Ident("[".to_string(), false, 0), SrcRange::new(SrcLoc::new(1, 1), 1)),
            Token(Lexeme::Ident(",".to_string(), false, 0), SrcRange::new(SrcLoc::new(1, 2), 1)),
            Token(Lexeme::Ident("]".to_string(), false, 0), SrcRange::new(SrcLoc::new(1, 3), 1)),
            Token(Lexeme::Ident(";".to_string(), false, 0), SrcRange::new(SrcLoc::new(1, 4), 1)),
            Token(Lexeme::Pipe, SrcRange::new(SrcLoc::new(1, 5), 1)),
            Token(Lexeme::Ident("(".to_string(), false, 1), SrcRange::new(SrcLoc::new(1, 6), 2)),
            Token(Lexeme::Ident("'".to_string(), false, 0), SrcRange::new(SrcLoc::new(1, 9), 1)),
            Token(Lexeme::Ident(")".to_string(), false, 0), SrcRange::new(SrcLoc::new(1, 10), 1)),
            Token(Lexeme::Ident("{".to_string(), false, 0), SrcRange::new(SrcLoc::new(1, 11), 1)),
            Token(Lexeme::Ident("}".to_string(), false, 0), SrcRange::new(SrcLoc::new(1, 12), 1)),
            Token(Lexeme::Ident("[".to_string(), false, 0), SrcRange::new(SrcLoc::new(1, 13), 1)),
        ]),
    );
}

#[test]
fn lex_eof() {
    assert_eq!(
        lex("\"testing this!"),
        Err(vec![Error::expected_delimiter('"').at(SrcRange::new(SrcLoc::new(1, 1), 14))]),
    );
}

#[test]
fn unterminated_string_is_reported_at_its_opening_quote() {
    assert_eq!(
        lex("\"hello"),
        Err(vec![Error::expected_delimiter('"').at(SrcRange::new(SrcLoc::new(1, 1), 6))]),
    );
}

#[test]
fn lexing_twice_gives_the_same_tokens() {
    let src = "def main @ -> __print @ 42";
    assert_eq!(lex(src), lex(src));
}

#[test]
fn keywords_arrow_and_scalar() {
    let toks = lex("def let if true false null -> $foo $+ x").unwrap();
    let lexemes: Vec<Lexeme> = toks.into_iter().map(|t| t.0).collect();
    assert_eq!(
        lexemes,
        vec![
            Lexeme::Def,
            Lexeme::Let,
            Lexeme::If,
            Lexeme::True,
            Lexeme::False,
            Lexeme::Null,
            Lexeme::Arrow,
            Lexeme::Ident("foo".to_string(), true, 0),
            Lexeme::Ident("+".to_string(), true, 0),
            Lexeme::Ident("x".to_string(), false, 0),
        ]
    );
}

#[test]
fn strings_decode_escapes_and_drop_unknown_ones() {
    let toks = lex("\"a\\nb\\\\c\\qd\"").unwrap();
    assert_eq!(toks.len(), 1);
    assert_eq!(toks[0].0, Lexeme::Str("a\nb\\cd".to_string()));
}

#[test]
fn numbers_run_through_alphanumerics() {
    let toks = lex("12e3 7x").unwrap();
    assert_eq!(toks[0], Token(Lexeme::Num("12e3".to_string()), SrcRange::new(SrcLoc::new(1, 1), 4)));
    assert_eq!(toks[1], Token(Lexeme::Num("7x".to_string()), SrcRange::new(SrcLoc::new(1, 6), 2)));
}

#[test]
fn lines_and_columns_follow_newlines() {
    let toks = lex("a\n  bc").unwrap();
    assert_eq!(toks, vec![ident("a", 0, 1, 1, 1), ident("bc", 0, 2, 3, 2)]);
}

#[test]
fn unexpected_characters_are_all_collected() {
    let r = lex("a \u{7} b $1");
    let errs = r.unwrap_err();
    assert_eq!(errs.len(), 2);
    assert_eq!(errs[0], Error::unexpected_char('\u{7}').at(SrcRange::new(SrcLoc::new(1, 3), 0)));
    assert_eq!(errs[1], Error::unexpected_char('$').at(SrcRange::new(SrcLoc::new(1, 7), 1)));
}
