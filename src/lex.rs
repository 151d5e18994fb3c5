use vstd::prelude::*;

use crate::error::{ranged, Error, ErrorKindV, ErrorV};
use crate::source::{SrcLoc, SrcRange};
use crate::text::{
    alnum, alpha, chars_of, digit, is_alnum, is_alpha, is_digit, is_punct, is_space, punct,
    space, string_of,
};

verus! {

/// What a token is.
#[derive(Clone, Debug, PartialEq)]
pub enum Lexeme {
    /// A name, whether it was written scalar (`$name`), and its count of trailing quote marks.
    Ident(String, bool, usize),
    Str(String),
    Num(String),
    Def,
    Let,
    If,
    True,
    False,
    Null,
    Pipe,
    /// A lone `$`; the lexer folds `$` into the identifier after it and never emits this.
    Dollar,
    Arrow,
}

pub enum LexemeV {
    Ident(Seq<char>, bool, nat),
    Str(Seq<char>),
    Num(Seq<char>),
    Def,
    Let,
    If,
    True,
    False,
    Null,
    Pipe,
    Dollar,
    Arrow,
}

impl View for Lexeme {
    type V = LexemeV;

    open spec fn view(&self) -> LexemeV {
        match self {
            Lexeme::Ident(s, scalar, arity) => LexemeV::Ident(s@, *scalar, *arity as nat),
            Lexeme::Str(s) => LexemeV::Str(s@),
            Lexeme::Num(s) => LexemeV::Num(s@),
            Lexeme::Def => LexemeV::Def,
            Lexeme::Let => LexemeV::Let,
            Lexeme::If => LexemeV::If,
            Lexeme::True => LexemeV::True,
            Lexeme::False => LexemeV::False,
            Lexeme::Null => LexemeV::Null,
            Lexeme::Pipe => LexemeV::Pipe,
            Lexeme::Dollar => LexemeV::Dollar,
            Lexeme::Arrow => LexemeV::Arrow,
        }
    }
}

/// A lexeme and the source range it was read from.
#[derive(Clone, Debug, PartialEq)]
pub struct Token(pub Lexeme, pub SrcRange);

pub struct TokenV {
    pub lexeme: LexemeV,
    pub range: SrcRange,
}

impl View for Token {
    type V = TokenV;

    open spec fn view(&self) -> TokenV {
        TokenV { lexeme: self.0@, range: self.1 }
    }
}

pub open spec fn tokens_view(ts: Seq<Token>) -> Seq<TokenV> {
    ts.map_values(|t: Token| t@)
}

pub open spec fn errors_view(es: Seq<Error>) -> Seq<ErrorV> {
    es.map_values(|e: Error| e@)
}

/// Characters that always make up a symbolic identifier of their own.
pub open spec fn is_singular(c: char) -> bool {
    c == '|' || c == '(' || c == ')' || c == '[' || c == ']' || c == '{' || c == '}' || c
        == '\'' || c == ',' || c == ';'
}

fn singular(c: char) -> (r: bool)
    ensures
        r == is_singular(c),
{
    c == '|' || c == '(' || c == ')' || c == '[' || c == ']' || c == '{' || c == '}' || c
        == '\'' || c == ',' || c == ';'
}

/// What the lexer is in the middle of reading.
pub enum ModeV {
    Default,
    /// Just after a `$`.
    Scalar,
    /// Inside a string: the text so far, and whether a backslash came last.
    Str(Seq<char>, bool),
    /// An alphanumeric identifier: text, scalar flag, trailing quotes so far.
    Ident(Seq<char>, bool, nat),
    /// A symbolic identifier: text, scalar flag, whether it is one singular character, quotes.
    Sym(Seq<char>, bool, bool, nat),
    Num(Seq<char>),
}

/// The whole state of the lexer between two characters.
pub struct LexV {
    pub mode: ModeV,
    pub tokens: Seq<TokenV>,
    pub errors: Seq<ErrorV>,
    /// Where the lexeme being read starts.
    pub sloc: SrcLoc,
    /// Where the next character stands.
    pub cloc: SrcLoc,
    /// How many characters the lexeme being read covers.
    pub len: nat,
    /// Whether the end of input was reached.
    pub done: bool,
}

/// The state after the current character has been consumed.
pub open spec fn advance(st: LexV, c: char) -> LexV {
    LexV {
        cloc: if c == '\n' {
            SrcLoc { line: (st.cloc.line + 1) as usize, col: 1 }
        } else {
            SrcLoc { line: st.cloc.line, col: (st.cloc.col + 1) as usize }
        },
        len: st.len + 1,
        ..st
    }
}

pub open spec fn with_mode(st: LexV, mode: ModeV) -> LexV {
    LexV { mode, ..st }
}

/// The state with a token emitted and the lexer back in its default mode.
pub open spec fn emit(st: LexV, lexeme: LexemeV) -> LexV {
    LexV {
        tokens: st.tokens.push(TokenV { lexeme, range: SrcRange { loc: st.sloc, len: st.len as usize } }),
        mode: ModeV::Default,
        ..st
    }
}

/// The lexeme of a finished alphanumeric word: a reserved word, or an identifier.
pub open spec fn word(text: Seq<char>, scalar: bool, arity: nat) -> LexemeV {
    if text == seq!['d', 'e', 'f'] {
        LexemeV::Def
    } else if text == seq!['l', 'e', 't'] {
        LexemeV::Let
    } else if text == seq!['i', 'f'] {
        LexemeV::If
    } else if text == seq!['t', 'r', 'u', 'e'] {
        LexemeV::True
    } else if text == seq!['f', 'a', 'l', 's', 'e'] {
        LexemeV::False
    } else if text == seq!['n', 'u', 'l', 'l'] {
        LexemeV::Null
    } else {
        LexemeV::Ident(text, scalar, arity)
    }
}

/// The lexeme of a finished symbolic word: the arrow, or an identifier.
pub open spec fn symbol(text: Seq<char>, scalar: bool, arity: nat) -> LexemeV {
    if text == seq!['-', '>'] {
        LexemeV::Arrow
    } else {
        LexemeV::Ident(text, scalar, arity)
    }
}

pub open spec fn rank(m: ModeV) -> nat {
    match m {
        ModeV::Scalar => 2,
        ModeV::Ident(..) | ModeV::Sym(..) | ModeV::Num(..) => 1,
        _ => 0,
    }
}

/// One character through the lexer. A mode that ends at `c` hands `c` on to the next mode.
/// `'\0'` marks the end of input.
pub open spec fn feed(st0: LexV, c: char) -> LexV
    decreases rank(st0.mode),
{
    let st = if st0.mode is Default {
        LexV { sloc: st0.cloc, len: 0, ..st0 }
    } else {
        st0
    };
    let here = SrcRange { loc: st.sloc, len: st.len as usize };
    match st.mode {
        ModeV::Default => if c == '"' {
            advance(with_mode(st, ModeV::Str(seq![], false)), c)
        } else if c == '|' {
            advance(
                LexV {
                    tokens: st.tokens.push(TokenV { lexeme: LexemeV::Pipe, range: SrcRange { loc: st.sloc, len: 1 } }),
                    ..st
                },
                c,
            )
        } else if c == '$' {
            advance(with_mode(st, ModeV::Scalar), c)
        } else if is_space(c) {
            advance(st, c)
        } else if is_alpha(c) || c == '_' {
            advance(with_mode(st, ModeV::Ident(seq![c], false, 0)), c)
        } else if is_digit(c) {
            advance(with_mode(st, ModeV::Num(seq![c])), c)
        } else if is_punct(c) {
            advance(with_mode(st, ModeV::Sym(seq![c], false, is_singular(c), 0)), c)
        } else if c == '\0' {
            LexV { done: true, ..st }
        } else {
            advance(LexV { errors: st.errors.push(ranged(ErrorKindV::UnexpectedChar(c), here)), ..st }, c)
        },
        ModeV::Scalar => if is_alpha(c) {
            feed(with_mode(st, ModeV::Ident(seq![], true, 0)), c)
        } else if is_punct(c) {
            feed(with_mode(st, ModeV::Sym(seq![], true, is_singular(c), 0)), c)
        } else {
            feed(
                LexV {
                    errors: st.errors.push(ranged(ErrorKindV::UnexpectedChar('$'), here)),
                    mode: ModeV::Default,
                    ..st
                },
                c,
            )
        },
        ModeV::Str(text, escaped) => if c == '"' {
            advance(emit(st, LexemeV::Str(text)), c)
        } else if c == '\0' {
            LexV { done: true, ..st }
        } else if escaped {
            let t = if c == '\\' {
                text.push('\\')
            } else if c == 'n' {
                text.push('\n')
            } else {
                text
            };
            advance(with_mode(st, ModeV::Str(t, false)), c)
        } else if c == '\\' {
            advance(with_mode(st, ModeV::Str(text, true)), c)
        } else {
            advance(with_mode(st, ModeV::Str(text.push(c), false)), c)
        },
        ModeV::Ident(text, scalar, arity) => if c == '\'' {
            advance(with_mode(st, ModeV::Ident(text, scalar, arity + 1)), c)
        } else if (is_alnum(c) || c == '_') && arity == 0 {
            advance(with_mode(st, ModeV::Ident(text.push(c), scalar, arity)), c)
        } else {
            feed(emit(st, word(text, scalar, arity)), c)
        },
        ModeV::Num(text) => if is_alnum(c) {
            advance(with_mode(st, ModeV::Num(text.push(c))), c)
        } else {
            feed(emit(st, LexemeV::Num(text)), c)
        },
        ModeV::Sym(text, scalar, single, arity) => if c == '\'' {
            advance(with_mode(st, ModeV::Sym(text, scalar, single, arity + 1)), c)
        } else if is_punct(c) && !is_singular(c) && arity == 0 && !single {
            advance(with_mode(st, ModeV::Sym(text.push(c), scalar, single, arity)), c)
        } else {
            feed(emit(st, symbol(text, scalar, arity)), c)
        },
    }
}

/// The character at `i`, or the end-of-input mark past the end.
pub open spec fn char_at(chars: Seq<char>, i: int) -> char {
    if 0 <= i < chars.len() {
        chars[i]
    } else {
        '\0'
    }
}

/// The lexer run from position `i` in state `st` until it is done.
pub open spec fn run(chars: Seq<char>, i: nat, st: LexV) -> LexV
    decreases chars.len() + 1 - i,
{
    if st.done || i > chars.len() {
        st
    } else {
        run(chars, i + 1, feed(st, char_at(chars, i as int)))
    }
}

pub open spec fn start() -> LexV {
    LexV {
        mode: ModeV::Default,
        tokens: seq![],
        errors: seq![],
        sloc: SrcLoc { line: 1, col: 1 },
        cloc: SrcLoc { line: 1, col: 1 },
        len: 0,
        done: false,
    }
}

/// The tokens of `chars`, or every error found in them: each unexpected character, and an
/// unterminated string at its opening quote.
pub open spec fn lex_spec(chars: Seq<char>) -> Result<Seq<TokenV>, Seq<ErrorV>> {
    let st = run(chars, 0, start());
    let errors = if st.mode is Str {
        st.errors.push(
            ranged(ErrorKindV::ExpectedDelimiter('"'), SrcRange { loc: st.sloc, len: st.len as usize }),
        )
    } else {
        st.errors
    };
    if errors.len() > 0 {
        Err(errors)
    } else {
        Ok(st.tokens)
    }
}

} // verus!

verus! {

enum Mode {
    Default,
    Scalar,
    Str(Vec<char>, bool),
    Ident(Vec<char>, bool, usize),
    Sym(Vec<char>, bool, bool, usize),
    Num(Vec<char>),
}

impl View for Mode {
    type V = ModeV;

    closed spec fn view(&self) -> ModeV {
        match self {
            Mode::Default => ModeV::Default,
            Mode::Scalar => ModeV::Scalar,
            Mode::Str(t, e) => ModeV::Str(t@, *e),
            Mode::Ident(t, s, a) => ModeV::Ident(t@, *s, *a as nat),
            Mode::Sym(t, s, g, a) => ModeV::Sym(t@, *s, *g, *a as nat),
            Mode::Num(t) => ModeV::Num(t@),
        }
    }
}

struct Lexer {
    mode: Mode,
    tokens: Vec<Token>,
    errors: Vec<Error>,
    sloc: SrcLoc,
    cloc: SrcLoc,
    len: usize,
    done: bool,
}

impl View for Lexer {
    type V = LexV;

    closed spec fn view(&self) -> LexV {
        LexV {
            mode: self.mode@,
            tokens: tokens_view(self.tokens@),
            errors: errors_view(self.errors@),
            sloc: self.sloc,
            cloc: self.cloc,
            len: self.len as nat,
            done: self.done,
        }
    }
}

spec fn mode_arity(m: ModeV) -> nat {
    match m {
        ModeV::Ident(_, _, a) => a,
        ModeV::Sym(_, _, _, a) => a,
        _ => 0,
    }
}

/// After `i` characters, no counter of the state exceeds `i + 1`.
spec fn fits(st: LexV, i: nat) -> bool {
    &&& st.cloc.line <= i + 1
    &&& st.cloc.col <= i + 1
    &&& st.sloc.line <= i + 1
    &&& st.sloc.col <= i + 1
    &&& st.len <= i
    &&& mode_arity(st.mode) <= i
}

/// As `fits`, with one more trailing quote counted before the character is consumed.
spec fn fits_before_step(st: LexV, i: nat) -> bool {
    &&& st.cloc.line <= i + 1
    &&& st.cloc.col <= i + 1
    &&& st.sloc.line <= i + 1
    &&& st.sloc.col <= i + 1
    &&& st.len <= i
    &&& mode_arity(st.mode) <= i + 1
}

fn push_token(tokens: &mut Vec<Token>, t: Token)
    ensures
        tokens_view(final(tokens)@) == tokens_view(old(tokens)@).push(t@),
{
    let ghost before = tokens@;
    tokens.push(t);
    assert(tokens_view(tokens@) =~= tokens_view(before).push(t@));
}

fn push_error(errors: &mut Vec<Error>, e: Error)
    ensures
        errors_view(final(errors)@) == errors_view(old(errors)@).push(e@),
{
    let ghost before = errors@;
    errors.push(e);
    assert(errors_view(errors@) =~= errors_view(before).push(e@));
}

fn word_lexeme(text: &Vec<char>, scalar: bool, arity: usize) -> (r: Lexeme)
    ensures
        r@ == word(text@, scalar, arity as nat),
{
    let n = text.len();
    if n == 3 && text[0] == 'd' && text[1] == 'e' && text[2] == 'f' {
        assert(text@ =~= seq!['d', 'e', 'f']);
        Lexeme::Def
    } else if n == 3 && text[0] == 'l' && text[1] == 'e' && text[2] == 't' {
        assert(text@ =~= seq!['l', 'e', 't']);
        Lexeme::Let
    } else if n == 2 && text[0] == 'i' && text[1] == 'f' {
        assert(text@ =~= seq!['i', 'f']);
        Lexeme::If
    } else if n == 4 && text[0] == 't' && text[1] == 'r' && text[2] == 'u' && text[3] == 'e' {
        assert(text@ =~= seq!['t', 'r', 'u', 'e']);
        Lexeme::True
    } else if n == 5 && text[0] == 'f' && text[1] == 'a' && text[2] == 'l' && text[3] == 's'
        && text[4] == 'e' {
        assert(text@ =~= seq!['f', 'a', 'l', 's', 'e']);
        Lexeme::False
    } else if n == 4 && text[0] == 'n' && text[1] == 'u' && text[2] == 'l' && text[3] == 'l' {
        assert(text@ =~= seq!['n', 'u', 'l', 'l']);
        Lexeme::Null
    } else {
        Lexeme::Ident(string_of(text), scalar, arity)
    }
}

fn symbol_lexeme(text: &Vec<char>, scalar: bool, arity: usize) -> (r: Lexeme)
    ensures
        r@ == symbol(text@, scalar, arity as nat),
{
    if text.len() == 2 && text[0] == '-' && text[1] == '>' {
        assert(text@ =~= seq!['-', '>']);
        Lexeme::Arrow
    } else {
        Lexeme::Ident(string_of(text), scalar, arity)
    }
}

impl Lexer {
    fn step(self, c: char, Ghost(i): Ghost<nat>) -> (r: Self)
        requires
            fits_before_step(self@, i),
            i + 4 < usize::MAX,
        ensures
            r@ == advance(self@, c),
            fits(r@, i + 1),
    {
        let cloc = if c == '\n' {
            SrcLoc { line: self.cloc.line + 1, col: 1 }
        } else {
            SrcLoc { line: self.cloc.line, col: self.cloc.col + 1 }
        };
        Lexer { cloc, len: self.len + 1, ..self }
    }

    fn emit(self, lexeme: Lexeme) -> (r: Self)
        ensures
            r@ == emit(self@, lexeme@),
    {
        let mut tokens = self.tokens;
        push_token(&mut tokens, Token(lexeme, SrcRange::new(self.sloc, self.len)));
        Lexer { tokens, mode: Mode::Default, ..self }
    }

    fn fail(self, c: char) -> (r: Self)
        ensures
            r@ == (LexV {
                errors: self@.errors.push(
                    ranged(ErrorKindV::UnexpectedChar(c), SrcRange { loc: self.sloc, len: self.len }),
                ),
                ..self@
            }),
    {
        let mut errors = self.errors;
        push_error(&mut errors, Error::unexpected_char(c).at(SrcRange::new(self.sloc, self.len)));
        Lexer { errors, ..self }
    }

    fn feed(self, c: char, Ghost(i): Ghost<nat>) -> (r: Self)
        requires
            fits(self@, i),
            i + 4 < usize::MAX,
        ensures
            r@ == feed(self@, c),
            fits(r@, i + 1),
        decreases rank(self@.mode),
    {
        let st = if let Mode::Default = self.mode {
            Lexer { sloc: self.cloc, len: 0, ..self }
        } else {
            self
        };
        match st.mode {
            Mode::Default => {
                if c == '"' {
                    Lexer { mode: Mode::Str(Vec::new(), false), ..st }.step(c, Ghost(i))
                } else if c == '|' {
                    let mut tokens = st.tokens;
                    push_token(&mut tokens, Token(Lexeme::Pipe, SrcRange::new(st.sloc, 0).grow_by(1)));
                    Lexer { tokens, mode: Mode::Default, ..st }.step(c, Ghost(i))
                } else if c == '$' {
                    Lexer { mode: Mode::Scalar, ..st }.step(c, Ghost(i))
                } else if space(c) {
                    Lexer { mode: Mode::Default, ..st }.step(c, Ghost(i))
                } else if alpha(c) || c == '_' {
                    {
                        let v = vec![c];
                        assert(v@ =~= seq![c]);
                        Lexer { mode: Mode::Ident(v, false, 0), ..st }.step(c, Ghost(i))
                    }
                } else if digit(c) {
                    {
                        let v = vec![c];
                        assert(v@ =~= seq![c]);
                        Lexer { mode: Mode::Num(v), ..st }.step(c, Ghost(i))
                    }
                } else if punct(c) {
                    {
                        let v = vec![c];
                        assert(v@ =~= seq![c]);
                        Lexer { mode: Mode::Sym(v, false, singular(c), 0), ..st }.step(c, Ghost(i))
                    }
                } else if c == '\0' {
                    Lexer { mode: Mode::Default, done: true, ..st }
                } else {
                    Lexer { mode: Mode::Default, ..st }.fail(c).step(c, Ghost(i))
                }
            },
            Mode::Scalar => {
                if alpha(c) {
                    Lexer { mode: Mode::Ident(Vec::new(), true, 0), ..st }.feed(c, Ghost(i))
                } else if punct(c) {
                    Lexer { mode: Mode::Sym(Vec::new(), true, singular(c), 0), ..st }.feed(c, Ghost(i))
                } else {
                    Lexer { mode: Mode::Default, ..st }.fail('$').feed(c, Ghost(i))
                }
            },
            Mode::Str(text, escaped) => {
                if c == '"' {
                    let s = string_of(&text);
                    Lexer { mode: Mode::Default, ..st }.emit(Lexeme::Str(s)).step(c, Ghost(i))
                } else if c == '\0' {
                    Lexer { mode: Mode::Str(text, escaped), done: true, ..st }
                } else if escaped {
                    let mut t = text;
                    if c == '\\' {
                        t.push('\\');
                    } else if c == 'n' {
                        t.push('\n');
                    }
                    Lexer { mode: Mode::Str(t, false), ..st }.step(c, Ghost(i))
                } else if c == '\\' {
                    Lexer { mode: Mode::Str(text, true), ..st }.step(c, Ghost(i))
                } else {
                    let mut t = text;
                    t.push(c);
                    Lexer { mode: Mode::Str(t, false), ..st }.step(c, Ghost(i))
                }
            },
            Mode::Ident(text, scalar, arity) => {
                if c == '\'' {
                    Lexer { mode: Mode::Ident(text, scalar, arity + 1), ..st }.step(c, Ghost(i))
                } else if (alnum(c) || c == '_') && arity == 0 {
                    let mut t = text;
                    t.push(c);
                    Lexer { mode: Mode::Ident(t, scalar, arity), ..st }.step(c, Ghost(i))
                } else {
                    let lexeme = word_lexeme(&text, scalar, arity);
                    Lexer { mode: Mode::Default, ..st }.emit(lexeme).feed(c, Ghost(i))
                }
            },
            Mode::Num(text) => {
                if alnum(c) {
                    let mut t = text;
                    t.push(c);
                    Lexer { mode: Mode::Num(t), ..st }.step(c, Ghost(i))
                } else {
                    let s = string_of(&text);
                    Lexer { mode: Mode::Default, ..st }.emit(Lexeme::Num(s)).feed(c, Ghost(i))
                }
            },
            Mode::Sym(text, scalar, single, arity) => {
                if c == '\'' {
                    Lexer { mode: Mode::Sym(text, scalar, single, arity + 1), ..st }.step(c, Ghost(i))
                } else if punct(c) && !singular(c) && arity == 0 && !single {
                    let mut t = text;
                    t.push(c);
                    Lexer { mode: Mode::Sym(t, scalar, single, arity), ..st }.step(c, Ghost(i))
                } else {
                    let lexeme = symbol_lexeme(&text, scalar, arity);
                    Lexer { mode: Mode::Default, ..st }.emit(lexeme).feed(c, Ghost(i))
                }
            },
        }
    }
}

} // verus!

verus! {

/// Splits source text into tokens, or reports every lexical error in it.
pub fn lex(code: &str) -> (r: Result<Vec<Token>, Vec<Error>>)
    requires
        code@.len() + 8 < usize::MAX,
    ensures
        match r {
            Ok(ts) => lex_spec(code@) == Ok::<Seq<TokenV>, Seq<ErrorV>>(tokens_view(ts@)),
            Err(es) => lex_spec(code@) == Err::<Seq<TokenV>, Seq<ErrorV>>(errors_view(es@)),
        },
{
    let chars = chars_of(code);
    let n = chars.len();
    let mut st = Lexer {
        mode: Mode::Default,
        tokens: Vec::new(),
        errors: Vec::new(),
        sloc: SrcLoc::new(1, 1),
        cloc: SrcLoc::new(1, 1),
        len: 0,
        done: false,
    };
    assert(st@.tokens =~= seq![]);
    assert(st@.errors =~= seq![]);
    assert(st@ == start());
    let mut i: usize = 0;
    while !st.done && i <= n
        invariant
            n == chars@.len(),
            chars@ == code@,
            n + 8 < usize::MAX,
            i <= n + 1,
            fits(st@, i as nat),
            run(chars@, 0, start()) == run(chars@, i as nat, st@),
        decreases n + 1 - i,
    {
        let c = if i < n {
            chars[i]
        } else {
            '\0'
        };
        assert(c == char_at(chars@, i as int));
        st = st.feed(c, Ghost(i as nat));
        i = i + 1;
    }
    let ghost fin = st@;
    assert(run(chars@, 0, start()) == fin);
    let mut errors = st.errors;
    if let Mode::Str(_, _) = st.mode {
        push_error(&mut errors, Error::expected_delimiter('"').at(SrcRange::new(st.sloc, st.len)));
    }
    if errors.len() > 0 {
        Err(errors)
    } else {
        Ok(st.tokens)
    }
}

} // verus!
