use vstd::prelude::*;

use crate::ast::{
    define, expr_v, exprs_view, names_view, Builtin, Decl, DeclV, Expr, ExprV, Literal, LiteralV,
    Program, operand_count,
};
use crate::error::{bare, ranged, Error, ErrorKindV, ErrorV, Expected, Unexpected};
use crate::lex::{Lexeme, LexemeV, Token, TokenV, tokens_view};
use crate::text::{digit, is_digit, same_text};

verus! {

/// Names in scope with the arity each was declared with; later entries shadow earlier ones.
pub type Scope = Seq<(Seq<char>, nat)>;

/// The arity of the last entry named `name`.
pub open spec fn find(scope: Scope, name: Seq<char>) -> Option<nat>
    decreases scope.len(),
{
    if scope.len() == 0 {
        None
    } else if scope.last().0 == name {
        Some(scope.last().1)
    } else {
        find(scope.drop_last(), name)
    }
}

/// The built-in operation of this name.
pub open spec fn builtin_named(name: Seq<char>) -> Option<Builtin> {
    if name == "__head"@ {
        Some(Builtin::Head)
    } else if name == "__tail"@ {
        Some(Builtin::Tail)
    } else if name == "__wrap"@ {
        Some(Builtin::Wrap)
    } else if name == "__cat"@ {
        Some(Builtin::Cat)
    } else if name == "__add"@ {
        Some(Builtin::Add)
    } else if name == "__sub"@ {
        Some(Builtin::Sub)
    } else if name == "__mul"@ {
        Some(Builtin::Mul)
    } else if name == "__div"@ {
        Some(Builtin::Div)
    } else if name == "__rem"@ {
        Some(Builtin::Rem)
    } else if name == "__eq"@ {
        Some(Builtin::Eq)
    } else if name == "__less"@ {
        Some(Builtin::Less)
    } else if name == "__lesseq"@ {
        Some(Builtin::LessEq)
    } else if name == "__floor"@ {
        Some(Builtin::Floor)
    } else if name == "__ceil"@ {
        Some(Builtin::Ceil)
    } else if name == "__input"@ {
        Some(Builtin::Input)
    } else if name == "__print"@ {
        Some(Builtin::Print)
    } else if name == "__debug"@ {
        Some(Builtin::Debug)
    } else {
        None
    }
}

/// The arity of `name` where it is used: locals first, then globals, then built-ins.
pub open spec fn resolve(globals: Scope, locals: Scope, name: Seq<char>) -> Option<nat> {
    match find(locals, name) {
        Some(a) => Some(a),
        None => match find(globals, name) {
            Some(a) => Some(a),
            None => match builtin_named(name) {
                Some(b) => Some(operand_count(b)),
                None => None,
            },
        },
    }
}

/// Digits from `from` on.
pub open spec fn all_digits(t: Seq<char>) -> bool {
    forall|i: int| 0 <= i < t.len() ==> is_digit(#[trigger] t[i])
}

/// A number as a number token can spell it: digits, then perhaps an exponent of digits.
pub open spec fn valid_number(t: Seq<char>) -> bool {
    (t.len() > 0 && all_digits(t)) || exists|k: int|
        0 < k < t.len() - 1 && (t[k] == 'e' || t[k] == 'E') && all_digits(t.take(k)) && all_digits(
            t.skip(k + 1),
        )
}

pub open spec fn eof() -> ErrorV {
    bare(ErrorKindV::Unexpected(Unexpected::Eof))
}

/// The names of a parameter list `| a b … |` whose first `|` stands before `pos`, collected
/// onto `acc`, and the position after its closing `|`.
pub open spec fn params_from(ts: Seq<TokenV>, pos: int, acc: Seq<Seq<char>>) -> Result<
    (Seq<Seq<char>>, int),
    ErrorV,
>
    decreases ts.len() - pos,
{
    if pos < 0 || pos >= ts.len() {
        Err(bare(ErrorKindV::ExpectedDelimiter('|')))
    } else {
        match ts[pos].lexeme {
            LexemeV::Ident(n, scalar, arity) => if scalar || arity != 0 {
                Err(ranged(ErrorKindV::Expected(Expected::ArityIdent), ts[pos].range))
            } else {
                params_from(ts, pos + 1, acc.push(n))
            },
            LexemeV::Pipe => Ok((acc, pos + 1)),
            _ => Err(ranged(ErrorKindV::Expected(Expected::Pipe), ts[pos].range)),
        }
    }
}

/// A parameter list starting at `pos`.
pub open spec fn params_s(ts: Seq<TokenV>, pos: int) -> Result<(Seq<Seq<char>>, int), ErrorV> {
    if pos < 0 || pos >= ts.len() {
        Err(bare(ErrorKindV::Expected(Expected::Pipe)))
    } else if ts[pos].lexeme is Pipe {
        params_from(ts, pos + 1, seq![])
    } else {
        Err(ranged(ErrorKindV::Expected(Expected::Pipe), ts[pos].range))
    }
}

/// Parameters as scope entries: each of arity zero.
pub open spec fn params_scope(ps: Seq<Seq<char>>) -> Scope {
    ps.map_values(|p: Seq<char>| (p, 0nat))
}

/// The declaration of a `let` at `pos`, the entries it adds to scope, and the position after it.
pub open spec fn decl_s(ts: Seq<TokenV>, pos: int) -> Result<(DeclV, Scope, int), ErrorV> {
    if pos < 0 || pos >= ts.len() {
        Err(bare(ErrorKindV::Expected(Expected::ArityIdent)))
    } else {
        match ts[pos].lexeme {
            LexemeV::Pipe => match params_s(ts, pos) {
                Ok((ps, p)) => Ok((DeclV::Destructure(ps), params_scope(ps), p)),
                Err(e) => Err(e),
            },
            LexemeV::Ident(n, scalar, arity) => if !scalar {
                Ok((DeclV::Single(n), seq![(n, arity)], pos + 1))
            } else {
                Err(ranged(ErrorKindV::Expected(Expected::ArityIdent), ts[pos].range))
            },
            _ => Err(ranged(ErrorKindV::Expected(Expected::ArityIdent), ts[pos].range)),
        }
    }
}

/// One expression starting at `pos`, and the position after it.
pub open spec fn expr_s(ts: Seq<TokenV>, pos: int, g: Scope, l: Scope) -> Result<(ExprV, int), ErrorV>
    decreases ts.len() - pos, 0nat,
{
    if pos < 0 || pos >= ts.len() {
        eof_err()
    } else {
        let range = ts[pos].range;
        match ts[pos].lexeme {
            LexemeV::Num(text) => if valid_number(text) {
                Ok((ExprV::Literal(LiteralV::Num(text)), pos + 1))
            } else {
                Err(ranged(ErrorKindV::BadNumber, range))
            },
            LexemeV::True => Ok((ExprV::Literal(LiteralV::Bool(true)), pos + 1)),
            LexemeV::False => Ok((ExprV::Literal(LiteralV::Bool(false)), pos + 1)),
            LexemeV::Null => Ok((ExprV::Literal(LiteralV::Null), pos + 1)),
            LexemeV::Str(s) => Ok((ExprV::Literal(LiteralV::Str(s)), pos + 1)),
            LexemeV::Ident(name, scalar, arity) => if pos + 1 < ts.len() && ts[pos + 1].lexeme is Arrow {
                match expr_s(ts, pos + 2, g, l.push((name, arity))) {
                    Ok((b, p)) => Ok((ExprV::Closure(DeclV::Single(name), Box::new(b)), p)),
                    Err(e) => Err(e),
                }
            } else {
                match resolve(g, l, name) {
                    None => Err(ranged(ErrorKindV::UnknownIdent(name), range)),
                    Some(a) => if arity != 0 {
                        Err(ranged(ErrorKindV::Expected(Expected::NoArityIdent), range))
                    } else if scalar {
                        Ok((ExprV::Call(name, seq![]), pos + 1))
                    } else {
                        match builtin_named(name) {
                            Some(op) => match exprs_s(ts, pos + 1, operand_count(op), g, l) {
                                Ok((args, p)) => Ok((ExprV::Builtin(op, args), p)),
                                Err(e) => Err(e),
                            },
                            None => match exprs_s(ts, pos + 1, a, g, l) {
                                Ok((args, p)) => Ok((ExprV::Call(name, args), p)),
                                Err(e) => Err(e),
                            },
                        }
                    },
                }
            },
            LexemeV::Pipe => match params_s(ts, pos) {
                Err(e) => Err(e),
                Ok((ps, p)) => if !later(ts, pos, p) {
                    eof_err()
                } else if p >= ts.len() {
                    Err(bare(ErrorKindV::Expected(Expected::Arrow)))
                } else if !(ts[p].lexeme is Arrow) {
                    Err(ranged(ErrorKindV::Expected(Expected::Arrow), ts[p].range))
                } else {
                    match expr_s(ts, p + 1, g, l + params_scope(ps)) {
                        Ok((b, q)) => Ok((ExprV::Closure(DeclV::Destructure(ps), Box::new(b)), q)),
                        Err(e) => Err(e),
                    }
                },
            },
            LexemeV::If => match exprs_s(ts, pos + 1, 3, g, l) {
                Ok((es, p)) => if es.len() == 3 {
                    Ok((ExprV::If(Box::new(es[0]), Box::new(es[1]), Box::new(es[2])), p))
                } else {
                    eof_err()
                },
                Err(e) => Err(e),
            },
            LexemeV::Let => match decl_s(ts, pos + 1) {
                Err(e) => Err(e),
                Ok((d, added, after_decl)) => if !later(ts, pos, after_decl) {
                    eof_err()
                } else {
                    match expr_s(ts, after_decl, g, l) {
                        Err(e) => Err(e),
                        Ok((v, after_value)) => if !later(ts, pos, after_value) {
                            eof_err()
                        } else {
                            match expr_s(ts, after_value, g, l + added) {
                                Err(e) => Err(e),
                                Ok((b, after_body)) => Ok((ExprV::Let(d, Box::new(v), Box::new(b)), after_body)),
                            }
                        },
                    }
                },
            },
            LexemeV::Def => Err(ranged(ErrorKindV::Unexpected(Unexpected::Def), range)),
            _ => Err(ranged(ErrorKindV::Unexpected(Unexpected::Token), range)),
        }
    }
}

/// A position past `pos` and not past the end.
pub open spec fn later(ts: Seq<TokenV>, pos: int, p: int) -> bool {
    pos < p <= ts.len()
}

pub open spec fn eof_err<T>() -> Result<T, ErrorV> {
    Err(eof())
}

/// `n` expressions one after another from `pos`, and the position after the last.
pub open spec fn exprs_s(ts: Seq<TokenV>, pos: int, n: nat, g: Scope, l: Scope) -> Result<
    (Seq<ExprV>, int),
    ErrorV,
>
    decreases ts.len() - pos, n + 1,
{
    if n == 0 {
        Ok((seq![], pos))
    } else if pos < 0 || pos >= ts.len() {
        eof_err()
    } else {
        match expr_s(ts, pos, g, l) {
            Err(e) => Err(e),
            Ok((e, p)) => if !later(ts, pos, p) {
                eof_err()
            } else {
                match exprs_s(ts, p, (n - 1) as nat, g, l) {
                    Err(err) => Err(err),
                    Ok((rest, q)) => Ok((seq![e] + rest, q)),
                }
            },
        }
    }
}

pub proof fn lemma_exprs_len(ts: Seq<TokenV>, pos: int, n: nat, g: Scope, l: Scope)
    ensures
        exprs_s(ts, pos, n, g, l) matches Ok((es, _)) ==> es.len() == n,
    decreases n,
{
    if n > 0 && 0 <= pos < ts.len() {
        if let Ok((e, p)) = expr_s(ts, pos, g, l) {
            if later(ts, pos, p) {
                lemma_exprs_len(ts, p, (n - 1) as nat, g, l);
            }
        }
    }
}

/// Every `def name` from `pos` on, with its arity, after those in `acc`.
pub open spec fn arities_from(ts: Seq<TokenV>, pos: int, acc: Scope) -> Result<Scope, ErrorV>
    decreases ts.len() - pos,
{
    if pos < 0 || pos >= ts.len() {
        Ok(acc)
    } else if ts[pos].lexeme is Def {
        if pos + 1 >= ts.len() {
            Err(eof())
        } else {
            match ts[pos + 1].lexeme {
                LexemeV::Ident(name, _, arity) => arities_from(ts, pos + 2, acc.push((name, arity))),
                _ => Err(ranged(ErrorKindV::Expected(Expected::NoArityIdent), ts[pos + 1].range)),
            }
        }
    } else {
        arities_from(ts, pos + 1, acc)
    }
}

/// The global arity table of a token sequence.
pub open spec fn arities_s(ts: Seq<TokenV>) -> Result<Scope, ErrorV> {
    arities_from(ts, 0, seq![])
}

/// The definitions from `pos` on, added to `defs`.
pub open spec fn defs_from(ts: Seq<TokenV>, pos: int, g: Scope, defs: Seq<(Seq<char>, ExprV)>) -> Result<
    Seq<(Seq<char>, ExprV)>,
    ErrorV,
>
    decreases ts.len() - pos,
{
    if pos < 0 || pos >= ts.len() {
        Ok(defs)
    } else if ts[pos].lexeme is Def {
        if pos + 1 >= ts.len() {
            Err(eof())
        } else {
            match ts[pos + 1].lexeme {
                LexemeV::Ident(name, scalar, _) => if scalar {
                    Err(ranged(ErrorKindV::Expected(Expected::ArityIdent), ts[pos + 1].range))
                } else {
                    match expr_s(ts, pos + 2, g, seq![]) {
                        Err(e) => Err(e),
                        Ok((body, p)) => if !later(ts, pos, p) {
                            Err(eof())
                        } else {
                            defs_from(ts, p, g, define(defs, name, body))
                        },
                    }
                },
                _ => Err(ranged(ErrorKindV::Expected(Expected::ArityIdent), ts[pos + 1].range)),
            }
        }
    } else {
        Err(ranged(ErrorKindV::Expected(Expected::Def), ts[pos].range))
    }
}

/// The program that a token sequence spells.
pub open spec fn program_s(ts: Seq<TokenV>) -> Result<Seq<(Seq<char>, ExprV)>, ErrorV> {
    match arities_s(ts) {
        Err(e) => Err(e),
        Ok(g) => defs_from(ts, 0, g, seq![]),
    }
}

} // verus!

verus! {

pub open spec fn scope_view(s: Seq<(String, usize)>) -> Scope {
    s.map_values(|e: (String, usize)| (e.0@, e.1 as nat))
}

fn builtin_of(name: &str) -> (r: Option<Builtin>)
    ensures
        r == builtin_named(name@),
{
    if same_text(name, "__head") {
        Some(Builtin::Head)
    } else if same_text(name, "__tail") {
        Some(Builtin::Tail)
    } else if same_text(name, "__wrap") {
        Some(Builtin::Wrap)
    } else if same_text(name, "__cat") {
        Some(Builtin::Cat)
    } else if same_text(name, "__add") {
        Some(Builtin::Add)
    } else if same_text(name, "__sub") {
        Some(Builtin::Sub)
    } else if same_text(name, "__mul") {
        Some(Builtin::Mul)
    } else if same_text(name, "__div") {
        Some(Builtin::Div)
    } else if same_text(name, "__rem") {
        Some(Builtin::Rem)
    } else if same_text(name, "__eq") {
        Some(Builtin::Eq)
    } else if same_text(name, "__less") {
        Some(Builtin::Less)
    } else if same_text(name, "__lesseq") {
        Some(Builtin::LessEq)
    } else if same_text(name, "__floor") {
        Some(Builtin::Floor)
    } else if same_text(name, "__ceil") {
        Some(Builtin::Ceil)
    } else if same_text(name, "__input") {
        Some(Builtin::Input)
    } else if same_text(name, "__print") {
        Some(Builtin::Print)
    } else if same_text(name, "__debug") {
        Some(Builtin::Debug)
    } else {
        None
    }
}

/// Whether `name` is one of the built-in operations.
pub fn is_builtin(name: &str) -> (r: bool)
    ensures
        r == (builtin_named(name@) is Some),
{
    builtin_of(name).is_some()
}

fn find_arity(scope: &Vec<(String, usize)>, name: &String) -> (r: Option<usize>)
    ensures
        match r {
            Some(a) => find(scope_view(scope@), name@) == Some(a as nat),
            None => find(scope_view(scope@), name@) is None,
        },
{
    let ghost sv = scope_view(scope@);
    let mut i = scope.len();
    assert(sv.take(i as int) =~= sv);
    while i > 0
        invariant
            i <= scope@.len(),
            sv == scope_view(scope@),
            find(sv, name@) == find(sv.take(i as int), name@),
        decreases i,
    {
        let ghost t = sv.take(i as int);
        assert(t.last() == sv[i - 1]);
        if scope[i - 1].0 == *name {
            return Some(scope[i - 1].1);
        }
        assert(t.drop_last() =~= sv.take(i - 1));
        i = i - 1;
    }
    None
}

fn copy_scope(s: &Vec<(String, usize)>) -> (r: Vec<(String, usize)>)
    ensures
        scope_view(r@) == scope_view(s@),
{
    let mut r: Vec<(String, usize)> = Vec::new();
    let mut i: usize = 0;
    while i < s.len()
        invariant
            i <= s@.len(),
            scope_view(r@) =~= scope_view(s@).take(i as int),
        decreases s@.len() - i,
    {
        let ghost before = r@;
        let e = (s[i].0.clone(), s[i].1);
        r.push(e);
        assert(scope_view(r@) =~= scope_view(before).push((e.0@, e.1 as nat)));
        assert(scope_view(s@).take(i + 1) =~= scope_view(s@).take(i as int).push((e.0@, e.1 as nat)));
        i = i + 1;
    }
    assert(scope_view(s@).take(s@.len() as int) =~= scope_view(s@));
    r
}

fn push_scope(s: &mut Vec<(String, usize)>, name: String, arity: usize)
    ensures
        scope_view(final(s)@) == scope_view(old(s)@).push((name@, arity as nat)),
{
    let ghost before = s@;
    s.push((name, arity));
    assert(scope_view(s@) =~= scope_view(before).push((name@, arity as nat)));
}

fn number_ok(text: &String) -> (r: bool)
    ensures
        r == valid_number(text@),
{
    let cs = crate::text::chars_of(text.as_str());
    let n = cs.len();
    let ghost t = cs@;
    if n == 0 {
        return false;
    }
    let mut i: usize = 0;
    while i < n && digit(cs[i])
        invariant
            i <= n,
            n == t.len(),
            t == cs@,
            all_digits(t.take(i as int)),
        decreases n - i,
    {
        assert(t.take(i + 1) =~= t.take(i as int).push(t[i as int]));
        i = i + 1;
    }
    if i == n {
        assert(t.take(n as int) =~= t);
        return true;
    }
    assert(!is_digit(t[i as int]));
    if !(cs[i] == 'e' || cs[i] == 'E') || i == 0 || i + 1 >= n {
        assert(!all_digits(t));
        assert forall|k: int| 0 < k < t.len() - 1 && (t[k] == 'e' || t[k] == 'E') implies !(all_digits(
            t.take(k),
        ) && all_digits(t.skip(k + 1))) by {
            if k < i {
                assert(t.take(i as int)[k] == t[k]);
            } else if k > i {
                assert(t.take(k)[i as int] == t[i as int]);
            }
        }
        return false;
    }
    let mut j: usize = i + 1;
    while j < n && digit(cs[j])
        invariant
            i + 1 <= j <= n,
            n == t.len(),
            t == cs@,
            all_digits(t.subrange(i + 1, j as int)),
        decreases n - j,
    {
        assert(t.subrange(i + 1, j + 1) =~= t.subrange(i + 1, j as int).push(t[j as int]));
        j = j + 1;
    }
    if j == n {
        assert(t.skip(i + 1) =~= t.subrange(i + 1, n as int));
        assert(t.take(i as int) =~= t.take(i as int));
        return true;
    }
    assert(!all_digits(t));
    assert forall|k: int| 0 < k < t.len() - 1 && (t[k] == 'e' || t[k] == 'E') implies !(all_digits(
        t.take(k),
    ) && all_digits(t.skip(k + 1))) by {
        if k < i {
            assert(t.take(i as int)[k] == t[k]);
        } else if k > i {
            assert(t.take(k)[i as int] == t[i as int]);
        } else {
            assert(t.skip(k + 1)[j - k - 1] == t[j as int]);
        }
    }
    false
}

} // verus!

verus! {

fn is_arrow(l: &Lexeme) -> (r: bool)
    ensures
        r == (l@ is Arrow),
{
    match l {
        Lexeme::Arrow => true,
        _ => false,
    }
}

fn read_params(tokens: &Vec<Token>, pos: usize) -> (r: Result<(Vec<String>, usize), Error>)
    requires
        pos <= tokens@.len(),
    ensures
        match r {
            Ok((ps, p)) => params_s(tokens_view(tokens@), pos as int) == Ok::<
                (Seq<Seq<char>>, int),
                ErrorV,
            >((names_view(ps@), p as int)) && pos < p <= tokens@.len(),
            Err(e) => params_s(tokens_view(tokens@), pos as int) == Err::<(Seq<Seq<char>>, int), ErrorV>(
                e@,
            ),
        },
{
    let ghost tv = tokens_view(tokens@);
    if pos >= tokens.len() {
        return Err(Error::expected(Expected::Pipe));
    }
    match &tokens[pos].0 {
        Lexeme::Pipe => {},
        _ => {
            return Err(Error::expected(Expected::Pipe).at(tokens[pos].1));
        },
    }
    let mut params: Vec<String> = Vec::new();
    let mut i = pos + 1;
    assert(names_view(params@) =~= seq![]);
    while i < tokens.len()
        invariant
            pos < i <= tokens@.len(),
            tv == tokens_view(tokens@),
            params_s(tv, pos as int) == params_from(tv, i as int, names_view(params@)),
        decreases tokens@.len() - i,
    {
        match &tokens[i].0 {
            Lexeme::Ident(ident, scalar, arity) => {
                if *scalar || *arity != 0 {
                    return Err(Error::expected(Expected::ArityIdent).at(tokens[i].1));
                }
                let ghost before = params@;
                params.push(ident.clone());
                assert(names_view(params@) =~= names_view(before).push(ident@));
            },
            Lexeme::Pipe => {
                return Ok((params, i + 1));
            },
            _ => {
                return Err(Error::expected(Expected::Pipe).at(tokens[i].1));
            },
        }
        i = i + 1;
    }
    Err(Error::expected_delimiter('|'))
}

fn param_entries(ps: &Vec<String>) -> (r: Vec<(String, usize)>)
    ensures
        scope_view(r@) == params_scope(names_view(ps@)),
{
    let mut r: Vec<(String, usize)> = Vec::new();
    let mut i: usize = 0;
    while i < ps.len()
        invariant
            i <= ps@.len(),
            scope_view(r@) =~= params_scope(names_view(ps@)).take(i as int),
        decreases ps@.len() - i,
    {
        let ghost before = r@;
        r.push((ps[i].clone(), 0));
        assert(scope_view(r@) =~= scope_view(before).push((ps@[i as int]@, 0nat)));
        assert(params_scope(names_view(ps@)).take(i + 1) =~= params_scope(names_view(ps@)).take(
            i as int,
        ).push((ps@[i as int]@, 0nat)));
        i = i + 1;
    }
    assert(params_scope(names_view(ps@)).take(ps@.len() as int) =~= params_scope(names_view(ps@)));
    r
}

fn append_scope(s: &mut Vec<(String, usize)>, extra: Vec<(String, usize)>)
    ensures
        scope_view(final(s)@) == scope_view(old(s)@) + scope_view(extra@),
{
    let mut extra = extra;
    let ghost a = s@;
    let ghost b = extra@;
    s.append(&mut extra);
    assert(scope_view(s@) =~= scope_view(a) + scope_view(b));
}

fn read_decl(tokens: &Vec<Token>, pos: usize) -> (r: Result<(Decl, Vec<(String, usize)>, usize), Error>)
    requires
        pos <= tokens@.len(),
    ensures
        match r {
            Ok((d, added, p)) => decl_s(tokens_view(tokens@), pos as int) == Ok::<
                (DeclV, Scope, int),
                ErrorV,
            >((d@, scope_view(added@), p as int)) && pos < p <= tokens@.len(),
            Err(e) => decl_s(tokens_view(tokens@), pos as int) == Err::<(DeclV, Scope, int), ErrorV>(
                e@,
            ),
        },
{
    if pos >= tokens.len() {
        return Err(Error::expected(Expected::ArityIdent));
    }
    match &tokens[pos].0 {
        Lexeme::Pipe => {
            let (ps, p) = read_params(tokens, pos)?;
            let added = param_entries(&ps);
            Ok((Decl::Destructure(ps), added, p))
        },
        Lexeme::Ident(name, scalar, arity) => {
            if !*scalar {
                let mut added: Vec<(String, usize)> = Vec::new();
                push_scope(&mut added, name.clone(), *arity);
                assert(scope_view(added@) =~= seq![(name@, *arity as nat)]);
                Ok((Decl::Single(name.clone()), added, pos + 1))
            } else {
                Err(Error::expected(Expected::ArityIdent).at(tokens[pos].1))
            }
        },
        _ => Err(Error::expected(Expected::ArityIdent).at(tokens[pos].1)),
    }
}

} // verus!

verus! {

fn read_exprs(
    tokens: &Vec<Token>,
    pos: usize,
    n: usize,
    globals: &Vec<(String, usize)>,
    locals: &Vec<(String, usize)>,
) -> (r: Result<(Vec<Expr>, usize), Error>)
    requires
        pos <= tokens@.len(),
    ensures
        match r {
            Ok((es, p)) => exprs_s(
                tokens_view(tokens@),
                pos as int,
                n as nat,
                scope_view(globals@),
                scope_view(locals@),
            ) == Ok::<(Seq<ExprV>, int), ErrorV>((exprs_view(es@), p as int)) && pos <= p
                <= tokens@.len() && (n > 0 ==> pos < p),
            Err(e) => exprs_s(
                tokens_view(tokens@),
                pos as int,
                n as nat,
                scope_view(globals@),
                scope_view(locals@),
            ) == Err::<(Seq<ExprV>, int), ErrorV>(e@),
        },
    decreases tokens@.len() - pos, n + 1,
{
    if n == 0 {
        let v: Vec<Expr> = Vec::new();
        assert(exprs_view(v@) =~= seq![]);
        return Ok((v, pos));
    }
    if pos >= tokens.len() {
        return Err(Error::unexpected_eof());
    }
    let (e, p) = read_expr(tokens, pos, globals, locals)?;
    let (rest, q) = read_exprs(tokens, p, n - 1, globals, locals)?;
    let mut v = vec![e];
    let ghost ev = v@;
    let ghost rv = rest@;
    let mut rest = rest;
    v.append(&mut rest);
    assert(exprs_view(v@) =~= seq![expr_v(e)] + exprs_view(rv));
    Ok((v, q))
}

fn read_expr(
    tokens: &Vec<Token>,
    pos: usize,
    globals: &Vec<(String, usize)>,
    locals: &Vec<(String, usize)>,
) -> (r: Result<(Expr, usize), Error>)
    requires
        pos <= tokens@.len(),
    ensures
        match r {
            Ok((e, p)) => expr_s(
                tokens_view(tokens@),
                pos as int,
                scope_view(globals@),
                scope_view(locals@),
            ) == Ok::<(ExprV, int), ErrorV>((e@, p as int)) && pos < p <= tokens@.len(),
            Err(err) => expr_s(
                tokens_view(tokens@),
                pos as int,
                scope_view(globals@),
                scope_view(locals@),
            ) == Err::<(ExprV, int), ErrorV>(err@),
        },
    decreases tokens@.len() - pos, 0nat,
{
    let ghost tv = tokens_view(tokens@);
    let ghost g = scope_view(globals@);
    let ghost l = scope_view(locals@);
    if pos >= tokens.len() {
        return Err(Error::unexpected_eof());
    }
    let range = tokens[pos].1;
    match &tokens[pos].0 {
        Lexeme::Num(text) => {
            if number_ok(text) {
                Ok((Expr::Literal(Literal::Num(text.clone())), pos + 1))
            } else {
                Err(Error::bad_number().at(range))
            }
        },
        Lexeme::True => Ok((Expr::Literal(Literal::Bool(true)), pos + 1)),
        Lexeme::False => Ok((Expr::Literal(Literal::Bool(false)), pos + 1)),
        Lexeme::Null => Ok((Expr::Literal(Literal::Null), pos + 1)),
        Lexeme::Str(s) => Ok((Expr::Literal(Literal::Str(s.clone())), pos + 1)),
        Lexeme::Ident(name, scalar, arity) => {
            if pos + 1 < tokens.len() && is_arrow(&tokens[pos + 1].0) {
                let mut body_locals = copy_scope(locals);
                push_scope(&mut body_locals, name.clone(), *arity);
                let (body, p) = read_expr(tokens, pos + 2, globals, &body_locals)?;
                Ok((Expr::Closure(Decl::Single(name.clone()), Box::new(body)), p))
            } else {
                let found = match find_arity(locals, name) {
                    Some(a) => Some(a),
                    None => match find_arity(globals, name) {
                        Some(a) => Some(a),
                        None => match builtin_of(name.as_str()) {
                            Some(b) => Some(b.operands()),
                            None => None,
                        },
                    },
                };
                match found {
                    None => Err(Error::unknown_ident(name.clone()).at(range)),
                    Some(a) => {
                        if *arity != 0 {
                            Err(Error::expected(Expected::NoArityIdent).at(range))
                        } else if *scalar {
                            let args: Vec<Expr> = Vec::new();
                            proof {
                                crate::ast::lemma_call_view(*name, args);
                                assert(exprs_view(args@) =~= seq![]);
                            }
                            Ok((Expr::Call(name.clone(), args), pos + 1))
                        } else {
                            match builtin_of(name.as_str()) {
                                Some(op) => {
                                    let (args, p) = read_exprs(tokens, pos + 1, op.operands(), globals, locals)?;
                                    proof {
                                        crate::ast::lemma_builtin_view(op, args);
                                    }
                                    Ok((Expr::Builtin(op, args), p))
                                },
                                None => {
                                    let (args, p) = read_exprs(tokens, pos + 1, a, globals, locals)?;
                                    let n = name.clone();
                                    proof {
                                        crate::ast::lemma_call_view(n, args);
                                    }
                                    Ok((Expr::Call(n, args), p))
                                },
                            }
                        }
                    },
                }
            }
        },
        Lexeme::Pipe => {
            let (params, p) = read_params(tokens, pos)?;
            if p >= tokens.len() {
                return Err(Error::expected(Expected::Arrow));
            }
            if !is_arrow(&tokens[p].0) {
                return Err(Error::expected(Expected::Arrow).at(tokens[p].1));
            }
            let mut body_locals = copy_scope(locals);
            append_scope(&mut body_locals, param_entries(&params));
            let (body, q) = read_expr(tokens, p + 1, globals, &body_locals)?;
            Ok((Expr::Closure(Decl::Destructure(params), Box::new(body)), q))
        },
        Lexeme::If => {
            let (es, p) = read_exprs(tokens, pos + 1, 3, globals, locals)?;
            let mut es = es;
            let ghost ev = exprs_view(es@);
            proof {
                lemma_exprs_len(tv, pos + 1, 3, g, l);
            }
            let c = es.pop().unwrap();
            let b = es.pop().unwrap();
            let a = es.pop().unwrap();
            assert(ev[0] == expr_v(a) && ev[1] == expr_v(b) && ev[2] == expr_v(c));
            Ok((Expr::If(Box::new(a), Box::new(b), Box::new(c)), p))
        },
        Lexeme::Let => {
            let (decl, added, after_decl) = read_decl(tokens, pos + 1)?;
            let (value, after_value) = read_expr(tokens, after_decl, globals, locals)?;
            let mut then_locals = copy_scope(locals);
            append_scope(&mut then_locals, added);
            let (body, after_body) = read_expr(tokens, after_value, globals, &then_locals)?;
            Ok((Expr::Let(decl, Box::new(value), Box::new(body)), after_body))
        },
        Lexeme::Def => Err(Error::unexpected(Unexpected::Def).at(range)),
        _ => Err(Error::unexpected(Unexpected::Token).at(range)),
    }
}

} // verus!

verus! {

/// The name and arity of every `def`, in the order of the definitions.
pub fn gen_global_arities(tokens: &Vec<Token>) -> (r: Result<Vec<(String, usize)>, Error>)
    ensures
        match r {
            Ok(g) => arities_s(tokens_view(tokens@)) == Ok::<Scope, ErrorV>(scope_view(g@)),
            Err(e) => arities_s(tokens_view(tokens@)) == Err::<Scope, ErrorV>(e@),
        },
{
    let ghost tv = tokens_view(tokens@);
    let mut arities: Vec<(String, usize)> = Vec::new();
    let mut i: usize = 0;
    assert(scope_view(arities@) =~= seq![]);
    while i < tokens.len()
        invariant
            i <= tokens@.len(),
            tv == tokens_view(tokens@),
            arities_s(tv) == arities_from(tv, i as int, scope_view(arities@)),
        decreases tokens@.len() - i,
    {
        if let Lexeme::Def = tokens[i].0 {
            if i + 1 >= tokens.len() {
                return Err(Error::unexpected_eof());
            }
            match &tokens[i + 1].0 {
                Lexeme::Ident(name, _, arity) => {
                    push_scope(&mut arities, name.clone(), *arity);
                    i = i + 2;
                },
                _ => {
                    return Err(Error::expected(Expected::NoArityIdent).at(tokens[i + 1].1));
                },
            }
        } else {
            i = i + 1;
        }
    }
    Ok(arities)
}

/// Parses a token sequence into a program: first the arity of every global, then each
/// definition's body.
pub fn parse_program(tokens: &Vec<Token>) -> (r: Result<Program, Error>)
    ensures
        match r {
            Ok(p) => program_s(tokens_view(tokens@)) == Ok::<Seq<(Seq<char>, ExprV)>, ErrorV>(p@),
            Err(e) => program_s(tokens_view(tokens@)) == Err::<Seq<(Seq<char>, ExprV)>, ErrorV>(e@),
        },
{
    let ghost tv = tokens_view(tokens@);
    let global_arities = gen_global_arities(tokens)?;
    let ghost g = scope_view(global_arities@);
    let mut prog = Program::new();
    let no_locals: Vec<(String, usize)> = Vec::new();
    assert(scope_view(no_locals@) =~= seq![]);
    let mut i: usize = 0;
    while i < tokens.len()
        invariant
            i <= tokens@.len(),
            tv == tokens_view(tokens@),
            g == scope_view(global_arities@),
            scope_view(no_locals@) == Seq::<(Seq<char>, nat)>::empty(),
            program_s(tv) == defs_from(tv, i as int, g, prog@),
        decreases tokens@.len() - i,
    {
        match &tokens[i].0 {
            Lexeme::Def => {
                if i + 1 >= tokens.len() {
                    return Err(Error::unexpected_eof());
                }
                match &tokens[i + 1].0 {
                    Lexeme::Ident(name, scalar, _) => {
                        if *scalar {
                            return Err(Error::expected(Expected::ArityIdent).at(tokens[i + 1].1));
                        }
                        let (body, p) = read_expr(tokens, i + 2, &global_arities, &no_locals)?;
                        prog.define(name.clone(), body);
                        i = p;
                    },
                    _ => {
                        return Err(Error::expected(Expected::ArityIdent).at(tokens[i + 1].1));
                    },
                }
            },
            _ => {
                return Err(Error::expected(Expected::Def).at(tokens[i].1));
            },
        }
    }
    Ok(prog)
}

} // verus!

verus! {

/// The program that source text spells, or its errors: every lexical error, else the first
/// parse error.
pub open spec fn code_s(chars: Seq<char>) -> Result<Seq<(Seq<char>, ExprV)>, Seq<ErrorV>> {
    match crate::lex::lex_spec(chars) {
        Err(es) => Err(es),
        Ok(ts) => match program_s(ts) {
            Ok(p) => Ok(p),
            Err(e) => Err(seq![e]),
        },
    }
}

/// Lexes and parses source text.
pub fn code(src: &str) -> (r: Result<Program, Vec<Error>>)
    requires
        src@.len() + 8 < usize::MAX,
    ensures
        match r {
            Ok(p) => code_s(src@) == Ok::<Seq<(Seq<char>, ExprV)>, Seq<ErrorV>>(p@),
            Err(es) => code_s(src@) == Err::<Seq<(Seq<char>, ExprV)>, Seq<ErrorV>>(
                crate::lex::errors_view(es@),
            ),
        },
{
    let tokens = crate::lex::lex(src)?;
    match parse_program(&tokens) {
        Ok(p) => Ok(p),
        Err(e) => {
            let ghost ev = e@;
            let mut es: Vec<Error> = Vec::new();
            es.push(e);
            assert(crate::lex::errors_view(es@) =~= seq![ev]);
            Err(es)
        },
    }
}

} // verus!
