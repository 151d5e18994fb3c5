use vstd::prelude::*;

use crate::ast::{define, operand_count, Builtin, DeclV, ExprV, LiteralV};
use crate::error::{ErrorV, Fault};
use crate::eval::{apply_s, eval_s, op_s, zip_names, Defs, Lines, St};
use crate::lex::{char_at, feed, lex_spec, run, start, LexV, LexemeV, ModeV, TokenV};
use crate::parse::{
    all_digits, arities_s, builtin_named, decl_s, defs_from, expr_s, exprs_s, find, later,
    lemma_exprs_len, params_s, params_scope, program_s, resolve, valid_number, Scope,
};
use crate::source::{SrcLoc, SrcRange};
use crate::text::{is_alnum, is_digit};
use crate::value::{cat_s, eq_s, tail_s, EnvV, Number, ValueV};

verus! {

/// Applying a function whose parameter destructures a list binds it exactly when the argument
/// is a list as long as the names, and then runs the body; any other argument fails the
/// application with a destructuring fault.
pub proof fn law_destructuring_application<N: Number>(
    fuel: nat,
    env: EnvV<N>,
    names: Seq<Seq<char>>,
    body: ExprV,
    arg: ValueV<N>,
    rest: Seq<ValueV<N>>,
    p: Defs,
    st: St,
    lines: Lines,
)
    ensures
        ({
            let callee = ValueV::Func(env, DeclV::Destructure(names), body);
            let outcome = apply_s(fuel, callee, seq![arg] + rest, p, st, lines);
            &&& (arg is List && arg->List_0.len() == names.len()) ==> outcome == eval_s(
                fuel,
                body,
                p,
                rest,
                env + zip_names(names, arg->List_0),
                st,
                lines,
            )
            &&& !(arg is List) ==> outcome == (Err::<ValueV<N>, Fault>(Fault::DestructureNonList), st)
            &&& (arg is List && arg->List_0.len() != names.len()) ==> outcome == (
                Err::<ValueV<N>, Fault>(Fault::DestructureLength),
                st,
            )
        }),
{
    let all = seq![arg] + rest;
    assert(all[0] == arg);
    assert(all.skip(1) =~= rest);
}

/// A destructuring closure met with arguments pending binds the first in the same way: only a
/// list as long as its names lets evaluation go on into the body.
pub proof fn law_destructuring_closure<N: Number>(
    fuel: nat,
    env: EnvV<N>,
    names: Seq<Seq<char>>,
    body: ExprV,
    arg: ValueV<N>,
    rest: Seq<ValueV<N>>,
    p: Defs,
    st: St,
    lines: Lines,
)
    requires
        fuel > 0,
    ensures
        ({
            let e = ExprV::Closure(DeclV::Destructure(names), Box::new(body));
            let outcome = eval_s(fuel, e, p, seq![arg] + rest, env, st, lines);
            &&& (arg is List && arg->List_0.len() == names.len()) ==> outcome == eval_s(
                (fuel - 1) as nat,
                body,
                p,
                rest,
                env + zip_names(names, arg->List_0),
                st,
                lines,
            )
            &&& !(arg is List) ==> outcome == (Err::<ValueV<N>, Fault>(Fault::DestructureNonList), st)
            &&& (arg is List && arg->List_0.len() != names.len()) ==> outcome == (
                Err::<ValueV<N>, Fault>(Fault::DestructureLength),
                st,
            )
        }),
{
    let all = seq![arg] + rest;
    assert(all[0] == arg);
    assert(all.skip(1) =~= rest);
}

/// A successful input or print consumes the current universe and hands on the next one.
pub proof fn law_effects_advance_universe<N: Number>(
    op: Builtin,
    vals: Seq<ValueV<N>>,
    st: St,
    lines: Lines,
)
    requires
        op == Builtin::Input || op == Builtin::Print,
    ensures
        op_s(op, vals, st, lines).0 is Ok ==> ({
            let (r, next) = op_s(op, vals, st, lines);
            &&& vals[0] == ValueV::<N>::Universe(st.universe)
            &&& next.universe == st.universe + 1
            &&& op == Builtin::Print ==> r->Ok_0 == ValueV::<N>::Universe(st.universe + 1)
            &&& op == Builtin::Input ==> r->Ok_0 is List && r->Ok_0->List_0.len() == 2
                && r->Ok_0->List_0[0] == ValueV::<N>::Universe(st.universe + 1)
        }),
{
}

/// Lexing depends on the input alone: equal texts give equal tokens, ranges and errors.
pub proof fn law_lexing_is_a_function(a: Seq<char>, b: Seq<char>)
    requires
        a == b,
    ensures
        lex_spec(a) == lex_spec(b),
{
}

/// `__tail` applied `k` times.
pub open spec fn tails<N>(v: ValueV<N>, k: nat) -> ValueV<N>
    decreases k,
{
    if k == 0 {
        v
    } else {
        tail_s(tails(v, (k - 1) as nat))
    }
}

proof fn lemma_tails<N>(s: Seq<ValueV<N>>, k: nat)
    ensures
        tails(ValueV::List(s), k) == ValueV::List(
            if k <= s.len() {
                s.skip(k as int)
            } else {
                Seq::<ValueV<N>>::empty()
            },
        ),
    decreases k,
{
    if k == 0 {
        assert(s.skip(0) =~= s);
    } else {
        lemma_tails(s, (k - 1) as nat);
        if k <= s.len() {
            assert(s.skip(k - 1).skip(1) =~= s.skip(k as int));
        } else if k - 1 == s.len() {
            assert(s.skip(k - 1) =~= Seq::<ValueV<N>>::empty());
        }
    }
}

/// Taking the tail of a list more times than it has elements leaves the empty list.
pub proof fn law_tail_past_the_end<N>(s: Seq<ValueV<N>>, k: nat)
    requires
        k >= s.len(),
    ensures
        tails(ValueV::List(s), k) == ValueV::List(Seq::<ValueV<N>>::empty()),
{
    lemma_tails(s, k);
    assert(s.skip(s.len() as int) =~= Seq::<ValueV<N>>::empty());
}

/// A value without functions or universes whose numbers each equal themselves.
pub open spec fn fully_defined<N: Number>(v: ValueV<N>) -> bool
    decreases v,
{
    match v {
        ValueV::Func(..) | ValueV::Universe(_) => false,
        ValueV::Num(n) => n.same(n),
        ValueV::List(s) => forall|i: int| 0 <= i < s.len() ==> fully_defined(#[trigger] s[i]),
        _ => true,
    }
}

/// Equality is reflexive on fully defined values.
pub proof fn law_eq_reflexive<N: Number>(v: ValueV<N>)
    requires
        fully_defined(v),
    ensures
        eq_s(v, v),
    decreases v,
{
    if let ValueV::List(s) = v {
        assert forall|i: int| 0 <= i < s.len() implies eq_s(#[trigger] s[i], s[i]) by {
            law_eq_reflexive(s[i]);
        }
    }
}

/// Equality is symmetric on every pair of values, where the numbers' own equality is.
pub proof fn law_eq_symmetric<N: Number>(a: ValueV<N>, b: ValueV<N>)
    requires
        forall|x: N, y: N| #[trigger] x.same(y) == y.same(x),
    ensures
        eq_s(a, b) == eq_s(b, a),
    decreases a,
{
    if let (ValueV::List(x), ValueV::List(y)) = (a, b) {
        if x.len() == y.len() {
            assert forall|i: int| 0 <= i < x.len() implies eq_s(#[trigger] x[i], y[i]) == eq_s(y[i], x[i]) by {
                law_eq_symmetric(x[i], y[i]);
            }
        }
    }
}

/// Joining the empty list with a list, on either side, gives that list.
pub proof fn law_cat_empty<N>(xs: Seq<ValueV<N>>)
    ensures
        cat_s(ValueV::List(Seq::<ValueV<N>>::empty()), ValueV::List(xs)) == ValueV::List(xs),
        cat_s(ValueV::List(xs), ValueV::List(Seq::<ValueV<N>>::empty())) == ValueV::List(xs),
{
    assert(Seq::<ValueV<N>>::empty() + xs =~= xs);
    assert(xs + Seq::<ValueV<N>>::empty() =~= xs);
}

} // verus!

verus! {

proof fn lemma_number_run(t: Seq<char>, i: nat, st: LexV)
    requires
        1 <= i <= t.len(),
        forall|j: int| 0 <= j < t.len() ==> is_alnum(#[trigger] t[j]),
        st.mode == ModeV::Num(t.take(i as int)),
        !st.done,
    ensures
        ({
            let fin = run(t, i, st);
            &&& fin.tokens == st.tokens.push(
                TokenV {
                    lexeme: LexemeV::Num(t),
                    range: SrcRange { loc: st.sloc, len: (st.len + (t.len() - i)) as usize },
                },
            )
            &&& fin.errors == st.errors
            &&& fin.mode is Default
        }),
    decreases t.len() - i,
{
    if i == t.len() {
        assert(t.take(i as int) =~= t);
        assert(char_at(t, i as int) == '\0');
        assert(!is_alnum('\0'));
        let st_e = crate::lex::emit(st, LexemeV::Num(t));
        assert(feed(st, '\0') == feed(st_e, '\0'));
        let st2 = feed(st, '\0');
        assert(st2.done);
        assert(run(t, (i + 1) as nat, st2) == st2);
    } else {
        let c = t[i as int];
        assert(char_at(t, i as int) == c);
        assert(t.take(i as int).push(c) =~= t.take(i + 1 as int));
        let st2 = feed(st, c);
        lemma_number_run(t, i + 1, st2);
    }
}

/// The text of a number literal lexes back to one number token of that same text, which
/// parses to a literal of that text, so to the same number.
pub proof fn law_number_literal_relexes(t: Seq<char>, g: Scope, l: Scope)
    requires
        valid_number(t),
    ensures
        lex_spec(t) == Ok::<Seq<TokenV>, Seq<ErrorV>>(
            seq![TokenV { lexeme: LexemeV::Num(t), range: SrcRange { loc: SrcLoc { line: 1, col: 1 }, len: t.len() as usize } }],
        ),
        expr_s(
            seq![TokenV { lexeme: LexemeV::Num(t), range: SrcRange { loc: SrcLoc { line: 1, col: 1 }, len: t.len() as usize } }],
            0,
            g,
            l,
        ) == Ok::<(ExprV, int), ErrorV>((ExprV::Literal(LiteralV::Num(t)), 1)),
{
    assert(t.len() > 0 && is_digit(t[0]) && forall|j: int| 0 <= j < t.len() ==> is_alnum(#[trigger] t[j])) by {
        if !(t.len() > 0 && all_digits(t)) {
            let k = choose|k: int|
                0 < k < t.len() - 1 && (t[k] == 'e' || t[k] == 'E') && all_digits(t.take(k))
                    && all_digits(t.skip(k + 1));
            assert(t.take(k)[0] == t[0]);
            assert forall|j: int| 0 <= j < t.len() implies is_alnum(#[trigger] t[j]) by {
                if j < k {
                    assert(t.take(k)[j] == t[j]);
                } else if j > k {
                    assert(t.skip(k + 1)[j - k - 1] == t[j]);
                }
            }
        }
    }
    assert(char_at(t, 0) == t[0]);
    let st1 = feed(start(), t[0]);
    assert(seq![t[0]] =~= t.take(1));
    assert(st1.mode == ModeV::Num(t.take(1)));
    lemma_number_run(t, 1, st1);
    let fin = run(t, 0, start());
    assert(fin == run(t, 1, st1));
    assert(fin.errors =~= Seq::<ErrorV>::empty());
}

} // verus!

verus! {

/// Names in scope as the tree shows them: a name bound by a single declaration has no arity
/// in the tree; a destructured name has arity zero.
pub type TreeScope = Seq<(Seq<char>, Option<nat>)>;

pub open spec fn find_in(scope: TreeScope, name: Seq<char>) -> Option<Option<nat>>
    decreases scope.len(),
{
    if scope.len() == 0 {
        None
    } else if scope.last().0 == name {
        Some(scope.last().1)
    } else {
        find_in(scope.drop_last(), name)
    }
}

pub open spec fn params_tree_scope(ns: Seq<Seq<char>>) -> TreeScope {
    ns.map_values(|n: Seq<char>| (n, Some(0nat)))
}

pub open spec fn bind_tree(d: DeclV, l: TreeScope) -> TreeScope {
    match d {
        DeclV::Single(n) => l.push((n, None)),
        DeclV::Destructure(ns) => l + params_tree_scope(ns),
    }
}

/// Whether a call of `name` with `count` arguments matches its arity in scope: locals first,
/// then globals, then built-ins. A scalar reference has no arguments; a name bound by a single
/// declaration may take any count.
pub open spec fn call_fits(g: Scope, l: TreeScope, name: Seq<char>, count: nat) -> bool {
    match find_in(l, name) {
        Some(None) => true,
        Some(Some(a)) => count == 0 || count == a,
        None => match resolve(g, Seq::empty(), name) {
            Some(a) => count == 0 || count == a,
            None => false,
        },
    }
}

/// Every call in `e` has as many arguments as its callee's arity where it stands, or none for
/// a scalar reference; every built-in has its count of operands.
pub open spec fn calls_fit(e: ExprV, g: Scope, l: TreeScope) -> bool
    decreases e,
{
    match e {
        ExprV::Literal(_) => true,
        ExprV::If(a, b, c) => calls_fit(*a, g, l) && calls_fit(*b, g, l) && calls_fit(*c, g, l),
        ExprV::Let(d, v, b) => calls_fit(*v, g, l) && calls_fit(*b, g, bind_tree(d, l)),
        ExprV::Closure(d, b) => calls_fit(*b, g, bind_tree(d, l)),
        ExprV::Builtin(op, args) => args.len() == operand_count(op) && forall|i: int|
            0 <= i < args.len() ==> calls_fit(#[trigger] args[i], g, l),
        ExprV::Call(n, args) => call_fits(g, l, n, args.len()) && forall|i: int|
            0 <= i < args.len() ==> calls_fit(#[trigger] args[i], g, l),
    }
}

/// The parser's scope and the tree's scope name the same entries, with the same arity where
/// the tree knows it.
pub open spec fn agree(l: Scope, t: TreeScope) -> bool {
    &&& l.len() == t.len()
    &&& forall|i: int| 0 <= i < l.len() ==> #[trigger] l[i].0 == t[i].0
    &&& forall|i: int| 0 <= i < l.len() && #[trigger] t[i].1 is Some ==> t[i].1 == Some(l[i].1)
}

proof fn lemma_agree_find(l: Scope, t: TreeScope, name: Seq<char>)
    requires
        agree(l, t),
    ensures
        find(l, name) is None <==> find_in(t, name) is None,
        find_in(t, name) matches Some(Some(a)) ==> find(l, name) == Some(a),
    decreases l.len(),
{
    if l.len() > 0 {
        assert(l.last().0 == t.last().0);
        if l.last().0 != name {
            let (l2, t2) = (l.drop_last(), t.drop_last());
            assert forall|i: int| 0 <= i < l2.len() implies #[trigger] l2[i].0 == t2[i].0 by {
                assert(l2[i] == l[i] && t2[i] == t[i]);
            }
            assert forall|i: int| 0 <= i < l2.len() && #[trigger] t2[i].1 is Some implies t2[i].1 == Some(l2[i].1) by {
                assert(l2[i] == l[i] && t2[i] == t[i]);
            }
            lemma_agree_find(l2, t2, name);
        }
    }
}

proof fn lemma_agree_push(l: Scope, t: TreeScope, n: Seq<char>, a: nat, o: Option<nat>)
    requires
        agree(l, t),
        o matches Some(x) ==> x == a,
    ensures
        agree(l.push((n, a)), t.push((n, o))),
{
    let (l2, t2) = (l.push((n, a)), t.push((n, o)));
    assert forall|i: int| 0 <= i < l2.len() implies #[trigger] l2[i].0 == t2[i].0 by {
        if i < l.len() {
            assert(l2[i] == l[i] && t2[i] == t[i]);
        }
    }
    assert forall|i: int| 0 <= i < l2.len() && #[trigger] t2[i].1 is Some implies t2[i].1 == Some(l2[i].1) by {
        if i < l.len() {
            assert(l2[i] == l[i] && t2[i] == t[i]);
        }
    }
}

proof fn lemma_agree_params(l: Scope, t: TreeScope, ps: Seq<Seq<char>>)
    requires
        agree(l, t),
    ensures
        agree(l + params_scope(ps), t + params_tree_scope(ps)),
{
    let (l2, t2) = (l + params_scope(ps), t + params_tree_scope(ps));
    assert forall|i: int| 0 <= i < l2.len() implies #[trigger] l2[i].0 == t2[i].0 by {
        if i < l.len() {
            assert(l2[i] == l[i] && t2[i] == t[i]);
        }
    }
    assert forall|i: int| 0 <= i < l2.len() && #[trigger] t2[i].1 is Some implies t2[i].1 == Some(l2[i].1) by {
        if i < l.len() {
            assert(l2[i] == l[i] && t2[i] == t[i]);
        }
    }
}

proof fn lemma_resolve_fits(g: Scope, l: Scope, t: TreeScope, name: Seq<char>, count: nat)
    requires
        agree(l, t),
        resolve(g, l, name) == Some(count) || (resolve(g, l, name) is Some && count == 0),
    ensures
        call_fits(g, t, name, count),
{
    lemma_agree_find(l, t, name);
}

proof fn lemma_exprs_fit(ts: Seq<TokenV>, pos: int, n: nat, g: Scope, l: Scope, t: TreeScope)
    requires
        agree(l, t),
    ensures
        exprs_s(ts, pos, n, g, l) matches Ok((es, _)) ==> es.len() == n && forall|i: int|
            0 <= i < es.len() ==> calls_fit(#[trigger] es[i], g, t),
    decreases ts.len() - pos, n + 1,
{
    lemma_exprs_len(ts, pos, n, g, l);
    if n > 0 && 0 <= pos < ts.len() {
        lemma_expr_fits(ts, pos, g, l, t);
        if let Ok((e, p)) = expr_s(ts, pos, g, l) {
            if later(ts, pos, p) {
                lemma_exprs_fit(ts, p, (n - 1) as nat, g, l, t);
                if let Ok((rest, q)) = exprs_s(ts, p, (n - 1) as nat, g, l) {
                    let es = seq![e] + rest;
                    assert forall|i: int| 0 <= i < es.len() implies calls_fit(#[trigger] es[i], g, t) by {
                        if i > 0 {
                            assert(es[i] == rest[i - 1]);
                        }
                    }
                }
            }
        }
    }
}

proof fn lemma_expr_fits(ts: Seq<TokenV>, pos: int, g: Scope, l: Scope, t: TreeScope)
    requires
        agree(l, t),
    ensures
        expr_s(ts, pos, g, l) matches Ok((e, _)) ==> calls_fit(e, g, t),
    decreases ts.len() - pos, 0nat,
{
    if 0 <= pos < ts.len() {
        match ts[pos].lexeme {
            LexemeV::Ident(name, scalar, arity) => {
                if pos + 1 < ts.len() && ts[pos + 1].lexeme is Arrow {
                    lemma_agree_push(l, t, name, arity, None);
                    lemma_expr_fits(ts, pos + 2, g, l.push((name, arity)), t.push((name, None)));
                } else if let Some(a) = resolve(g, l, name) {
                    if arity == 0 && !scalar {
                        match builtin_named(name) {
                            Some(op) => lemma_exprs_fit(ts, pos + 1, operand_count(op), g, l, t),
                            None => {
                                lemma_exprs_fit(ts, pos + 1, a, g, l, t);
                                lemma_resolve_fits(g, l, t, name, a);
                            },
                        }
                    } else {
                        lemma_resolve_fits(g, l, t, name, 0);
                    }
                }
            },
            LexemeV::Pipe => {
                if let Ok((ps, p)) = params_s(ts, pos) {
                    if later(ts, pos, p) && p < ts.len() && ts[p].lexeme is Arrow {
                        lemma_agree_params(l, t, ps);
                        lemma_expr_fits(ts, p + 1, g, l + params_scope(ps), t + params_tree_scope(ps));
                    }
                }
            },
            LexemeV::If => {
                lemma_exprs_fit(ts, pos + 1, 3, g, l, t);
            },
            LexemeV::Let => {
                if let Ok((d, added, after_decl)) = decl_s(ts, pos + 1) {
                    if later(ts, pos, after_decl) {
                        lemma_expr_fits(ts, after_decl, g, l, t);
                        if let Ok((v, after_value)) = expr_s(ts, after_decl, g, l) {
                            if later(ts, pos, after_value) {
                                match ts[pos + 1].lexeme {
                                    LexemeV::Ident(n, _, a) => {
                                        assert(l + added =~= l.push((n, a)));
                                        lemma_agree_push(l, t, n, a, None);
                                        lemma_expr_fits(ts, after_value, g, l + added, t.push((n, None)));
                                    },
                                    _ => {
                                        let ps = d->Destructure_0;
                                        lemma_agree_params(l, t, ps);
                                        lemma_expr_fits(ts, after_value, g, l + added, t + params_tree_scope(ps));
                                    },
                                }
                            }
                        }
                    }
                }
            },
            _ => {},
        }
    }
}

/// The definitions all satisfy `calls_fit` with the global arities and no locals.
pub open spec fn defs_fit(defs: Seq<(Seq<char>, ExprV)>, g: Scope) -> bool {
    forall|i: int| 0 <= i < defs.len() ==> calls_fit(#[trigger] defs[i].1, g, TreeScope::empty())
}

proof fn lemma_defs_fit(ts: Seq<TokenV>, pos: int, g: Scope, defs: Seq<(Seq<char>, ExprV)>)
    requires
        defs_fit(defs, g),
    ensures
        defs_from(ts, pos, g, defs) matches Ok(out) ==> defs_fit(out, g),
    decreases ts.len() - pos,
{
    if 0 <= pos < ts.len() && ts[pos].lexeme is Def && pos + 1 < ts.len() {
        if let LexemeV::Ident(name, scalar, _) = ts[pos + 1].lexeme {
            if !scalar {
                lemma_expr_fits(ts, pos + 2, g, seq![], TreeScope::empty());
                if let Ok((body, p)) = expr_s(ts, pos + 2, g, seq![]) {
                    if later(ts, pos, p) {
                        let next = define(defs, name, body);
                        crate::ast::lemma_index_of(defs, name);
                        assert forall|i: int| 0 <= i < next.len() implies calls_fit(
                            #[trigger] next[i].1,
                            g,
                            TreeScope::empty(),
                        ) by {
                            if i < defs.len() && next[i] != (name, body) {
                                assert(next[i] == defs[i]);
                            }
                        }
                        lemma_defs_fit(ts, p, g, next);
                    }
                }
            }
        }
    }
}

/// In a program that parses, every call has as many arguments as the arity of the name it calls
/// where it stands (globals as their definitions mark them), or none for a scalar reference.
pub proof fn law_calls_match_arity(ts: Seq<TokenV>)
    ensures
        program_s(ts) matches Ok(defs) ==> defs_fit(defs, arities_s(ts)->Ok_0),
{
    if let Ok(g) = arities_s(ts) {
        lemma_defs_fit(ts, 0, g, seq![]);
    }
}

} // verus!
