use vstd::prelude::*;

use crate::ast::{
    body_of, exprs_view, operand_count, Builtin, Decl, DeclV, Expr, ExprV, Literal, LiteralV, Program,
};
use crate::error::{bare, Error, ErrorKindV, ErrorV, Fault};
use crate::lex::errors_view;
use crate::parse::code_s;
use crate::value::{
    cat_s, env_view, eq_s, head_s, tail_s, text_s, values_view, wrap_s, EnvV, Number, Value,
    ValueV,
};

verus! {

/// What evaluation changes besides its result: the current universe and the lines printed.
pub struct St {
    pub universe: nat,
    pub out: Seq<Seq<char>>,
}

/// For each universe consumed by an input, the line that was read then.
pub type Lines = Map<nat, Seq<char>>;

pub type Defs = Seq<(Seq<char>, ExprV)>;

pub type Outcome<N> = (Result<ValueV<N>, Fault>, St);

/// The value bound last to `name`.
pub open spec fn lookup_s<N>(env: EnvV<N>, name: Seq<char>) -> Option<ValueV<N>>
    decreases env.len(),
{
    if env.len() == 0 {
        None
    } else if env.last().0 == name {
        Some(env.last().1)
    } else {
        lookup_s(env.drop_last(), name)
    }
}

pub open spec fn zip_names<N>(ns: Seq<Seq<char>>, vs: Seq<ValueV<N>>) -> EnvV<N> {
    Seq::new(ns.len(), |i: int| (ns[i], vs[i]))
}

/// The bindings after `d` is bound to `v`: a single name takes the value; a destructuring list
/// takes the elements of a list exactly as long as itself.
pub open spec fn bind_s<N>(env: EnvV<N>, d: DeclV, v: ValueV<N>) -> Result<EnvV<N>, Fault> {
    match d {
        DeclV::Single(n) => Ok(env.push((n, v))),
        DeclV::Destructure(ns) => match v {
            ValueV::List(s) => if s.len() == ns.len() {
                Ok(env + zip_names(ns, s))
            } else {
                Err(Fault::DestructureLength)
            },
            _ => Err(Fault::DestructureNonList),
        },
    }
}

pub open spec fn char_value_at<N>(s: Seq<char>, i: int) -> ValueV<N> {
    ValueV::Char(s[i])
}

/// Each character as a value.
pub open spec fn char_values<N>(s: Seq<char>) -> Seq<ValueV<N>> {
    Seq::new(s.len(), |i: int| char_value_at::<N>(s, i))
}

pub open spec fn chars_list<N>(s: Seq<char>) -> ValueV<N> {
    ValueV::List(char_values(s))
}

/// The value of a literal; a string of one character is that character.
pub open spec fn literal_s<N: Number>(l: LiteralV) -> ValueV<N> {
    match l {
        LiteralV::Num(t) => ValueV::Num(N::literal(t)),
        LiteralV::Str(s) => if s.len() == 1 {
            ValueV::Char(s[0])
        } else {
            chars_list(s)
        },
        LiteralV::Bool(b) => ValueV::Bool(b),
        LiteralV::Null => ValueV::Null,
    }
}

pub open spec fn arith_s<N: Number>(op: Builtin, a: ValueV<N>, b: ValueV<N>) -> Result<ValueV<N>, Fault> {
    match (a, b) {
        (ValueV::Num(x), ValueV::Num(y)) => Ok(
            match op {
                Builtin::Add => ValueV::Num(x.sum(y)),
                Builtin::Sub => ValueV::Num(x.difference(y)),
                Builtin::Mul => ValueV::Num(x.product(y)),
                Builtin::Div => ValueV::Num(x.quotient(y)),
                Builtin::Rem => ValueV::Num(x.remainder(y)),
                Builtin::Less => ValueV::Bool(x.below(y)),
                _ => ValueV::Bool(x.at_most(y)),
            },
        ),
        _ => Err(Fault::TypeMismatch),
    }
}

/// Whether `v` is the universe that may be consumed now.
pub open spec fn current<N>(v: ValueV<N>, st: St) -> bool {
    v is Universe && v->Universe_0 == st.universe && st.universe < usize::MAX
}

/// A built-in operation on its evaluated operands.
pub open spec fn op_s<N: Number>(op: Builtin, vals: Seq<ValueV<N>>, st: St, lines: Lines) -> Outcome<N> {
    if vals.len() != operand_count(op) {
        (Err(Fault::OperandCount), st)
    } else {
        let a = vals[0];
        let b = if vals.len() > 1 {
            vals[1]
        } else {
            ValueV::Null
        };
        match op {
            Builtin::Head => (Ok(head_s(a)), st),
            Builtin::Tail => (Ok(tail_s(a)), st),
            Builtin::Wrap => (Ok(wrap_s(a)), st),
            Builtin::Cat => (Ok(cat_s(a, b)), st),
            Builtin::Eq => (Ok(ValueV::Bool(eq_s(a, b))), st),
            Builtin::Floor => match a {
                ValueV::Num(x) => (Ok(ValueV::Num(x.floor_of())), st),
                _ => (Err(Fault::TypeMismatch), st),
            },
            Builtin::Ceil => match a {
                ValueV::Num(x) => (Ok(ValueV::Num(x.ceil_of())), st),
                _ => (Err(Fault::TypeMismatch), st),
            },
            Builtin::Input => if current(a, st) {
                (
                    Ok(ValueV::List(seq![ValueV::Universe(st.universe + 1), chars_list(lines[st.universe])])),
                    St { universe: st.universe + 1, ..st },
                )
            } else {
                (Err(Fault::InvalidUniverse), st)
            },
            Builtin::Print => if current(a, st) {
                (
                    Ok(ValueV::Universe(st.universe + 1)),
                    St { universe: st.universe + 1, out: st.out.push(text_s(b)) },
                )
            } else {
                (Err(Fault::InvalidUniverse), st)
            },
            Builtin::Debug => (Ok(a), st),
            _ => (arith_s(op, a, b), st),
        }
    }
}

/// Evaluates `e` under the bindings `env`, with `args` still to be applied to its value.
/// A closure takes the first of them; a call passes them on to its callee.
pub open spec fn eval_s<N: Number>(
    fuel: nat,
    e: ExprV,
    p: Defs,
    args: Seq<ValueV<N>>,
    env: EnvV<N>,
    st: St,
    lines: Lines,
) -> Outcome<N>
    decreases fuel, 0nat,
{
    if fuel == 0 {
        (Err(Fault::DepthExceeded), st)
    } else {
        let f = (fuel - 1) as nat;
        match e {
            ExprV::Literal(l) => (Ok(literal_s(l)), st),
            ExprV::If(c, t, el) => {
                let (rc, s1) = eval_s(f, *c, p, args, env, st, lines);
                match rc {
                    Err(x) => (Err(x), s1),
                    Ok(v) => if v == ValueV::<N>::Bool(true) {
                        eval_s(f, *t, p, args, env, s1, lines)
                    } else {
                        eval_s(f, *el, p, args, env, s1, lines)
                    },
                }
            },
            ExprV::Let(d, v, b) => {
                let (rv, s1) = eval_s(f, *v, p, args, env, st, lines);
                match rv {
                    Err(x) => (Err(x), s1),
                    Ok(x) => match bind_s(env, d, x) {
                        Err(fl) => (Err(fl), s1),
                        Ok(env2) => eval_s(f, *b, p, args, env2, s1, lines),
                    },
                }
            },
            ExprV::Closure(d, b) => if args.len() == 0 {
                (Ok(ValueV::Func(env, d, *b)), st)
            } else {
                match bind_s(env, d, args[0]) {
                    Err(fl) => (Err(fl), st),
                    Ok(env2) => eval_s(f, *b, p, args.skip(1), env2, st, lines),
                }
            },
            ExprV::Call(name, es) => {
                let (ra, s1) = evals_s(f, es, p, args, env, st, lines);
                match ra {
                    Err(x) => (Err(x), s1),
                    Ok(vals) => {
                        let all = vals + args;
                        match lookup_s(env, name) {
                            Some(callee) => apply_s(f, callee, all, p, s1, lines),
                            None => match body_of(p, name) {
                                Some(body) => eval_s(f, body, p, all, seq![], s1, lines),
                                None => (Err(Fault::UnknownItem), s1),
                            },
                        }
                    },
                }
            },
            ExprV::Builtin(op, es) => {
                let (ra, s1) = evals_s(f, es, p, args, env, st, lines);
                match ra {
                    Err(x) => (Err(x), s1),
                    Ok(vals) => op_s(op, vals, s1, lines),
                }
            },
        }
    }
}

/// Evaluates expressions left to right, each with `args` still to be applied.
pub open spec fn evals_s<N: Number>(
    fuel: nat,
    es: Seq<ExprV>,
    p: Defs,
    args: Seq<ValueV<N>>,
    env: EnvV<N>,
    st: St,
    lines: Lines,
) -> (Result<Seq<ValueV<N>>, Fault>, St)
    decreases fuel, es.len() + 1,
{
    if es.len() == 0 {
        (Ok(seq![]), st)
    } else {
        let (r0, s1) = eval_s(fuel, es[0], p, args, env, st, lines);
        match r0 {
            Err(x) => (Err(x), s1),
            Ok(v) => {
                let (rs, s2) = evals_s(fuel, es.skip(1), p, args, env, s1, lines);
                match rs {
                    Err(x) => (Err(x), s2),
                    Ok(vs) => (Ok(seq![v] + vs), s2),
                }
            },
        }
    }
}

/// Applies `callee` to `args` one at a time; with none left, the callee itself.
pub open spec fn apply_s<N: Number>(
    fuel: nat,
    callee: ValueV<N>,
    args: Seq<ValueV<N>>,
    p: Defs,
    st: St,
    lines: Lines,
) -> Outcome<N>
    decreases fuel, 1nat,
{
    if args.len() == 0 {
        (Ok(callee), st)
    } else {
        match callee {
            ValueV::Func(env, d, body) => match bind_s(env, d, args[0]) {
                Err(fl) => (Err(fl), st),
                Ok(env2) => eval_s(fuel, body, p, args.skip(1), env2, st, lines),
            },
            _ => (Err(Fault::TooManyArguments), st),
        }
    }
}

/// Runs `main` on the current universe.
pub open spec fn run_s<N: Number>(fuel: nat, p: Defs, st: St, lines: Lines) -> Outcome<N> {
    match body_of(p, "main"@) {
        None => (Err(Fault::NoMain), st),
        Some(body) => eval_s(fuel, body, p, seq![ValueV::Universe(st.universe)], seq![], st, lines),
    }
}

} // verus!

verus! {

/// Where a running program reads its input lines and writes its output.
pub trait Console {
    /// The next line of input, with its line break if it had one.
    fn read_line(&mut self) -> String;

    /// Writes one line of program output.
    fn write_line(&mut self, line: String);

    /// Writes one line of diagnostics.
    fn debug_line(&mut self, line: String);
}

/// A console, the current universe, and a record of what passed through the console.
pub struct Machine<C> {
    pub console: C,
    pub universe: usize,
    /// Every line printed so far.
    pub printed: Ghost<Seq<Seq<char>>>,
    /// Every line read so far, by the universe its input consumed.
    pub read: Ghost<Lines>,
}

impl<C> Machine<C> {
    pub open spec fn state(&self) -> St {
        St { universe: self.universe as nat, out: self.printed@ }
    }

    /// Only universes already consumed have lines.
    pub open spec fn wf(&self) -> bool {
        forall|k: nat| #[trigger] self.read@.contains_key(k) ==> k < self.universe
    }

    pub fn new(console: C) -> (r: Self)
        ensures
            r.wf(),
            r.universe == 0,
            r.printed@ == Seq::<Seq<char>>::empty(),
            r.read@ == Map::<nat, Seq<char>>::empty(),
    {
        Machine { console, universe: 0, printed: Ghost(Seq::empty()), read: Ghost(Map::empty()) }
    }
}

proof fn lemma_submap_at(a: Lines, b: Lines, k: nat)
    requires
        a.submap_of(b),
        a.dom().contains(k),
    ensures
        b.dom().contains(k),
        b[k] == a[k],
{
    assert(a.dom().contains(k) ==> b.dom().contains(k) && a[k] == b[k]);
}

proof fn lemma_submap_refl(a: Lines)
    ensures
        a.submap_of(a),
{
    assert forall|k: nat| #[trigger] a.dom().contains(k) implies a.dom().contains(k) && a[k] == a[k] by {}
}

proof fn lemma_submap_trans(a: Lines, b: Lines, c: Lines)
    requires
        a.submap_of(b),
        b.submap_of(c),
    ensures
        a.submap_of(c),
{
    assert forall|k: nat| #[trigger] a.dom().contains(k) implies c.dom().contains(k) && a[k] == c[k] by {
        lemma_submap_at(a, b, k);
        lemma_submap_at(b, c, k);
    }
}

pub open spec fn res_v<'a, N>(r: Result<Value<'a, N>, Fault>) -> Result<ValueV<N>, Fault> {
    match r {
        Ok(v) => Ok(v@),
        Err(f) => Err(f),
    }
}

pub open spec fn res_vs<'a, N>(r: Result<Vec<Value<'a, N>>, Fault>) -> Result<Seq<ValueV<N>>, Fault> {
    match r {
        Ok(v) => Ok(values_view(v@)),
        Err(f) => Err(f),
    }
}

fn lookup<'a, N: Number>(env: &Vec<(String, Value<'a, N>)>, name: &String) -> (r: Option<Value<'a, N>>)
    ensures
        match r {
            Some(v) => lookup_s(env_view(env@), name@) == Some(v@),
            None => lookup_s(env_view(env@), name@) is None,
        },
{
    let ghost ev = env_view(env@);
    let mut i = env.len();
    assert(ev.take(i as int) =~= ev);
    while i > 0
        invariant
            i <= env@.len(),
            ev == env_view(env@),
            lookup_s(ev, name@) == lookup_s(ev.take(i as int), name@),
        decreases i,
    {
        let ghost t = ev.take(i as int);
        assert(t.last() == ev[i - 1]);
        if env[i - 1].0 == *name {
            return Some(crate::value::copy_value(&env[i - 1].1));
        }
        assert(t.drop_last() =~= ev.take(i - 1));
        i = i - 1;
    }
    None
}

fn bind<'a, N: Number>(env: &Vec<(String, Value<'a, N>)>, d: &Decl, v: Value<'a, N>) -> (r: Result<
    Vec<(String, Value<'a, N>)>,
    Fault,
>)
    ensures
        match r {
            Ok(e2) => bind_s(env_view(env@), d@, v@) == Ok::<EnvV<N>, Fault>(env_view(e2@)),
            Err(f) => bind_s(env_view(env@), d@, v@) == Err::<EnvV<N>, Fault>(f),
        },
{
    let mut out = crate::value::copy_env(env);
    let ghost base = env_view(env@);
    match d {
        Decl::Single(name) => {
            let ghost before = out@;
            let ghost vv = v@;
            out.push((name.clone(), v));
            assert(env_view(out@) =~= base.push((name@, vv)));
            Ok(out)
        },
        Decl::Destructure(names) => {
            let ghost ns = crate::ast::names_view(names@);
            match v {
                Value::List(items) => {
                    proof {
                        crate::value::lemma_list_view(items);
                    }
                    let ghost s = values_view(items@);
                    if items.len() != names.len() {
                        return Err(Fault::DestructureLength);
                    }
                    let mut i: usize = 0;
                    while i < names.len()
                        invariant
                            i <= names@.len(),
                            names@.len() == items@.len(),
                            ns == crate::ast::names_view(names@),
                            s == values_view(items@),
                            env_view(out@) =~= base + zip_names(ns, s).take(i as int),
                        decreases names@.len() - i,
                    {
                        let x = (names[i].clone(), crate::value::copy_value(&items[i]));
                        let ghost before = out@;
                        out.push(x);
                        assert(env_view(out@) =~= env_view(before).push((x.0@, x.1@)));
                        assert(zip_names(ns, s).take(i + 1) =~= zip_names(ns, s).take(i as int).push(
                            (x.0@, x.1@),
                        ));
                        i = i + 1;
                    }
                    assert(zip_names(ns, s).take(names@.len() as int) =~= zip_names(ns, s));
                    Ok(out)
                },
                _ => Err(Fault::DestructureNonList),
            }
        },
    }
}

fn chars_value<'a, N: Number>(cs: &Vec<char>) -> (r: Vec<Value<'a, N>>)
    ensures
        ValueV::<N>::List(values_view(r@)) == chars_list::<N>(cs@),
{
    let mut r: Vec<Value<'a, N>> = Vec::new();
    let mut i: usize = 0;
    assert(values_view(r@) =~= char_values::<N>(cs@.take(0)));
    while i < cs.len()
        invariant
            i <= cs@.len(),
            values_view(r@) =~= char_values::<N>(cs@.take(i as int)),
        decreases cs@.len() - i,
    {
        let ghost before = r@;
        let c = cs[i];
        let x: Value<'a, N> = Value::Char(c);
        proof {
            crate::value::lemma_scalar_views::<N>(c, true, arbitrary(), 0);
        }
        assert(x@ == char_value_at::<N>(cs@, i as int));
        crate::value::push_value(&mut r, x);
        assert forall|k: int| 0 <= k <= i implies #[trigger] char_value_at::<N>(cs@.take(i + 1), k)
            == char_value_at::<N>(cs@, k) by {}
        assert(char_values::<N>(cs@.take(i + 1)) =~= char_values::<N>(cs@.take(i as int)).push(
            char_value_at::<N>(cs@, i as int),
        ));
        i = i + 1;
    }
    assert(cs@.take(cs@.len() as int) =~= cs@);
    r
}

fn literal<'a, N: Number>(l: &Literal) -> (r: Value<'a, N>)
    ensures
        r@ == literal_s::<N>(l@),
{
    match l {
        Literal::Num(t) => {
            let n = N::from_literal(t.as_str());
            proof {
                crate::value::lemma_scalar_views::<N>(' ', true, n, 0);
            }
            Value::Num(n)
        },
        Literal::Str(s) => {
            let cs = crate::text::chars_of(s.as_str());
            if cs.len() == 1 {
                proof {
                    crate::value::lemma_scalar_views::<N>(cs@[0], true, arbitrary(), 0);
                }
                Value::Char(cs[0])
            } else {
                let items = chars_value(&cs);
                proof {
                    crate::value::lemma_list_view(items);
                }
                Value::List(items)
            }
        },
        Literal::Bool(b) => {
            proof {
                crate::value::lemma_scalar_views::<N>(' ', *b, arbitrary(), 0);
            }
            Value::Bool(*b)
        },
        Literal::Null => {
            proof {
                crate::value::lemma_scalar_views::<N>(' ', true, arbitrary(), 0);
            }
            Value::Null
        },
    }
}

fn arith<'a, N: Number>(op: Builtin, a: Value<'a, N>, b: Value<'a, N>) -> (r: Result<Value<'a, N>, Fault>)
    ensures
        res_v(r) == arith_s(op, a@, b@),
{
    match (a, b) {
        (Value::Num(x), Value::Num(y)) => Ok(
            match op {
                Builtin::Add => Value::Num(x.add(y)),
                Builtin::Sub => Value::Num(x.sub(y)),
                Builtin::Mul => Value::Num(x.mul(y)),
                Builtin::Div => Value::Num(x.div(y)),
                Builtin::Rem => Value::Num(x.rem(y)),
                Builtin::Less => Value::Bool(x.less(y)),
                _ => Value::Bool(x.less_eq(y)),
            },
        ),
        _ => Err(Fault::TypeMismatch),
    }
}

} // verus!

verus! {

fn apply_op<'a, N: Number, C: Console>(
    op: Builtin,
    vals: Vec<Value<'a, N>>,
    m: &mut Machine<C>,
) -> (r: Result<Value<'a, N>, Fault>)
    requires
        old(m).wf(),
    ensures
        final(m).wf(),
        forall|lines: Lines| #[trigger]
            final(m).read@.submap_of(lines) ==> old(m).read@.submap_of(lines),
        forall|lines: Lines|
            #![trigger op_s(op, values_view(vals@), old(m).state(), lines)]
            final(m).read@.submap_of(lines) ==> op_s(op, values_view(vals@), old(m).state(), lines) == (
                res_v(r),
                final(m).state(),
            ),
{
    let ghost vv = values_view(vals@);
    let ghost st = m.state();
    if vals.len() != op.operands() {
        return Err(Fault::OperandCount);
    }
    let mut vals = vals;
    let b = if vals.len() > 1 {
        vals.pop().unwrap()
    } else {
        proof {
            crate::value::lemma_scalar_views::<N>(' ', true, arbitrary(), 0);
        }
        Value::Null
    };
    let a = vals.pop().unwrap();
    assert(a@ == vv[0]);
    assert(b@ == if vv.len() > 1 {
        vv[1]
    } else {
        ValueV::<N>::Null
    });
    match op {
        Builtin::Head => Ok(a.head()),
        Builtin::Tail => Ok(a.tail()),
        Builtin::Wrap => Ok(a.wrap()),
        Builtin::Cat => Ok(a.cat(b)),
        Builtin::Eq => {
            let same = crate::value::values_eq(&a, &b);
            proof {
                crate::value::lemma_scalar_views::<N>(' ', same, arbitrary(), 0);
            }
            Ok(Value::Bool(same))
        },
        Builtin::Floor => match a {
            Value::Num(x) => {
                let y = x.floor();
                proof {
                    crate::value::lemma_scalar_views::<N>(' ', true, x, 0);
                    crate::value::lemma_scalar_views::<N>(' ', true, y, 0);
                }
                Ok(Value::Num(y))
            },
            _ => Err(Fault::TypeMismatch),
        },
        Builtin::Ceil => match a {
            Value::Num(x) => {
                let y = x.ceil();
                proof {
                    crate::value::lemma_scalar_views::<N>(' ', true, x, 0);
                    crate::value::lemma_scalar_views::<N>(' ', true, y, 0);
                }
                Ok(Value::Num(y))
            },
            _ => Err(Fault::TypeMismatch),
        },
        Builtin::Input => {
            let u = match a {
                Value::Universe(u) => u,
                _ => {
                    return Err(Fault::InvalidUniverse);
                },
            };
            proof {
                crate::value::lemma_scalar_views::<N>(' ', true, arbitrary(), u);
            }
            if u != m.universe || m.universe == usize::MAX {
                return Err(Fault::InvalidUniverse);
            }
            let line = m.console.read_line();
            let cs = crate::text::chars_of(line.as_str());
            let ghost old_read = m.read@;
            m.read = Ghost(m.read@.insert(u as nat, line@));
            assert forall|k: nat| #[trigger] old_read.dom().contains(k) implies m.read@.dom().contains(k)
                && old_read[k] == m.read@[k] by {
                assert(k < u);
            }
            assert forall|lines: Lines| #[trigger] m.read@.submap_of(lines) implies old_read.submap_of(lines) by {
                lemma_submap_trans(old_read, m.read@, lines);
            }
            m.universe = u + 1;
            let text = chars_value::<N>(&cs);
            proof {
                crate::value::lemma_list_view(text);
                crate::value::lemma_scalar_views::<N>(' ', true, arbitrary(), (u + 1) as usize);
            }
            let mut items: Vec<Value<'a, N>> = Vec::new();
            crate::value::push_value(&mut items, Value::Universe(u + 1));
            crate::value::push_value(&mut items, Value::List(text));
            proof {
                crate::value::lemma_list_view(items);
            }
            assert(values_view(items@) =~= seq![ValueV::<N>::Universe(st.universe + 1), chars_list::<N>(line@)]);
            assert(m.read@.contains_key(u as nat) && m.read@[u as nat] == line@);
            assert forall|lines: Lines| m.read@.submap_of(lines) implies lines[u as nat] == line@ by {
                lemma_submap_at(m.read@, lines, u as nat);
            }
            Ok(Value::List(items))
        },
        Builtin::Print => {
            let u = match a {
                Value::Universe(u) => u,
                _ => {
                    return Err(Fault::InvalidUniverse);
                },
            };
            proof {
                crate::value::lemma_scalar_views::<N>(' ', true, arbitrary(), u);
            }
            if u != m.universe || m.universe == usize::MAX {
                return Err(Fault::InvalidUniverse);
            }
            let text = crate::value::to_text(&b);
            let ghost tv = text@;
            m.console.write_line(text);
            m.printed = Ghost(m.printed@.push(tv));
            m.universe = u + 1;
            proof {
                crate::value::lemma_scalar_views::<N>(' ', true, arbitrary(), (u + 1) as usize);
            }
            Ok(Value::Universe(u + 1))
        },
        Builtin::Debug => {
            m.console.debug_line(crate::value::to_text(&a));
            Ok(a)
        },
        _ => arith(op, a, b),
    }
}

} // verus!

verus! {

fn eval<'a, N: Number, C: Console>(
    fuel: usize,
    e: &'a Expr,
    p: &'a Program,
    args: &Vec<Value<'a, N>>,
    env: &Vec<(String, Value<'a, N>)>,
    m: &mut Machine<C>,
) -> (r: Result<Value<'a, N>, Fault>)
    requires
        old(m).wf(),
    ensures
        final(m).wf(),
        forall|lines: Lines| #[trigger]
            final(m).read@.submap_of(lines) ==> old(m).read@.submap_of(lines),
        forall|lines: Lines|
            #![trigger eval_s(fuel as nat, e@, p@, values_view(args@), env_view(env@), old(m).state(), lines)]
            final(m).read@.submap_of(lines) ==> eval_s(fuel as nat, e@, p@, values_view(args@), env_view(env@), old(m).state(), lines) == (res_v(r), final(m).state()),
    decreases fuel, 0nat,
{
    proof {
        crate::ast::lemma_expr_view(*e);
    }
    let ghost st0 = m.state();
    let ghost av = values_view(args@);
    let ghost ev = env_view(env@);
    if fuel == 0 {
        return Err(Fault::DepthExceeded);
    }
    let f = fuel - 1;
    match e {
        Expr::Literal(l) => Ok(literal(l)),
        Expr::If(c, t, el) => {
            let rc = eval(f, c, p, args, env, m);
            let ghost st1 = m.state();
            let ghost rcv = res_v(rc);
            match rc {
                Err(x) => {
                    assert forall|lines: Lines| m.read@.submap_of(lines) implies eval_s(
                        fuel as nat,
                        e@,
                        p@,
                        av,
                        ev,
                        st0,
                        lines,
                    ) == (res_v(Err::<Value<'a, N>, Fault>(x)), m.state()) by {
                        assert(eval_s(f as nat, (**c)@, p@, av, ev, st0, lines) == (rcv, st1));
                    }
                    Err(x)
                },
                Ok(v) => {
                    proof {
                        crate::value::lemma_value_view(v);
                    }
                    let take = match v {
                        Value::Bool(b) => b,
                        _ => false,
                    };
                    let r = if take {
                        eval(f, t, p, args, env, m)
                    } else {
                        eval(f, el, p, args, env, m)
                    };
                    assert forall|lines: Lines| m.read@.submap_of(lines) implies eval_s(
                        fuel as nat,
                        e@,
                        p@,
                        av,
                        ev,
                        st0,
                        lines,
                    ) == (res_v(r), m.state()) by {
                        assert(st1.universe <= st1.universe);
                        assert(eval_s(f as nat, (**c)@, p@, av, ev, st0, lines) == (rcv, st1));
                        if take {
                            assert(eval_s(f as nat, (**t)@, p@, av, ev, st1, lines) == (res_v(r), m.state()));
                        } else {
                            assert(eval_s(f as nat, (**el)@, p@, av, ev, st1, lines) == (res_v(r), m.state()));
                        }
                    }
                    r
                },
            }
        },
        Expr::Let(d, v, b) => {
            let rv = eval(f, v, p, args, env, m);
            let ghost st1 = m.state();
            let ghost rvv = res_v(rv);
            let r = match rv {
                Err(x) => Err(x),
                Ok(x) => match bind(env, d, x) {
                    Err(fl) => Err(fl),
                    Ok(env2) => {
                        let ghost ev2 = env_view(env2@);
                        let r = eval(f, b, p, args, &env2, m);
                        assert forall|lines: Lines| m.read@.submap_of(lines) implies eval_s(
                            f as nat,
                            (**b)@,
                            p@,
                            av,
                            ev2,
                            st1,
                            lines,
                        ) == (res_v(r), m.state()) by {}
                        r
                    },
                },
            };
            assert forall|lines: Lines| m.read@.submap_of(lines) implies eval_s(
                fuel as nat,
                e@,
                p@,
                av,
                ev,
                st0,
                lines,
            ) == (res_v(r), m.state()) by {
                assert(eval_s(f as nat, (**v)@, p@, av, ev, st0, lines) == (rvv, st1));
            }
            r
        },
        Expr::Closure(d, b) => {
            if args.len() == 0 {
                let captured = crate::value::copy_env(env);
                let body: &'a Expr = b;
                proof {
                    crate::value::lemma_func_view(captured, d, body);
                }
                Ok(Value::Func(captured, d, body))
            } else {
                let first = crate::value::copy_value(&args[0]);
                match bind(env, d, first) {
                    Err(fl) => Err(fl),
                    Ok(env2) => {
                        let rest = crate::value::copy_tail(args, 1);
                        let r = eval(f, b, p, &rest, &env2, m);
                        assert forall|lines: Lines| m.read@.submap_of(lines) implies eval_s(
                            fuel as nat,
                            e@,
                            p@,
                            av,
                            ev,
                            st0,
                            lines,
                        ) == (res_v(r), m.state()) by {
                            assert(eval_s(f as nat, (**b)@, p@, values_view(rest@), env_view(env2@), st0, lines) == (res_v(r), m.state()));
                        }
                        r
                    },
                }
            }
        },
        Expr::Call(name, es) => {
            let ra = evals(f, es, 0, p, args, env, m);
            let ghost st1 = m.state();
            let ghost rav = res_vs(ra);
            assert(exprs_view(es@).skip(0) =~= exprs_view(es@));
            let r = match ra {
                Err(x) => Err(x),
                Ok(vals) => {
                    let mut all = vals;
                    crate::value::append_values(&mut all, crate::value::copy_tail(args, 0));
                    assert(values_view(args@).skip(0) =~= values_view(args@));
                    let ghost allv = values_view(all@);
                    match lookup(env, name) {
                        Some(callee) => {
                            let ghost cv = callee@;
                            let r = apply(f, callee, &all, p, m);
                            assert forall|lines: Lines| m.read@.submap_of(lines) implies apply_s(
                                f as nat,
                                cv,
                                allv,
                                p@,
                                st1,
                                lines,
                            ) == (res_v(r), m.state()) by {}
                            r
                        },
                        None => match p.get(name.as_str()) {
                            Some(body) => {
                                let empty: Vec<(String, Value<'a, N>)> = Vec::new();
                                assert(env_view(empty@) =~= seq![]);
                                let r = eval(f, body, p, &all, &empty, m);
                                assert forall|lines: Lines| m.read@.submap_of(lines) implies eval_s(
                                    f as nat,
                                    body@,
                                    p@,
                                    allv,
                                    seq![],
                                    st1,
                                    lines,
                                ) == (res_v(r), m.state()) by {
                                    assert(eval_s(f as nat, body@, p@, allv, env_view(empty@), st1, lines) == (res_v(r), m.state()));
                                }
                                r
                            },
                            None => Err(Fault::UnknownItem),
                        },
                    }
                },
            };
            assert forall|lines: Lines| m.read@.submap_of(lines) implies eval_s(
                fuel as nat,
                e@,
                p@,
                av,
                ev,
                st0,
                lines,
            ) == (res_v(r), m.state()) by {
                assert(evals_s(f as nat, exprs_view(es@), p@, av, ev, st0, lines) == (rav, st1));
            }
            r
        },
        Expr::Builtin(op, es) => {
            let ra = evals(f, es, 0, p, args, env, m);
            let ghost st1 = m.state();
            let ghost rav = res_vs(ra);
            assert(exprs_view(es@).skip(0) =~= exprs_view(es@));
            let r = match ra {
                Err(x) => Err(x),
                Ok(vals) => {
                    let ghost vv = values_view(vals@);
                    let r = apply_op(*op, vals, m);
                    assert forall|lines: Lines| m.read@.submap_of(lines) implies op_s(*op, vv, st1, lines) == (
                        res_v(r),
                        m.state(),
                    ) by {}
                    r
                },
            };
            assert forall|lines: Lines| m.read@.submap_of(lines) implies eval_s(
                fuel as nat,
                e@,
                p@,
                av,
                ev,
                st0,
                lines,
            ) == (res_v(r), m.state()) by {
                assert(evals_s(f as nat, exprs_view(es@), p@, av, ev, st0, lines) == (rav, st1));
            }
            r
        },
    }
}

fn evals<'a, N: Number, C: Console>(
    fuel: usize,
    es: &'a Vec<Expr>,
    i: usize,
    p: &'a Program,
    args: &Vec<Value<'a, N>>,
    env: &Vec<(String, Value<'a, N>)>,
    m: &mut Machine<C>,
) -> (r: Result<Vec<Value<'a, N>>, Fault>)
    requires
        old(m).wf(),
        i <= es@.len(),
    ensures
        final(m).wf(),
        forall|lines: Lines| #[trigger]
            final(m).read@.submap_of(lines) ==> old(m).read@.submap_of(lines),
        forall|lines: Lines|
            #![trigger evals_s(fuel as nat, exprs_view(es@).skip(i as int), p@, values_view(args@), env_view(env@), old(m).state(), lines)]
            final(m).read@.submap_of(lines) ==> evals_s(fuel as nat, exprs_view(es@).skip(i as int), p@, values_view(args@), env_view(env@), old(m).state(), lines) == (res_vs(r), final(m).state()),
    decreases fuel, es@.len() - i + 1,
{
    let ghost read0 = m.read@;
    proof {
        lemma_submap_refl(read0);
    }
    let ghost rest_v = exprs_view(es@).skip(i as int);
    if i == es.len() {
        let v: Vec<Value<'a, N>> = Vec::new();
        assert(values_view(v@) =~= seq![]);
        return Ok(v);
    }
    assert(rest_v[0] == es@[i as int]@);
    assert(rest_v.skip(1) =~= exprs_view(es@).skip(i + 1));
    let ghost st0 = m.state();
    let ghost av = values_view(args@);
    let ghost ev = env_view(env@);
    let r0 = eval(fuel, &es[i], p, args, env, m);
    let ghost st1 = m.state();
    let ghost r0v = res_v(r0);
    let r = match r0 {
        Err(x) => Err(x),
        Ok(v) => {
            let rr = evals(fuel, es, i + 1, p, args, env, m);
            let ghost rrv = res_vs(rr);
            let r = match rr {
                Err(x) => Err(x),
                Ok(rest) => {
                    let mut out: Vec<Value<'a, N>> = Vec::new();
                    let ghost vv = v@;
                    crate::value::push_value(&mut out, v);
                    let ghost rv = values_view(rest@);
                    crate::value::append_values(&mut out, rest);
                    assert(values_view(out@) =~= seq![vv] + rv);
                    Ok(out)
                },
            };
            assert forall|lines: Lines| m.read@.submap_of(lines) implies evals_s(
                fuel as nat,
                rest_v.skip(1),
                p@,
                av,
                ev,
                st1,
                lines,
            ) == (rrv, m.state()) by {}
            r
        },
    };
    assert forall|lines: Lines| m.read@.submap_of(lines) implies evals_s(
        fuel as nat,
        rest_v,
        p@,
        av,
        ev,
        st0,
        lines,
    ) == (res_vs(r), m.state()) by {
        assert(eval_s(fuel as nat, es@[i as int]@, p@, av, ev, st0, lines) == (r0v, st1));
    }
    r
}

fn apply<'a, N: Number, C: Console>(
    fuel: usize,
    callee: Value<'a, N>,
    args: &Vec<Value<'a, N>>,
    p: &'a Program,
    m: &mut Machine<C>,
) -> (r: Result<Value<'a, N>, Fault>)
    requires
        old(m).wf(),
    ensures
        final(m).wf(),
        forall|lines: Lines| #[trigger]
            final(m).read@.submap_of(lines) ==> old(m).read@.submap_of(lines),
        forall|lines: Lines|
            #![trigger apply_s(fuel as nat, callee@, values_view(args@), p@, old(m).state(), lines)]
            final(m).read@.submap_of(lines) ==> apply_s(fuel as nat, callee@, values_view(args@), p@, old(m).state(), lines) == (res_v(r), final(m).state()),
    decreases fuel, 1nat,
{
    proof {
        lemma_submap_refl(m.read@);
    }
    if args.len() == 0 {
        return Ok(callee);
    }
    proof {
        crate::value::lemma_value_view(callee);
    }
    match callee {
        Value::Func(env, d, body) => {
            let first = crate::value::copy_value(&args[0]);
            match bind(&env, d, first) {
                Err(fl) => Err(fl),
                Ok(env2) => {
                    let rest = crate::value::copy_tail(args, 1);
                    let ghost st0 = m.state();
                    let r = eval(fuel, body, p, &rest, &env2, m);
                    assert forall|lines: Lines| m.read@.submap_of(lines) implies apply_s(
                        fuel as nat,
                        callee@,
                        values_view(args@),
                        p@,
                        st0,
                        lines,
                    ) == (res_v(r), m.state()) by {
                        assert(eval_s(fuel as nat, body@, p@, values_view(rest@), env_view(env2@), st0, lines) == (res_v(r), m.state()));
                    }
                    r
                },
            }
        },
        _ => Err(Fault::TooManyArguments),
    }
}

} // verus!

verus! {

/// How deep evaluation may nest before `exec` gives up.
pub const MAX_DEPTH: usize = 10000;

impl<'b, C: Console> Console for &'b mut C {
    fn read_line(&mut self) -> String {
        (**self).read_line()
    }

    fn write_line(&mut self, line: String) {
        (**self).write_line(line)
    }

    fn debug_line(&mut self, line: String) {
        (**self).debug_line(line)
    }
}

/// Runs `main` of a program on the machine's current universe, nesting at most `depth` deep.
/// The result is what the semantics gives for the lines that were read.
pub fn run<'a, N: Number, C: Console>(prog: &'a Program, depth: usize, m: &mut Machine<C>) -> (r: Result<
    Value<'a, N>,
    Fault,
>)
    requires
        old(m).wf(),
    ensures
        final(m).wf(),
        old(m).read@.submap_of(final(m).read@),
        run_s::<N>(depth as nat, prog@, old(m).state(), final(m).read@) == (res_v(r), final(m).state()),
{
    match prog.get("main") {
        None => {
            proof {
                lemma_submap_refl(m.read@);
            }
            Err(Fault::NoMain)
        },
        Some(body) => {
            let mut args: Vec<Value<'a, N>> = Vec::new();
            crate::value::push_value(&mut args, Value::Universe(m.universe));
            proof {
                crate::value::lemma_scalar_views::<N>(' ', true, arbitrary(), m.universe);
            }
            let env: Vec<(String, Value<'a, N>)> = Vec::new();
            assert(env_view(env@) =~= seq![]);
            assert(values_view(args@) =~= seq![ValueV::<N>::Universe(m.universe as nat)]);
            let r = eval(depth, body, prog, &args, &env, m);
            proof {
                lemma_submap_refl(m.read@);
            }
            r
        },
    }
}

} // verus!

verus! {

pub open spec fn start_st() -> St {
    St { universe: 0, out: seq![] }
}

/// What `exec` reports for a program that ran to the given outcome.
pub open spec fn exec_outcome_s<N>(res: Result<ValueV<N>, Fault>) -> Result<(), Seq<ErrorV>> {
    match res {
        Ok(_) => Ok(()),
        Err(f) => Err(seq![bare(ErrorKindV::Fatal(f))]),
    }
}

pub open spec fn errors_or_unit(r: Result<(), Vec<Error>>) -> Result<(), Seq<ErrorV>> {
    match r {
        Ok(_) => Ok(()),
        Err(es) => Err(errors_view(es@)),
    }
}

/// Lexes, parses and runs source text on a console, starting from the first universe.
/// Errors of lexing and parsing come back as they are; a failure at run time as one fatal
/// error. Whether the run succeeds may depend on the lines it reads.
pub fn exec<N: Number, C: Console>(src: &str, console: &mut C) -> (r: Result<(), Vec<Error>>)
    requires
        src@.len() + 8 < usize::MAX,
    ensures
        code_s(src@) is Err ==> errors_or_unit(r) == Err::<(), Seq<ErrorV>>(code_s(src@)->Err_0),
        code_s(src@) is Ok ==> exists|lines: Lines|
            errors_or_unit(r) == exec_outcome_s::<N>(
                #[trigger] run_s::<N>(MAX_DEPTH as nat, code_s(src@)->Ok_0, start_st(), lines).0,
            ),
{
    let prog = match crate::parse::code(src) {
        Ok(p) => p,
        Err(es) => {
            return Err(es);
        },
    };
    let ghost pv = prog@;
    assert(code_s(src@) == Ok::<Seq<(Seq<char>, ExprV)>, Seq<ErrorV>>(pv));
    let mut m = Machine::new(console);
    assert(m.state() == start_st());
    let r: Result<Value<'_, N>, Fault> = run(&prog, MAX_DEPTH, &mut m);
    let ghost lines = m.read@;
    let ghost outcome = run_s::<N>(MAX_DEPTH as nat, prog@, start_st(), lines).0;
    assert(outcome == res_v(r));
    let out = match r {
        Ok(_) => Ok(()),
        Err(f) => {
            let mut es: Vec<Error> = Vec::new();
            es.push(Error::fatal(f));
            assert(errors_view(es@) =~= seq![bare(ErrorKindV::Fatal(f))]);
            Err(es)
        },
    };
    assert(errors_or_unit(out) == exec_outcome_s::<N>(outcome));
    assert(errors_or_unit(out) == exec_outcome_s::<N>(
        run_s::<N>(MAX_DEPTH as nat, code_s(src@)->Ok_0, start_st(), lines).0,
    ));
    out
}

} // verus!
