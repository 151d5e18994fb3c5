use vstd::prelude::*;

use crate::ast::{Decl, DeclV, Expr, ExprV};

verus! {

/// The numeric scalar of the language, supplied by the embedding program. Each operation's
/// result is named by a spec function of its operands alone; which function that is, each
/// implementation decides, so the evaluator is proved for every one of them.
pub trait Number: Sized + Copy {
    closed spec fn literal(text: Seq<char>) -> Self {
        arbitrary()
    }

    closed spec fn sum(self, other: Self) -> Self {
        arbitrary()
    }

    closed spec fn difference(self, other: Self) -> Self {
        arbitrary()
    }

    closed spec fn product(self, other: Self) -> Self {
        arbitrary()
    }

    closed spec fn quotient(self, other: Self) -> Self {
        arbitrary()
    }

    closed spec fn remainder(self, other: Self) -> Self {
        arbitrary()
    }

    closed spec fn below(self, other: Self) -> bool {
        arbitrary()
    }

    closed spec fn at_most(self, other: Self) -> bool {
        arbitrary()
    }

    closed spec fn same(self, other: Self) -> bool {
        arbitrary()
    }

    closed spec fn floor_of(self) -> Self {
        arbitrary()
    }

    closed spec fn ceil_of(self) -> Self {
        arbitrary()
    }

    closed spec fn text(self) -> Seq<char> {
        arbitrary()
    }

    /// The number that a checked number literal spells.
    fn from_literal(text: &str) -> (r: Self)
        ensures
            r == Self::literal(text@),
    ;

    fn add(self, other: Self) -> (r: Self)
        ensures
            r == self.sum(other),
    ;

    fn sub(self, other: Self) -> (r: Self)
        ensures
            r == self.difference(other),
    ;

    fn mul(self, other: Self) -> (r: Self)
        ensures
            r == self.product(other),
    ;

    fn div(self, other: Self) -> (r: Self)
        ensures
            r == self.quotient(other),
    ;

    fn rem(self, other: Self) -> (r: Self)
        ensures
            r == self.remainder(other),
    ;

    fn less(self, other: Self) -> (r: bool)
        ensures
            r == self.below(other),
    ;

    fn less_eq(self, other: Self) -> (r: bool)
        ensures
            r == self.at_most(other),
    ;

    fn equals(self, other: Self) -> (r: bool)
        ensures
            r == self.same(other),
    ;

    fn floor(self) -> (r: Self)
        ensures
            r == self.floor_of(),
    ;

    fn ceil(self) -> (r: Self)
        ensures
            r == self.ceil_of(),
    ;

    /// How the number prints.
    fn render(self) -> (r: String)
        ensures
            r@ == self.text(),
    ;
}

/// A value at run time. Functions borrow their declaration and body from the program.
pub enum Value<'a, N> {
    Null,
    Bool(bool),
    Num(N),
    Char(char),
    List(Vec<Value<'a, N>>),
    Func(Vec<(String, Value<'a, N>)>, &'a Decl, &'a Expr),
    Universe(usize),
}

pub enum ValueV<N> {
    Null,
    Bool(bool),
    Num(N),
    Char(char),
    List(Seq<ValueV<N>>),
    Func(Seq<(Seq<char>, ValueV<N>)>, DeclV, ExprV),
    Universe(nat),
}

pub open spec fn value_v<'a, N>(v: Value<'a, N>) -> ValueV<N>
    decreases v,
{
    match v {
        Value::Null => ValueV::Null,
        Value::Bool(b) => ValueV::Bool(b),
        Value::Num(n) => ValueV::Num(n),
        Value::Char(c) => ValueV::Char(c),
        Value::List(items) => ValueV::List(
            Seq::new(items@.len(), |i: int| if 0 <= i < items@.len() { value_v(items@[i]) } else { ValueV::Null }),
        ),
        Value::Func(env, d, b) => ValueV::Func(
            Seq::new(
                env@.len(),
                |i: int| if 0 <= i < env@.len() { (env@[i].0@, value_v(env@[i].1)) } else { (seq![], ValueV::Null) },
            ),
            d@,
            b@,
        ),
        Value::Universe(u) => ValueV::Universe(u as nat),
    }
}

impl<'a, N> View for Value<'a, N> {
    type V = ValueV<N>;

    open spec fn view(&self) -> ValueV<N> {
        value_v(*self)
    }
}

pub open spec fn values_view<'a, N>(vs: Seq<Value<'a, N>>) -> Seq<ValueV<N>> {
    vs.map_values(|v: Value<'a, N>| value_v(v))
}

/// Local bindings, searched from the last.
pub type EnvV<N> = Seq<(Seq<char>, ValueV<N>)>;

pub open spec fn env_view<'a, N>(env: Seq<(String, Value<'a, N>)>) -> EnvV<N> {
    env.map_values(|e: (String, Value<'a, N>)| (e.0@, value_v(e.1)))
}

pub proof fn lemma_list_view<'a, N>(items: Vec<Value<'a, N>>)
    ensures
        Value::List(items)@ == ValueV::List(values_view(items@)),
{
    assert(Value::List(items)@->List_0 =~= values_view(items@));
}

pub proof fn lemma_func_view<'a, N>(env: Vec<(String, Value<'a, N>)>, d: &'a Decl, b: &'a Expr)
    ensures
        Value::Func(env, d, b)@ == ValueV::Func(env_view(env@), d@, b@),
{
    assert(Value::Func(env, d, b)@->Func_0 =~= env_view(env@));
}

} // verus!

verus! {

/// The first element of a list, `null` for an empty list; any other value is its own head.
pub open spec fn head_s<N>(v: ValueV<N>) -> ValueV<N> {
    match v {
        ValueV::List(s) => if s.len() > 0 {
            s[0]
        } else {
            ValueV::Null
        },
        _ => v,
    }
}

/// A list without its first element (an empty list stays empty); `null` for anything else.
pub open spec fn tail_s<N>(v: ValueV<N>) -> ValueV<N> {
    match v {
        ValueV::List(s) => ValueV::List(if s.len() > 0 { s.skip(1) } else { s }),
        _ => ValueV::Null,
    }
}

pub open spec fn wrap_s<N>(v: ValueV<N>) -> ValueV<N> {
    ValueV::List(seq![v])
}

/// Two lists joined; a list with a non-list added at that side; `null` for two non-lists.
pub open spec fn cat_s<N>(a: ValueV<N>, b: ValueV<N>) -> ValueV<N> {
    match (a, b) {
        (ValueV::List(x), ValueV::List(y)) => ValueV::List(x + y),
        (ValueV::List(x), _) => ValueV::List(x.push(b)),
        (_, ValueV::List(y)) => ValueV::List(seq![a] + y),
        _ => ValueV::Null,
    }
}

/// Deep equality: like variants with equal contents; lists element by element. Functions and
/// universes equal nothing.
pub open spec fn eq_s<N: Number>(a: ValueV<N>, b: ValueV<N>) -> bool
    decreases a,
{
    match (a, b) {
        (ValueV::Null, ValueV::Null) => true,
        (ValueV::Bool(x), ValueV::Bool(y)) => x == y,
        (ValueV::Num(x), ValueV::Num(y)) => x.same(y),
        (ValueV::Char(x), ValueV::Char(y)) => x == y,
        (ValueV::List(x), ValueV::List(y)) => x.len() == y.len() && forall|i: int|
            0 <= i < x.len() ==> eq_s(#[trigger] x[i], y[i]),
        _ => false,
    }
}


} // verus!

verus! {

pub open spec fn all_chars<N>(s: Seq<ValueV<N>>) -> bool {
    forall|i: int| 0 <= i < s.len() ==> #[trigger] s[i] is Char
}

pub open spec fn list_chars<N>(s: Seq<ValueV<N>>) -> Seq<char> {
    s.map_values(|e: ValueV<N>| e->Char_0)
}

/// Texts joined with `, ` between them.
pub open spec fn join(ts: Seq<Seq<char>>) -> Seq<char>
    decreases ts.len(),
{
    if ts.len() == 0 {
        seq![]
    } else if ts.len() == 1 {
        ts[0]
    } else {
        join(ts.drop_last()) + seq![',', ' '] + ts.last()
    }
}

/// How a value prints: a list of characters as its characters, any other list in brackets.
pub open spec fn text_s<N: Number>(v: ValueV<N>) -> Seq<char>
    decreases v,
{
    match v {
        ValueV::Null => seq!['n', 'u', 'l', 'l'],
        ValueV::Bool(b) => if b {
            seq!['t', 'r', 'u', 'e']
        } else {
            seq!['f', 'a', 'l', 's', 'e']
        },
        ValueV::Num(n) => n.text(),
        ValueV::Char(c) => seq![c],
        ValueV::List(s) => if s.len() == 0 {
            seq!['[', ']']
        } else if all_chars(s) {
            list_chars(s)
        } else {
            seq!['['] + join(item_texts(s)) + seq![']']
        },
        ValueV::Func(..) => seq!['<', 'f', 'u', 'n', 'c', '>'],
        ValueV::Universe(_) => seq!['<', 'u', 'n', 'i', 'v', 'e', 'r', 's', 'e', '>'],
    }
}

pub open spec fn item_texts<N: Number>(s: Seq<ValueV<N>>) -> Seq<Seq<char>>
    decreases s,
{
    Seq::new(s.len(), |i: int| if 0 <= i < s.len() { text_s(s[i]) } else { seq![] })
}

} // verus!

verus! {

pub(crate) fn push_value<'a, N>(v: &mut Vec<Value<'a, N>>, x: Value<'a, N>)
    ensures
        values_view(final(v)@) == values_view(old(v)@).push(x@),
{
    let ghost before = v@;
    v.push(x);
    assert(values_view(v@) =~= values_view(before).push(x@));
}

pub(crate) fn append_values<'a, N>(v: &mut Vec<Value<'a, N>>, w: Vec<Value<'a, N>>)
    ensures
        values_view(final(v)@) == values_view(old(v)@) + values_view(w@),
{
    let mut w = w;
    let ghost a = v@;
    let ghost b = w@;
    v.append(&mut w);
    assert(values_view(v@) =~= values_view(a) + values_view(b));
}

pub(crate) fn copy_value<'a, N: Number>(v: &Value<'a, N>) -> (r: Value<'a, N>)
    ensures
        r@ == v@,
    decreases v,
{
    match v {
        Value::Null => Value::Null,
        Value::Bool(b) => Value::Bool(*b),
        Value::Num(n) => Value::Num(*n),
        Value::Char(c) => Value::Char(*c),
        Value::List(items) => {
            let r = copy_values(items);
            proof {
                lemma_list_view(r);
                lemma_list_view(*items);
            }
            Value::List(r)
        },
        Value::Func(env, d, b) => {
            let r = copy_env(env);
            proof {
                lemma_func_view(r, *d, *b);
                lemma_func_view(*env, *d, *b);
            }
            Value::Func(r, *d, *b)
        },
        Value::Universe(u) => Value::Universe(*u),
    }
}

pub(crate) fn copy_values<'a, N: Number>(items: &Vec<Value<'a, N>>) -> (r: Vec<Value<'a, N>>)
    ensures
        values_view(r@) == values_view(items@),
    decreases items,
{
    let mut r: Vec<Value<'a, N>> = Vec::new();
    let mut i: usize = 0;
    while i < items.len()
        invariant
            i <= items@.len(),
            values_view(r@) =~= values_view(items@).take(i as int),
        decreases items@.len() - i,
    {
        proof {
            assert(decreases_to!(*items => items[i as int]));
        }
        let x = copy_value(&items[i]);
        push_value(&mut r, x);
        assert(values_view(items@).take(i + 1) =~= values_view(items@).take(i as int).push(x@));
        i = i + 1;
    }
    assert(values_view(items@).take(items@.len() as int) =~= values_view(items@));
    r
}

/// A copy of local bindings.
pub fn copy_env<'a, N: Number>(env: &Vec<(String, Value<'a, N>)>) -> (r: Vec<(String, Value<'a, N>)>)
    ensures
        env_view(r@) == env_view(env@),
    decreases env,
{
    let mut r: Vec<(String, Value<'a, N>)> = Vec::new();
    let mut i: usize = 0;
    while i < env.len()
        invariant
            i <= env@.len(),
            env_view(r@) =~= env_view(env@).take(i as int),
        decreases env@.len() - i,
    {
        proof {
            assert(decreases_to!(*env => env[i as int]));
        }
        let x = (env[i].0.clone(), copy_value(&env[i].1));
        let ghost before = r@;
        r.push(x);
        assert(env_view(r@) =~= env_view(before).push((x.0@, x.1@)));
        assert(env_view(env@).take(i + 1) =~= env_view(env@).take(i as int).push((x.0@, x.1@)));
        i = i + 1;
    }
    assert(env_view(env@).take(env@.len() as int) =~= env_view(env@));
    r
}

impl<'a, N: Number> Value<'a, N> {
    /// A copy of the value, sharing nothing mutable with it.
    pub fn copy(&self) -> (r: Self)
        ensures
            r@ == self@,
    {
        copy_value(self)
    }

    /// `__head`: the first element of a list, `null` for an empty one; anything else unchanged.
    pub fn head(self) -> (r: Self)
        ensures
            r@ == head_s(self@),
    {
        match self {
            Value::List(items) => {
                proof {
                    lemma_list_view(items);
                }
                if items.len() > 0 {
                    let mut items = items;
                    items.remove(0)
                } else {
                    Value::Null
                }
            },
            a => a,
        }
    }

    /// `__tail`: a list without its first element; `null` for anything but a list.
    pub fn tail(self) -> (r: Self)
        ensures
            r@ == tail_s(self@),
    {
        match self {
            Value::List(items) => {
                proof {
                    lemma_list_view(items);
                }
                let mut items = items;
                if items.len() > 0 {
                    let ghost before = items@;
                    items.remove(0);
                    assert(values_view(items@) =~= values_view(before).skip(1));
                }
                proof {
                    lemma_list_view(items);
                }
                Value::List(items)
            },
            _ => Value::Null,
        }
    }

    /// `__wrap`: a list of this one value.
    pub fn wrap(self) -> (r: Self)
        ensures
            r@ == wrap_s(self@),
    {
        let ghost sv = self@;
        let items = vec![self];
        proof {
            lemma_list_view(items);
            assert(values_view(items@) =~= seq![sv]);
        }
        Value::List(items)
    }

    /// `__cat`: two lists joined, or a non-list added at its side of a list; `null` otherwise.
    pub fn cat(self, other: Self) -> (r: Self)
        ensures
            r@ == cat_s(self@, other@),
    {
        let ghost a = self@;
        let ghost b = other@;
        match self {
            Value::List(x) => {
                proof {
                    lemma_list_view(x);
                }
                let mut x = x;
                match other {
                    Value::List(y) => {
                        proof {
                            lemma_list_view(y);
                        }
                        append_values(&mut x, y);
                    },
                    o => {
                        push_value(&mut x, o);
                    },
                }
                proof {
                    lemma_list_view(x);
                }
                Value::List(x)
            },
            s => match other {
                Value::List(y) => {
                    proof {
                        lemma_list_view(y);
                    }
                    let mut v: Vec<Value<'a, N>> = Vec::new();
                    push_value(&mut v, s);
                    append_values(&mut v, y);
                    assert(values_view(v@) =~= seq![a] + values_view(y@));
                    proof {
                        lemma_list_view(v);
                    }
                    Value::List(v)
                },
                _ => Value::Null,
            },
        }
    }
}

/// Deep equality of two values.
pub fn values_eq<'a, N: Number>(a: &Value<'a, N>, b: &Value<'a, N>) -> (r: bool)
    ensures
        r == eq_s(a@, b@),
    decreases a,
{
    match (a, b) {
        (Value::Null, Value::Null) => true,
        (Value::Bool(x), Value::Bool(y)) => *x == *y,
        (Value::Num(x), Value::Num(y)) => x.equals(*y),
        (Value::Char(x), Value::Char(y)) => *x == *y,
        (Value::List(x), Value::List(y)) => {
            proof {
                lemma_list_view(*x);
                lemma_list_view(*y);
            }
            let ghost xv = values_view(x@);
            let ghost yv = values_view(y@);
            if x.len() != y.len() {
                assert(a@ == ValueV::<N>::List(xv));
                assert(b@ == ValueV::<N>::List(yv));
                return false;
            }
            let mut i: usize = 0;
            while i < x.len()
                invariant
                    i <= x@.len(),
                    x@.len() == y@.len(),
                    *a == Value::<'a, N>::List(*x),
                    a@ == ValueV::<N>::List(xv),
                    b@ == ValueV::<N>::List(yv),
                    xv == values_view(x@),
                    yv == values_view(y@),
                    forall|j: int| 0 <= j < i ==> eq_s(#[trigger] xv[j], yv[j]),
                decreases x@.len() - i,
            {
                proof {
                    assert(decreases_to!(*x => x[i as int]));
                }
                let same = values_eq(&x[i], &y[i]);
                assert(xv[i as int] == x@[i as int]@ && yv[i as int] == y@[i as int]@);
                if !same {
                    assert(a@ == ValueV::<N>::List(xv));
                    assert(b@ == ValueV::<N>::List(yv));
                    return false;
                }
                i = i + 1;
            }
            assert(a@ == ValueV::<N>::List(xv));
            assert(b@ == ValueV::<N>::List(yv));

            true
        },
        _ => false,
    }
}

} // verus!

verus! {

fn append_chars(out: &mut Vec<char>, more: Vec<char>)
    ensures
        final(out)@ == old(out)@ + more@,
{
    let mut more = more;
    out.append(&mut more);
}

/// The characters of a value as it prints.
pub fn text_chars<'a, N: Number>(v: &Value<'a, N>) -> (r: Vec<char>)
    ensures
        r@ == text_s(v@),
    decreases v,
{
    let mut out: Vec<char> = Vec::new();
    match v {
        Value::Null => {
            out.push('n');
            out.push('u');
            out.push('l');
            out.push('l');
            assert(out@ =~= seq!['n', 'u', 'l', 'l']);
        },
        Value::Bool(b) => {
            if *b {
                out.push('t');
                out.push('r');
                out.push('u');
                out.push('e');
                assert(out@ =~= seq!['t', 'r', 'u', 'e']);
            } else {
                out.push('f');
                out.push('a');
                out.push('l');
                out.push('s');
                out.push('e');
                assert(out@ =~= seq!['f', 'a', 'l', 's', 'e']);
            }
        },
        Value::Num(n) => {
            let s = n.render();
            out = crate::text::chars_of(s.as_str());
        },
        Value::Char(c) => {
            out.push(*c);
            assert(out@ =~= seq![*c]);
        },
        Value::List(items) => {
            proof {
                lemma_list_view(*items);
            }
            out = list_text(items);
        },
        Value::Func(..) => {
            out.push('<');
            out.push('f');
            out.push('u');
            out.push('n');
            out.push('c');
            out.push('>');
            assert(out@ =~= seq!['<', 'f', 'u', 'n', 'c', '>']);
        },
        Value::Universe(_) => {
            out.push('<');
            out.push('u');
            out.push('n');
            out.push('i');
            out.push('v');
            out.push('e');
            out.push('r');
            out.push('s');
            out.push('e');
            out.push('>');
            assert(out@ =~= seq!['<', 'u', 'n', 'i', 'v', 'e', 'r', 's', 'e', '>']);
        },
    }
    out
}

fn list_text<'a, N: Number>(items: &Vec<Value<'a, N>>) -> (r: Vec<char>)
    ensures
        r@ == text_s(ValueV::<N>::List(values_view(items@))),
    decreases items,
{
    let ghost s = values_view(items@);
    let mut out: Vec<char> = Vec::new();
    if items.len() == 0 {
        out.push('[');
        out.push(']');
        assert(out@ =~= seq!['[', ']']);
        return out;
    }
    let mut chars: Vec<char> = Vec::new();
    let mut i: usize = 0;
    let mut all = true;
    while i < items.len()
        invariant
            i <= items@.len(),
            s == values_view(items@),
            all ==> forall|j: int| 0 <= j < i ==> #[trigger] s[j] is Char,
            all ==> chars@ =~= list_chars(s.take(i as int)),
            !all ==> !all_chars(s),
        decreases items@.len() - i,
    {
        if all {
            match &items[i] {
                Value::Char(c) => {
                    chars.push(*c);
                    assert(list_chars(s.take(i + 1)) =~= list_chars(s.take(i as int)).push(*c));
                },
                _ => {
                    assert(s[i as int] == items@[i as int]@);
                    assert(!(s[i as int] is Char));
                    all = false;
                },
            }
        }
        i = i + 1;
    }
    if all {
        assert(s.take(items@.len() as int) =~= s);
        return chars;
    }
    out.push('[');
    let ghost ts = item_texts(s);
    let mut k: usize = 0;
    while k < items.len()
        invariant
            k <= items@.len(),
            items@.len() > 0,
            s == values_view(items@),
            ts == item_texts(s),
            out@ == seq!['['] + join(ts.take(k as int)),
        decreases items@.len() - k,
    {
        proof {
            assert(decreases_to!(*items => items[k as int]));
        }
        let t = text_chars(&items[k]);
        let ghost before = out@;
        if k > 0 {
            out.push(',');
            out.push(' ');
        }
        append_chars(&mut out, t);
        assert(ts.take(k + 1).drop_last() =~= ts.take(k as int));
        assert(ts.take(k + 1).last() == ts[k as int]);
        if k == 0 {
            assert(ts.take(1) =~= seq![ts[0]]);
            assert(out@ =~= seq!['['] + join(ts.take(k + 1)));
        } else {
            assert(out@ =~= seq!['['] + join(ts.take(k + 1)));
        }
        k = k + 1;
    }
    out.push(']');
    assert(ts.take(items@.len() as int) =~= ts);
    assert(out@ =~= seq!['['] + join(ts) + seq![']']);
    out
}

/// The text of a value as it prints.
pub fn to_text<'a, N: Number>(v: &Value<'a, N>) -> (r: String)
    ensures
        r@ == text_s(v@),
{
    crate::text::string_of(&text_chars(v))
}

} // verus!

verus! {

pub proof fn lemma_scalar_views<'a, N>(c: char, b: bool, n: N, u: usize)
    ensures
        Value::<'a, N>::Char(c)@ == ValueV::<N>::Char(c),
        Value::<'a, N>::Bool(b)@ == ValueV::<N>::Bool(b),
        Value::<'a, N>::Num(n)@ == ValueV::<N>::Num(n),
        Value::<'a, N>::Universe(u)@ == ValueV::<N>::Universe(u as nat),
        Value::<'a, N>::Null@ == ValueV::<N>::Null,
{
}

} // verus!

verus! {

pub proof fn lemma_value_view<'a, N>(v: Value<'a, N>)
    ensures
        match v {
            Value::Null => v@ == ValueV::<N>::Null,
            Value::Bool(b) => v@ == ValueV::<N>::Bool(b),
            Value::Num(n) => v@ == ValueV::<N>::Num(n),
            Value::Char(c) => v@ == ValueV::<N>::Char(c),
            Value::List(items) => v@ == ValueV::<N>::List(values_view(items@)),
            Value::Func(env, d, b) => v@ == ValueV::<N>::Func(env_view(env@), d@, b@),
            Value::Universe(u) => v@ == ValueV::<N>::Universe(u as nat),
        },
{
    match v {
        Value::List(items) => lemma_list_view(items),
        Value::Func(env, d, b) => lemma_func_view(env, d, b),
        _ => {},
    }
}

/// A copy of the values from index `from` on.
pub fn copy_tail<'a, N: Number>(vs: &Vec<Value<'a, N>>, from: usize) -> (r: Vec<Value<'a, N>>)
    requires
        from <= vs@.len(),
    ensures
        values_view(r@) == values_view(vs@).skip(from as int),
{
    let mut r: Vec<Value<'a, N>> = Vec::new();
    let mut i: usize = from;
    while i < vs.len()
        invariant
            from <= i <= vs@.len(),
            values_view(r@) =~= values_view(vs@).subrange(from as int, i as int),
        decreases vs@.len() - i,
    {
        let x = copy_value(&vs[i]);
        push_value(&mut r, x);
        assert(values_view(vs@).subrange(from as int, i + 1) =~= values_view(vs@).subrange(
            from as int,
            i as int,
        ).push(x@));
        i = i + 1;
    }
    assert(values_view(vs@).subrange(from as int, vs@.len() as int) =~= values_view(vs@).skip(
        from as int,
    ));
    r
}

} // verus!
