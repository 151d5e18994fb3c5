use vstd::prelude::*;

verus! {

/// A literal as it stands in source. A number keeps its text, which the parser has checked.
#[derive(Clone, Debug, PartialEq)]
pub enum Literal {
    Num(String),
    Str(String),
    Bool(bool),
    Null,
}

pub enum LiteralV {
    Num(Seq<char>),
    Str(Seq<char>),
    Bool(bool),
    Null,
}

impl View for Literal {
    type V = LiteralV;

    open spec fn view(&self) -> LiteralV {
        match self {
            Literal::Num(s) => LiteralV::Num(s@),
            Literal::Str(s) => LiteralV::Str(s@),
            Literal::Bool(b) => LiteralV::Bool(*b),
            Literal::Null => LiteralV::Null,
        }
    }
}

/// What a `let` or a closure binds: one name, or the elements of a list.
#[derive(Clone, Debug, PartialEq)]
pub enum Decl {
    Single(String),
    Destructure(Vec<String>),
}

pub enum DeclV {
    Single(Seq<char>),
    Destructure(Seq<Seq<char>>),
}

pub open spec fn names_view(names: Seq<String>) -> Seq<Seq<char>> {
    names.map_values(|s: String| s@)
}

impl View for Decl {
    type V = DeclV;

    open spec fn view(&self) -> DeclV {
        match self {
            Decl::Single(s) => DeclV::Single(s@),
            Decl::Destructure(v) => DeclV::Destructure(names_view(v@)),
        }
    }
}

/// The names a declaration binds, in order.
pub open spec fn decl_names(d: DeclV) -> Seq<Seq<char>> {
    match d {
        DeclV::Single(n) => seq![n],
        DeclV::Destructure(ns) => ns,
    }
}

impl Decl {
    pub fn get_idents(&self) -> (r: Vec<String>)
        ensures
            names_view(r@) == decl_names(self@),
    {
        match self {
            Decl::Single(one) => {
                let r = vec![one.clone()];
                assert(names_view(r@) =~= decl_names(self@));
                r
            },
            Decl::Destructure(many) => {
                let mut r: Vec<String> = Vec::new();
                let mut i: usize = 0;
                while i < many.len()
                    invariant
                        i <= many@.len(),
                        names_view(r@) =~= names_view(many@).take(i as int),
                    decreases many@.len() - i,
                {
                    let ghost before = r@;
                    let n = many[i].clone();
                    r.push(n);
                    assert(names_view(r@) =~= names_view(before).push(n@));
                    assert(names_view(many@).take(i + 1) =~= names_view(many@).take(i as int).push(n@));
                    i = i + 1;
                }
                assert(names_view(many@).take(many@.len() as int) =~= names_view(many@));
                r
            },
        }
    }
}

/// The primitive operations, each with a fixed count of operands.
#[derive(Copy, Clone, Debug, PartialEq, Eq, Structural)]
pub enum Builtin {
    Head,
    Tail,
    Wrap,
    Cat,
    Add,
    Sub,
    Mul,
    Div,
    Rem,
    Eq,
    Less,
    LessEq,
    Floor,
    Ceil,
    Input,
    Print,
    Debug,
}

pub open spec fn operand_count(b: Builtin) -> nat {
    match b {
        Builtin::Head | Builtin::Tail | Builtin::Wrap | Builtin::Floor | Builtin::Ceil
        | Builtin::Input | Builtin::Debug => 1,
        _ => 2,
    }
}

impl Builtin {
    pub fn operands(self) -> (r: usize)
        ensures
            r == operand_count(self),
    {
        match self {
            Builtin::Head | Builtin::Tail | Builtin::Wrap | Builtin::Floor | Builtin::Ceil
            | Builtin::Input | Builtin::Debug => 1,
            _ => 2,
        }
    }
}

#[derive(Debug, PartialEq)]
pub enum Expr {
    Literal(Literal),
    If(Box<Expr>, Box<Expr>, Box<Expr>),
    Let(Decl, Box<Expr>, Box<Expr>),
    Builtin(Builtin, Vec<Expr>),
    /// A call of a named function with as many arguments as its arity; with none, a reference.
    Call(String, Vec<Expr>),
    Closure(Decl, Box<Expr>),
}

pub enum ExprV {
    Literal(LiteralV),
    If(Box<ExprV>, Box<ExprV>, Box<ExprV>),
    Let(DeclV, Box<ExprV>, Box<ExprV>),
    Builtin(Builtin, Seq<ExprV>),
    Call(Seq<char>, Seq<ExprV>),
    Closure(DeclV, Box<ExprV>),
}

pub open spec fn expr_v(e: Expr) -> ExprV
    decreases e,
{
    match e {
        Expr::Literal(l) => ExprV::Literal(l@),
        Expr::If(a, b, c) => ExprV::If(Box::new(expr_v(*a)), Box::new(expr_v(*b)), Box::new(expr_v(*c))),
        Expr::Let(d, a, b) => ExprV::Let(d@, Box::new(expr_v(*a)), Box::new(expr_v(*b))),
        Expr::Builtin(op, args) => ExprV::Builtin(
            op,
            Seq::new(args@.len(), |i: int| if 0 <= i < args@.len() { expr_v(args@[i]) } else { ExprV::Literal(LiteralV::Null) }),
        ),
        Expr::Call(n, args) => ExprV::Call(
            n@,
            Seq::new(args@.len(), |i: int| if 0 <= i < args@.len() { expr_v(args@[i]) } else { ExprV::Literal(LiteralV::Null) }),
        ),
        Expr::Closure(d, b) => ExprV::Closure(d@, Box::new(expr_v(*b))),
    }
}

pub open spec fn exprs_view(es: Seq<Expr>) -> Seq<ExprV> {
    es.map_values(|e: Expr| expr_v(e))
}

impl View for Expr {
    type V = ExprV;

    open spec fn view(&self) -> ExprV {
        expr_v(*self)
    }
}

/// The global definitions of a program, each name once.
#[derive(Debug)]
pub struct Program {
    pub globals: Vec<(String, Expr)>,
}

pub open spec fn globals_view(gs: Seq<(String, Expr)>) -> Seq<(Seq<char>, ExprV)> {
    gs.map_values(|g: (String, Expr)| (g.0@, expr_v(g.1)))
}

impl View for Program {
    type V = Seq<(Seq<char>, ExprV)>;

    open spec fn view(&self) -> Seq<(Seq<char>, ExprV)> {
        globals_view(self.globals@)
    }
}

/// Where `name` stands among the definitions, if anywhere.
pub open spec fn index_of<T>(defs: Seq<(Seq<char>, T)>, name: Seq<char>) -> Option<int>
    decreases defs.len(),
{
    if defs.len() == 0 {
        None
    } else if defs.last().0 == name {
        Some(defs.len() - 1)
    } else {
        index_of(defs.drop_last(), name)
    }
}

/// The definitions with `name` bound to `body`: in place of an earlier body, or added last.
pub open spec fn define<T>(defs: Seq<(Seq<char>, T)>, name: Seq<char>, body: T) -> Seq<(Seq<char>, T)> {
    match index_of(defs, name) {
        Some(i) => defs.update(i, (name, body)),
        None => defs.push((name, body)),
    }
}

/// The body that `name` is bound to, if any.
pub open spec fn body_of<T>(defs: Seq<(Seq<char>, T)>, name: Seq<char>) -> Option<T> {
    match index_of(defs, name) {
        Some(i) => Some(defs[i].1),
        None => None,
    }
}

pub proof fn lemma_index_of<T>(defs: Seq<(Seq<char>, T)>, name: Seq<char>)
    ensures
        match index_of(defs, name) {
            Some(i) => 0 <= i < defs.len() && defs[i].0 == name && forall|j: int|
                i < j < defs.len() ==> defs[j].0 != name,
            None => forall|j: int| 0 <= j < defs.len() ==> defs[j].0 != name,
        },
    decreases defs.len(),
{
    if defs.len() > 0 && defs.last().0 != name {
        let rest = defs.drop_last();
        lemma_index_of(rest, name);
        assert forall|j: int| 0 <= j < rest.len() implies rest[j] == defs[j] by {}
    }
}

} // verus!

verus! {

pub proof fn lemma_call_view(name: String, args: Vec<Expr>)
    ensures
        Expr::Call(name, args)@ == ExprV::Call(name@, exprs_view(args@)),
{
    assert(Expr::Call(name, args)@->Call_1 =~= exprs_view(args@));
}

pub proof fn lemma_builtin_view(op: Builtin, args: Vec<Expr>)
    ensures
        Expr::Builtin(op, args)@ == ExprV::Builtin(op, exprs_view(args@)),
{
    assert(Expr::Builtin(op, args)@->Builtin_1 =~= exprs_view(args@));
}

} // verus!

verus! {

impl Program {
    pub fn new() -> (r: Self)
        ensures
            r@ == Seq::<(Seq<char>, ExprV)>::empty(),
    {
        let p = Program { globals: Vec::new() };
        assert(p@ =~= Seq::<(Seq<char>, ExprV)>::empty());
        p
    }

    /// Binds `name` to `body`, in place of any earlier body of that name.
    pub fn define(&mut self, name: String, body: Expr)
        ensures
            final(self)@ == define(old(self)@, name@, body@),
    {
        let ghost gv = old(self)@;
        let ghost nv = name@;
        let ghost bv = body@;
        let mut i = self.globals.len();
        assert(gv.take(i as int) =~= gv);
        while i > 0
            invariant
                i <= self.globals@.len(),
                gv == self@,
                gv == old(self)@,
                nv == name@,
                bv == body@,
                index_of(gv, name@) == index_of(gv.take(i as int), name@),
            decreases i,
        {
            let ghost t = gv.take(i as int);
            assert(t.last() == gv[i - 1]);
            if self.globals[i - 1].0 == name {
                assert(gv[i - 1].0 == name@);
                assert(index_of(t, name@) == Some(i - 1));
                self.globals[i - 1] = (name, body);
                assert(self.globals@[i - 1].1@ == bv);
                assert(self@ =~= gv.update(i - 1, (gv[i - 1].0, bv)));
                assert(self@ == define(gv, nv, bv));
                return;
            }
            assert(t.drop_last() =~= gv.take(i - 1));
            i = i - 1;
        }
        self.globals.push((name, body));
        assert(self@ =~= gv.push((nv, bv)));
    }

    /// The body bound to `name`, if any.
    pub fn get(&self, name: &str) -> (r: Option<&Expr>)
        ensures
            match r {
                Some(e) => index_of(self@, name@) is Some && body_of(self@, name@) == Some(e@),
                None => index_of(self@, name@) is None,
            },
    {
        let ghost gv = self@;
        let mut i = self.globals.len();
        assert(gv.take(i as int) =~= gv);
        while i > 0
            invariant
                i <= self.globals@.len(),
                gv == self@,
                index_of(gv, name@) == index_of(gv.take(i as int), name@),
            decreases i,
        {
            let ghost t = gv.take(i as int);
            assert(t.last() == gv[i - 1]);
            if crate::text::same_text(self.globals[i - 1].0.as_str(), name) {
                return Some(&self.globals[i - 1].1);
            }
            assert(t.drop_last() =~= gv.take(i - 1));
            i = i - 1;
        }
        None
    }
}

} // verus!

verus! {

pub proof fn lemma_expr_view(e: Expr)
    ensures
        match e {
            Expr::Literal(l) => e@ == ExprV::Literal(l@),
            Expr::If(a, b, c) => e@ == ExprV::If(Box::new((*a)@), Box::new((*b)@), Box::new((*c)@)),
            Expr::Let(d, a, b) => e@ == ExprV::Let(d@, Box::new((*a)@), Box::new((*b)@)),
            Expr::Builtin(op, args) => e@ == ExprV::Builtin(op, exprs_view(args@)),
            Expr::Call(n, args) => e@ == ExprV::Call(n@, exprs_view(args@)),
            Expr::Closure(d, b) => e@ == ExprV::Closure(d@, Box::new((*b)@)),
        },
{
    match e {
        Expr::Builtin(op, args) => lemma_builtin_view(op, args),
        Expr::Call(n, args) => lemma_call_view(n, args),
        _ => {},
    }
}

} // verus!
