//! Lambda expressions: construction, printing, canonicalization,
//! substitution and evaluation.
use vstd::prelude::*;
use vstd::string::*;
use crate::term::{
    abs_depth, canon, canonical, decimal, digit_char, evaluate, evaluates, free_var, reduce_fuel,
    subst, tagged, term_text, var_text, Term, VarView,
};

verus! {

/// A variable used in a lambda expression.
#[derive(Debug, Hash, PartialEq, Eq)]
pub struct Var {
    pub name: String,
    ident: Option<u32>,
}

/// An untyped lambda expression.
#[derive(Debug, PartialEq, Eq)]
pub enum Expr {
    /// An expression consisting of just a single variable.
    Variable(Var),
    /// An expression of the form `lambda <var> . <expr>`.
    Abstraction(Var, Box<Expr>),
    /// An expression of the form `(M N)`.
    Application(Box<Expr>, Box<Expr>),
}

impl View for Var {
    type V = VarView;

    closed spec fn view(&self) -> VarView {
        VarView {
            name: self.name@,
            tag: match self.ident {
                Some(i) => Some(i as nat),
                None => None,
            },
        }
    }
}

impl View for Expr {
    type V = Term;

    open spec fn view(&self) -> Term
        decreases self,
    {
        match self {
            Expr::Variable(v) => Term::Var(v@),
            Expr::Abstraction(v, e) => Term::Abs(v@, Box::new((**e)@)),
            Expr::Application(e1, e2) => Term::App(Box::new((**e1)@), Box::new((**e2)@)),
        }
    }
}

/// The character of a decimal digit, as a one-character string.
fn digit_str(d: u32) -> (r: &'static str)
    requires
        d < 10,
    ensures
        r@ == seq![digit_char(d as nat)],
{
    proof {
        reveal_strlit("0");
        reveal_strlit("1");
        reveal_strlit("2");
        reveal_strlit("3");
        reveal_strlit("4");
        reveal_strlit("5");
        reveal_strlit("6");
        reveal_strlit("7");
        reveal_strlit("8");
        reveal_strlit("9");
    }
    match d {
        0 => "0",
        1 => "1",
        2 => "2",
        3 => "3",
        4 => "4",
        5 => "5",
        6 => "6",
        7 => "7",
        8 => "8",
        _ => "9",
    }
}

/// Appends the decimal notation of `n` to `out`.
fn push_decimal(out: &mut String, n: u32)
    ensures
        final(out)@ == old(out)@ + decimal(n as nat),
    decreases n,
{
    if n >= 10 {
        push_decimal(out, n / 10);
    }
    out.append(digit_str(n % 10));
}

/// The names in scope during canonicalization, each with the tag of its
/// nearest enclosing binder. Later bindings shadow earlier ones.
pub struct Scope {
    bindings: Vec<(String, u32)>,
}

/// The map that a list of bindings stands for: each name to the tag of its
/// last binding.
pub open spec fn bindings_map(s: Seq<(String, u32)>) -> Map<Seq<char>, nat>
    decreases s.len(),
{
    if s.len() == 0 {
        Map::empty()
    } else {
        bindings_map(s.drop_last()).insert(s.last().0@, s.last().1 as nat)
    }
}

impl View for Scope {
    type V = Map<Seq<char>, nat>;

    closed spec fn view(&self) -> Map<Seq<char>, nat> {
        bindings_map(self.bindings@)
    }
}

impl Scope {
    /// The scope with no names in it.
    pub fn new() -> (r: Scope)
        ensures
            r@ == Map::<Seq<char>, nat>::empty(),
    {
        Scope { bindings: Vec::new() }
    }

    /// A copy of this scope in which `name` is bound to `tag`.
    pub fn with_binding(&self, name: &String, tag: u32) -> (r: Scope)
        ensures
            r@ == self@.insert(name@, tag as nat),
    {
        let mut bindings: Vec<(String, u32)> = Vec::new();
        let mut i: usize = 0;
        while i < self.bindings.len()
            invariant
                i <= self.bindings@.len(),
                bindings@ == self.bindings@.subrange(0, i as int),
            decreases self.bindings@.len() - i,
        {
            let b = &self.bindings[i];
            bindings.push((b.0.clone(), b.1));
            proof {
                assert(bindings@ =~= self.bindings@.subrange(0, i + 1));
            }
            i = i + 1;
        }
        proof {
            assert(bindings@ =~= self.bindings@);
        }
        bindings.push((name.clone(), tag));
        proof {
            assert(bindings@.drop_last() =~= self.bindings@);
        }
        Scope { bindings }
    }

    /// The tag that `name` is bound to, if it is in scope.
    pub fn lookup(&self, name: &String) -> (r: Option<u32>)
        ensures
            r matches Some(t) ==> self@.contains_key(name@) && self@[name@] == t as nat,
            r is None ==> !self@.contains_key(name@),
    {
        let ghost s = self.bindings@;
        let mut i: usize = self.bindings.len();
        proof {
            assert(s.subrange(0, i as int) =~= s);
        }
        while i > 0
            invariant
                i <= s.len(),
                s == self.bindings@,
                bindings_map(s.subrange(0, i as int)).contains_key(name@) == bindings_map(
                    s,
                ).contains_key(name@),
                bindings_map(s.subrange(0, i as int)).contains_key(name@) ==> bindings_map(
                    s.subrange(0, i as int),
                )[name@] == bindings_map(s)[name@],
            decreases i,
        {
            let b = &self.bindings[i - 1];
            proof {
                assert(s.subrange(0, i as int).drop_last() =~= s.subrange(0, i - 1));
            }
            if b.0 == *name {
                return Some(b.1);
            }
            i = i - 1;
        }
        proof {
            assert(s.subrange(0, 0) =~= Seq::<(String, u32)>::empty());
        }
        None
    }
}

impl Var {
    /// The name of the variable.
    pub fn name(&self) -> (r: &String)
        ensures
            r@ == self@.name,
    {
        &self.name
    }

    /// An untagged variable of the given name.
    pub fn from(s: &str) -> (r: Var)
        ensures
            r@ == free_var(s@),
    {
        Var { name: s.to_owned(), ident: None }
    }

    /// The same variable, tagged with `label`.
    pub fn with_ident(&self, label: u32) -> (r: Var)
        ensures
            r@ == tagged(self@, label as nat),
    {
        Var { name: self.name.clone(), ident: Some(label) }
    }

    /// The variable printed: its name, then its tag if it has one.
    pub fn code(&self) -> (r: String)
        ensures
            r@ == var_text(self@),
    {
        let mut s = self.name.clone();
        match self.ident {
            Some(i) => push_decimal(&mut s, i),
            None => {},
        }
        s
    }
}

impl Expr {
    /// Helper method to construct a variable expression.
    pub fn variable(s: &str) -> (r: Expr)
        ensures
            r@ == Term::Var(free_var(s@)),
            abs_depth(r@) == 0,
    {
        Expr::Variable(Var::from(s))
    }

    /// Helper method to construct an abstraction expression.
    pub fn abstraction(s: &str, e: Expr) -> (r: Expr)
        ensures
            r@ == Term::Abs(free_var(s@), Box::new(e@)),
            abs_depth(r@) == abs_depth(e@) + 1,
    {
        Expr::Abstraction(Var::from(s), Box::new(e))
    }

    /// Helper method to construct an application expression.
    pub fn application(e1: Expr, e2: Expr) -> (r: Expr)
        ensures
            r@ == Term::App(Box::new(e1@), Box::new(e2@)),
            abs_depth(r@) == if abs_depth(e1@) >= abs_depth(e2@) {
                abs_depth(e1@)
            } else {
                abs_depth(e2@)
            },
    {
        Expr::Application(Box::new(e1), Box::new(e2))
    }

    /// Print an expression as a string in this language.
    pub fn code(&self) -> (r: String)
        ensures
            r@ == term_text(self@),
        decreases self,
    {
        proof {
            reveal_strlit("(\\");
            reveal_strlit(". ");
            reveal_strlit(")");
            reveal_strlit("(");
            reveal_strlit(" ");
        }
        match self {
            Expr::Variable(v) => v.code(),
            Expr::Abstraction(v, e) => {
                let mut s = String::from_str("(\\");
                s.append(v.code().as_str());
                s.append(". ");
                s.append(e.code().as_str());
                s.append(")");
                s
            },
            Expr::Application(e1, e2) => {
                let mut s = String::from_str("(");
                s.append(e1.code().as_str());
                s.append(" ");
                s.append(e2.code().as_str());
                s.append(")");
                s
            },
        }
    }

    /// Substitute `e` for every variable that carries the same tag as `var`.
    /// Untagged variables, and variables with another tag, are left as they are.
    pub fn sub(&self, var: &Var, e: Expr) -> (r: Expr)
        ensures
            r@ == subst(self@, var@, e@),
        decreases self,
    {
        match self {
            Expr::Variable(v) => match (var.ident, v.ident) {
                (Some(i), Some(j)) => if i == j {
                    e
                } else {
                    Expr::Variable(v.clone())
                },
                _ => Expr::Variable(v.clone()),
            },
            Expr::Abstraction(v, f) => Expr::Abstraction(v.clone(), Box::new(f.sub(var, e))),
            Expr::Application(e1, e2) => {
                let l = e1.sub(var, e.clone());
                let r = e2.sub(var, e);
                Expr::Application(Box::new(l), Box::new(r))
            },
        }
    }

    /// Tag each binder with its depth `d + 1` among enclosing abstractions,
    /// and each variable in `scope` with the tag of its nearest binder.
    pub fn canonicalize_inner(&self, scope: &Scope, d: u32) -> (r: Expr)
        requires
            d + abs_depth(self@) <= u32::MAX,
        ensures
            r@ == canon(self@, scope@, d as nat),
        decreases self,
    {
        match self {
            Expr::Abstraction(v, e) => {
                // Enter a deeper scope
                let new_scope = scope.with_binding(&v.name, d + 1);
                let ec = e.canonicalize_inner(&new_scope, d + 1);
                Expr::Abstraction(v.with_ident(d + 1), Box::new(ec))
            },
            Expr::Application(e1, e2) => {
                let e1c = e1.canonicalize_inner(scope, d);
                let e2c = e2.canonicalize_inner(scope, d);
                Expr::Application(Box::new(e1c), Box::new(e2c))
            },
            Expr::Variable(var) => match scope.lookup(&var.name) {
                Some(t) => Expr::Variable(var.with_ident(t)),
                None => Expr::Variable(var.clone()),
            },
        }
    }

    /// Canonicalize bound variables to avoid binding issues. Tags are `u32`,
    /// so the nesting depth of abstractions must fit in one.
    pub fn canonicalize(&self) -> (r: Expr)
        requires
            abs_depth(self@) <= u32::MAX,
        ensures
            r@ == canonical(self@),
    {
        self.canonicalize_inner(&Scope::new(), 0)
    }

    /// Reduce to normal form within `fuel` nested steps, which suffice.
    fn eval_inner(&self, Ghost(fuel): Ghost<nat>) -> (r: Expr)
        requires
            reduce_fuel(self@, fuel) is Some,
        ensures
            r@ == reduce_fuel(self@, fuel)->Some_0,
        decreases fuel,
    {
        let ghost f1 = (fuel - 1) as nat;
        match self {
            Expr::Variable(v) => Expr::Variable(v.clone()),
            Expr::Abstraction(v, b) => Expr::Abstraction(v.clone(), Box::new(b.eval_inner(Ghost(f1)))),
            Expr::Application(e1, e2) => {
                let f = e1.eval_inner(Ghost(f1));
                let a = e2.eval_inner(Ghost(f1));
                match f {
                    Expr::Abstraction(var, body) => body.sub(&var, a).eval_inner(Ghost(f1)),
                    other => Expr::Application(Box::new(other), Box::new(a)),
                }
            },
        }
    }

    /// Reduce a lambda expression: canonicalize it, then reduce it to normal
    /// form. Reduction of a term without a normal form does not end, so such
    /// terms are left out, as are terms nested too deep for a `u32` tag.
    pub fn eval(&self) -> (r: Expr)
        requires
            abs_depth(self@) <= u32::MAX,
            evaluates(self@),
        ensures
            r@ == evaluate(self@),
    {
        let c = self.canonicalize();
        let ghost n = choose|n: nat| #[trigger] reduce_fuel(c@, n) is Some;
        c.eval_inner(Ghost(n))
    }
}

impl Clone for Var {
    fn clone(&self) -> (r: Var)
        ensures
            r == *self,
    {
        Var { name: self.name.clone(), ident: self.ident }
    }
}

impl Clone for Expr {
    fn clone(&self) -> (r: Expr)
        ensures
            r == *self,
        decreases self,
    {
        match self {
            Expr::Variable(v) => Expr::Variable(v.clone()),
            Expr::Abstraction(v, e) => Expr::Abstraction(v.clone(), Box::new((**e).clone())),
            Expr::Application(e1, e2) => Expr::Application(
                Box::new((**e1).clone()),
                Box::new((**e2).clone()),
            ),
        }
    }
}

} // verus!
