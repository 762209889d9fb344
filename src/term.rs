//! The mathematical model of lambda terms: variables with optional numeric
//! tags, the three kinds of term, and the meaning of serialization,
//! canonicalization, substitution and reduction over that model.
use vstd::prelude::*;

verus! {

/// A variable as the proofs see it: its surface name and, once it has been
/// canonicalized as a bound occurrence, the tag of its binder.
pub struct VarView {
    pub name: Seq<char>,
    pub tag: Option<nat>,
}

/// A lambda term as the proofs see it.
pub enum Term {
    Var(VarView),
    Abs(VarView, Box<Term>),
    App(Box<Term>, Box<Term>),
}

/// An untagged variable of the given name.
pub open spec fn free_var(name: Seq<char>) -> VarView {
    VarView { name, tag: None }
}

/// The same variable carrying the tag `t`.
pub open spec fn tagged(v: VarView, t: nat) -> VarView {
    VarView { name: v.name, tag: Some(t) }
}

// ---------------------------------------------------------------------------
// Serialization
/// The character of a decimal digit.
pub open spec fn digit_char(d: nat) -> char {
    if d == 0 {
        '0'
    } else if d == 1 {
        '1'
    } else if d == 2 {
        '2'
    } else if d == 3 {
        '3'
    } else if d == 4 {
        '4'
    } else if d == 5 {
        '5'
    } else if d == 6 {
        '6'
    } else if d == 7 {
        '7'
    } else if d == 8 {
        '8'
    } else {
        '9'
    }
}

/// The decimal notation of `n`, without leading zeros.
pub open spec fn decimal(n: nat) -> Seq<char>
    decreases n,
{
    if n < 10 {
        seq![digit_char(n)]
    } else {
        decimal(n / 10).push(digit_char(n % 10))
    }
}

/// A variable prints as its name, followed by its tag when it has one.
pub open spec fn var_text(v: VarView) -> Seq<char> {
    match v.tag {
        Some(t) => v.name + decimal(t),
        None => v.name,
    }
}

/// The fully parenthesized notation of a term: `name`, `(\name. body)`,
/// `(fn arg)`.
pub open spec fn term_text(t: Term) -> Seq<char>
    decreases t,
{
    match t {
        Term::Var(v) => var_text(v),
        Term::Abs(v, b) => seq!['(', '\\'] + var_text(v) + seq!['.', ' '] + term_text(*b) + seq![
            ')',
        ],
        Term::App(f, a) => seq!['('] + term_text(*f) + seq![' '] + term_text(*a) + seq![')'],
    }
}

// ---------------------------------------------------------------------------
// Shape
/// The greatest number of abstractions nested one inside another.
pub open spec fn abs_depth(t: Term) -> nat
    decreases t,
{
    match t {
        Term::Var(_) => 0,
        Term::Abs(_, b) => abs_depth(*b) + 1,
        Term::App(f, a) => {
            let df = abs_depth(*f);
            let da = abs_depth(*a);
            if df >= da {
                df
            } else {
                da
            }
        },
    }
}

/// The term with every tag removed.
pub open spec fn erase_tags(t: Term) -> Term
    decreases t,
{
    match t {
        Term::Var(v) => Term::Var(free_var(v.name)),
        Term::Abs(v, b) => Term::Abs(free_var(v.name), Box::new(erase_tags(*b))),
        Term::App(f, a) => Term::App(Box::new(erase_tags(*f)), Box::new(erase_tags(*a))),
    }
}

/// No abstraction of the term binds the name `x`.
pub open spec fn binds_nowhere(t: Term, x: Seq<char>) -> bool
    decreases t,
{
    match t {
        Term::Var(_) => true,
        Term::Abs(v, b) => v.name != x && binds_nowhere(*b, x),
        Term::App(f, a) => binds_nowhere(*f, x) && binds_nowhere(*a, x),
    }
}

/// Every occurrence of a variable named `x` in the term is untagged.
pub open spec fn occurs_untagged(t: Term, x: Seq<char>) -> bool
    decreases t,
{
    match t {
        Term::Var(v) => v.name == x ==> v.tag is None,
        Term::Abs(_, b) => occurs_untagged(*b, x),
        Term::App(f, a) => occurs_untagged(*f, x) && occurs_untagged(*a, x),
    }
}

/// The term holds no redex: no application whose function is an abstraction.
pub open spec fn is_normal(t: Term) -> bool
    decreases t,
{
    match t {
        Term::Var(_) => true,
        Term::Abs(_, b) => is_normal(*b),
        Term::App(f, a) => !(*f is Abs) && is_normal(*f) && is_normal(*a),
    }
}

// ---------------------------------------------------------------------------
// Canonicalization
/// Tags every binder with its abstraction depth and every variable in scope
/// of a binder of its name with the tag of the nearest such binder. `scope`
/// maps names to the tags of their nearest binders, `d` is the current depth.
pub open spec fn canon(t: Term, scope: Map<Seq<char>, nat>, d: nat) -> Term
    decreases t,
{
    match t {
        Term::Var(v) => if scope.contains_key(v.name) {
            Term::Var(tagged(v, scope[v.name]))
        } else {
            Term::Var(v)
        },
        Term::Abs(v, b) => Term::Abs(
            tagged(v, d + 1),
            Box::new(canon(*b, scope.insert(v.name, d + 1), d + 1)),
        ),
        Term::App(f, a) => Term::App(Box::new(canon(*f, scope, d)), Box::new(canon(*a, scope, d))),
    }
}

/// Canonicalization from the empty scope at depth zero.
pub open spec fn canonical(t: Term) -> Term {
    canon(t, Map::empty(), 0)
}

// ---------------------------------------------------------------------------
// Reduction
/// Replaces every variable whose tag is present and equal to the tag of `x`
/// by `r`. Untagged variables are never replaced.
pub open spec fn subst(t: Term, x: VarView, r: Term) -> Term
    decreases t,
{
    match t {
        Term::Var(v) => if x.tag is Some && v.tag == x.tag {
            r
        } else {
            t
        },
        Term::Abs(v, b) => Term::Abs(v, Box::new(subst(*b, x, r))),
        Term::App(f, a) => Term::App(Box::new(subst(*f, x, r)), Box::new(subst(*a, x, r))),
    }
}

/// Reduction to normal form, with at most `fuel` nested steps: `None` when the
/// fuel runs out. Both sides of an application are reduced first; when the
/// function is then an abstraction, its body with the argument substituted is
/// reduced in turn. Abstraction bodies are reduced too.
pub open spec fn reduce_fuel(t: Term, fuel: nat) -> Option<Term>
    decreases fuel,
{
    if fuel == 0 {
        None
    } else {
        match t {
            Term::Var(_) => Some(t),
            Term::Abs(v, b) => match reduce_fuel(*b, (fuel - 1) as nat) {
                Some(nb) => Some(Term::Abs(v, Box::new(nb))),
                None => None,
            },
            Term::App(f, a) => match (
                reduce_fuel(*f, (fuel - 1) as nat),
                reduce_fuel(*a, (fuel - 1) as nat),
            ) {
                (Some(nf), Some(na)) => match nf {
                    Term::Abs(v, body) => reduce_fuel(subst(*body, v, na), (fuel - 1) as nat),
                    _ => Some(Term::App(Box::new(nf), Box::new(na))),
                },
                _ => None,
            },
        }
    }
}

/// Reduction of `t` comes to an end.
pub open spec fn normalizes(t: Term) -> bool {
    exists|n: nat| #[trigger] reduce_fuel(t, n) is Some
}

/// The normal form that reduction of `t` reaches, where it comes to an end.
pub open spec fn normal_form(t: Term) -> Term
    recommends
        normalizes(t),
{
    reduce_fuel(t, choose|n: nat| #[trigger] reduce_fuel(t, n) is Some)->Some_0
}

/// Evaluation of `t` (canonicalize, then reduce) comes to an end.
pub open spec fn evaluates(t: Term) -> bool {
    normalizes(canonical(t))
}

/// The result of evaluating `t`: the normal form of its canonical form.
pub open spec fn evaluate(t: Term) -> Term
    recommends
        evaluates(t),
{
    normal_form(canonical(t))
}

} // verus!
