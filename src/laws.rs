//! Properties of canonicalization and evaluation, proved over the term model.
use vstd::prelude::*;
use crate::term::{
    binds_nowhere, canon, canonical, erase_tags, evaluate, evaluates, is_normal, normal_form,
    normalizes, occurs_untagged, reduce_fuel, subst, tagged, Term, VarView,
};

verus! {

/// The number of nodes on the longest path from the root to a variable.
pub open spec fn height(t: Term) -> nat
    decreases t,
{
    match t {
        Term::Var(_) => 1,
        Term::Abs(_, b) => height(*b) + 1,
        Term::App(f, a) => {
            let hf = height(*f);
            let ha = height(*a);
            if hf >= ha {
                hf + 1
            } else {
                ha + 1
            }
        },
    }
}

proof fn lemma_reduce_more_fuel(t: Term, n: nat, m: nat)
    requires
        reduce_fuel(t, n) is Some,
        n <= m,
    ensures
        reduce_fuel(t, m) == reduce_fuel(t, n),
    decreases n,
{
    let n1 = (n - 1) as nat;
    let m1 = (m - 1) as nat;
    match t {
        Term::Var(_) => {},
        Term::Abs(v, b) => {
            lemma_reduce_more_fuel(*b, n1, m1);
        },
        Term::App(f, a) => {
            lemma_reduce_more_fuel(*f, n1, m1);
            lemma_reduce_more_fuel(*a, n1, m1);
            let nf = reduce_fuel(*f, n1)->Some_0;
            let na = reduce_fuel(*a, n1)->Some_0;
            if let Term::Abs(v, body) = nf {
                lemma_reduce_more_fuel(subst(*body, v, na), n1, m1);
            }
        },
    }
}

/// Reduction is deterministic: every run that comes to an end, whatever fuel
/// it was given, reaches the one normal form of the term.
pub proof fn lemma_normal_form_unique(t: Term, n: nat)
    requires
        reduce_fuel(t, n) is Some,
    ensures
        normalizes(t),
        normal_form(t) == reduce_fuel(t, n)->Some_0,
{
    let k = choose|k: nat| #[trigger] reduce_fuel(t, k) is Some;
    if n <= k {
        lemma_reduce_more_fuel(t, n, k);
    } else {
        lemma_reduce_more_fuel(t, k, n);
    }
}

proof fn lemma_canon_twice(t: Term, scope: Map<Seq<char>, nat>, d: nat)
    ensures
        canon(canon(t, scope, d), scope, d) == canon(t, scope, d),
    decreases t,
{
    match t {
        Term::Var(v) => {
            if scope.contains_key(v.name) {
                assert(tagged(tagged(v, scope[v.name]), scope[v.name]) == tagged(v, scope[v.name]));
            }
        },
        Term::Abs(v, b) => {
            lemma_canon_twice(*b, scope.insert(v.name, d + 1), d + 1);
            assert(tagged(tagged(v, d + 1), d + 1) == tagged(v, d + 1));
        },
        Term::App(f, a) => {
            lemma_canon_twice(*f, scope, d);
            lemma_canon_twice(*a, scope, d);
        },
    }
}

/// Canonicalizing a term twice gives the same term as canonicalizing it once.
pub proof fn lemma_canonicalize_idempotent(t: Term)
    ensures
        canonical(canonical(t)) == canonical(t),
{
    lemma_canon_twice(t, Map::empty(), 0);
}

proof fn lemma_canon_keeps_shape(t: Term, scope: Map<Seq<char>, nat>, d: nat)
    ensures
        erase_tags(canon(t, scope, d)) == erase_tags(t),
        is_normal(canon(t, scope, d)) == is_normal(t),
        height(canon(t, scope, d)) == height(t),
        canon(t, scope, d) is Abs <==> t is Abs,
    decreases t,
{
    match t {
        Term::Var(v) => {},
        Term::Abs(v, b) => {
            lemma_canon_keeps_shape(*b, scope.insert(v.name, d + 1), d + 1);
        },
        Term::App(f, a) => {
            lemma_canon_keeps_shape(*f, scope, d);
            lemma_canon_keeps_shape(*a, scope, d);
        },
    }
}

proof fn lemma_reduce_gives_normal(t: Term, n: nat)
    requires
        reduce_fuel(t, n) is Some,
    ensures
        is_normal(reduce_fuel(t, n)->Some_0),
    decreases n,
{
    let m = (n - 1) as nat;
    match t {
        Term::Var(_) => {},
        Term::Abs(v, b) => {
            lemma_reduce_gives_normal(*b, m);
        },
        Term::App(f, a) => {
            lemma_reduce_gives_normal(*f, m);
            lemma_reduce_gives_normal(*a, m);
            let nf = reduce_fuel(*f, m)->Some_0;
            let na = reduce_fuel(*a, m)->Some_0;
            if let Term::Abs(v, body) = nf {
                lemma_reduce_gives_normal(subst(*body, v, na), m);
            }
        },
    }
}

proof fn lemma_reduce_normal_is_identity(t: Term, n: nat)
    requires
        is_normal(t),
    ensures
        reduce_fuel(t, n) is Some ==> reduce_fuel(t, n) == Some(t),
        n > height(t) ==> reduce_fuel(t, n) == Some(t),
    decreases t,
{
    if n > 0 {
        let m = (n - 1) as nat;
        match t {
            Term::Var(_) => {},
            Term::Abs(v, b) => {
                lemma_reduce_normal_is_identity(*b, m);
            },
            Term::App(f, a) => {
                lemma_reduce_normal_is_identity(*f, m);
                lemma_reduce_normal_is_identity(*a, m);
            },
        }
    }
}

/// Evaluating the result of an evaluation canonicalizes it and changes
/// nothing else: the result is a normal form, its evaluation comes to an end,
/// and it agrees with the first result up to tags.
pub proof fn lemma_evaluate_twice(t: Term)
    requires
        evaluates(t),
    ensures
        is_normal(evaluate(t)),
        evaluates(evaluate(t)),
        evaluate(evaluate(t)) == canonical(evaluate(t)),
        erase_tags(evaluate(evaluate(t))) == erase_tags(evaluate(t)),
{
    let c = canonical(t);
    let n = choose|n: nat| #[trigger] reduce_fuel(c, n) is Some;
    lemma_reduce_gives_normal(c, n);
    let r = evaluate(t);
    let cr = canonical(r);
    lemma_canon_keeps_shape(r, Map::empty(), 0);
    lemma_reduce_normal_is_identity(cr, height(cr) + 1);
    assert(reduce_fuel(cr, height(cr) + 1) is Some);
    let m = choose|m: nat| #[trigger] reduce_fuel(cr, m) is Some;
    lemma_reduce_normal_is_identity(cr, m);
}

/// Evaluation is idempotent on every term whose result is already in
/// canonical form: evaluating the result again gives the same term.
pub proof fn lemma_evaluate_idempotent(t: Term)
    requires
        evaluates(t),
        canonical(evaluate(t)) == evaluate(t),
    ensures
        evaluates(evaluate(t)),
        evaluate(evaluate(t)) == evaluate(t),
{
    lemma_evaluate_twice(t);
}

proof fn lemma_canon_keeps_free(t: Term, x: Seq<char>, scope: Map<Seq<char>, nat>, d: nat)
    requires
        binds_nowhere(t, x),
        occurs_untagged(t, x),
        !scope.contains_key(x),
    ensures
        binds_nowhere(canon(t, scope, d), x),
        occurs_untagged(canon(t, scope, d), x),
    decreases t,
{
    match t {
        Term::Var(v) => {},
        Term::Abs(v, b) => {
            lemma_canon_keeps_free(*b, x, scope.insert(v.name, d + 1), d + 1);
        },
        Term::App(f, a) => {
            lemma_canon_keeps_free(*f, x, scope, d);
            lemma_canon_keeps_free(*a, x, scope, d);
        },
    }
}

proof fn lemma_subst_keeps_free(t: Term, y: VarView, r: Term, x: Seq<char>)
    requires
        binds_nowhere(t, x),
        occurs_untagged(t, x),
        binds_nowhere(r, x),
        occurs_untagged(r, x),
    ensures
        binds_nowhere(subst(t, y, r), x),
        occurs_untagged(subst(t, y, r), x),
    decreases t,
{
    match t {
        Term::Var(v) => {},
        Term::Abs(v, b) => {
            lemma_subst_keeps_free(*b, y, r, x);
        },
        Term::App(f, a) => {
            lemma_subst_keeps_free(*f, y, r, x);
            lemma_subst_keeps_free(*a, y, r, x);
        },
    }
}

proof fn lemma_reduce_keeps_free(t: Term, n: nat, x: Seq<char>)
    requires
        binds_nowhere(t, x),
        occurs_untagged(t, x),
        reduce_fuel(t, n) is Some,
    ensures
        binds_nowhere(reduce_fuel(t, n)->Some_0, x),
        occurs_untagged(reduce_fuel(t, n)->Some_0, x),
    decreases n,
{
    let m = (n - 1) as nat;
    match t {
        Term::Var(_) => {},
        Term::Abs(v, b) => {
            lemma_reduce_keeps_free(*b, m, x);
        },
        Term::App(f, a) => {
            lemma_reduce_keeps_free(*f, m, x);
            lemma_reduce_keeps_free(*a, m, x);
            let nf = reduce_fuel(*f, m)->Some_0;
            let na = reduce_fuel(*a, m)->Some_0;
            if let Term::Abs(v, body) = nf {
                lemma_subst_keeps_free(*body, v, na, x);
                lemma_reduce_keeps_free(subst(*body, v, na), m, x);
            }
        },
    }
}

/// A variable name that no abstraction of the term binds, and whose
/// occurrences carry no tag, stays free: in the result of evaluation it is
/// still bound nowhere and every occurrence of it is still untagged.
pub proof fn lemma_free_variable_preserved(t: Term, x: Seq<char>)
    requires
        evaluates(t),
        binds_nowhere(t, x),
        occurs_untagged(t, x),
    ensures
        binds_nowhere(evaluate(t), x),
        occurs_untagged(evaluate(t), x),
{
    let c = canonical(t);
    lemma_canon_keeps_free(t, x, Map::empty(), 0);
    let n = choose|n: nat| #[trigger] reduce_fuel(c, n) is Some;
    lemma_reduce_keeps_free(c, n, x);
}

} // verus!
