//! The surface notation of the `lambda!` front end, read from a token tree:
//! an optional `@input(a, b, ...)` decorator naming the values that the
//! result may mention, then a term in which `Lx` opens an abstraction over the
//! rest of the tokens, parentheses group, and juxtaposition applies to the
//! left.
use vstd::prelude::*;
use vstd::slice::slice_subrange;
use vstd::string::*;
use crate::ast::Expr;
use crate::term::{free_var, Term};

verus! {

/// The delimiter of a token group.
#[derive(Debug, PartialEq, Eq)]
pub enum Delimiter {
    Parenthesis,
    Brace,
    Bracket,
    Invisible,
}

/// One token tree of the macro input.
#[derive(Debug, PartialEq, Eq)]
pub enum Token {
    Ident(String),
    Punct(char),
    Literal(String),
    Group(Delimiter, Vec<Token>),
}

/// Why the macro input could not be read.
#[derive(Debug, PartialEq, Eq)]
pub enum SyntaxError {
    /// A group in a term is delimited by something other than parentheses.
    InvalidDelimiter,
    /// A term, or a parenthesized part of one, holds nothing.
    EmptyExpression,
    /// A punctuation character other than `,` in the input list.
    InvalidInputChar(char),
    /// Something other than a name or `,` in the input list.
    InvalidInput,
    /// A decorator other than `input`.
    UnknownDecorator(String),
    /// The input list is delimited by something other than parentheses.
    InvalidInputDelimiter,
    /// `@` is not followed by a name and a group.
    InvalidDecorator,
}

/// An identifier that opens an abstraction: `L` followed by the bound name.
pub open spec fn opens_abstraction(s: Seq<char>) -> bool {
    s.len() > 0 && s[0] == 'L'
}

/// Applies the terms one after another, from the left: `((t0 t1) t2) ...`.
pub open spec fn fold_app(items: Seq<Term>) -> Term
    decreases items.len(),
{
    if items.len() <= 1 {
        items[0]
    } else {
        Term::App(Box::new(fold_app(items.drop_last())), Box::new(items.last()))
    }
}

/// The terms `p`, followed by those of `r` if it holds any.
pub open spec fn prepend(p: Seq<Term>, r: Result<Seq<Term>, SyntaxError>) -> Result<
    Seq<Term>,
    SyntaxError,
> {
    match r {
        Ok(rest) => Ok(p + rest),
        Err(e) => Err(e),
    }
}

/// The juxtaposed terms of a token sequence, or the first error, from the left.
pub open spec fn parse_items(ts: Seq<Token>) -> Result<Seq<Term>, SyntaxError>
    decreases ts, 0nat,
{
    if ts.len() == 0 {
        Ok(Seq::empty())
    } else {
        match ts[0] {
            Token::Ident(s) => if opens_abstraction(s@) {
                match parse_tokens(ts.subrange(1, ts.len() as int)) {
                    Ok(body) => Ok(
                        seq![Term::Abs(free_var(s@.subrange(1, s@.len() as int)), Box::new(body))],
                    ),
                    Err(e) => Err(e),
                }
            } else {
                prepend(seq![Term::Var(free_var(s@))], parse_items(ts.drop_first()))
            },
            Token::Group(d, inner) => if d != Delimiter::Parenthesis {
                Err(SyntaxError::InvalidDelimiter)
            } else {
                match parse_tokens(inner@) {
                    Ok(x) => prepend(seq![x], parse_items(ts.drop_first())),
                    Err(e) => Err(e),
                }
            },
            _ => parse_items(ts.drop_first()),
        }
    }
}

/// The term that a token sequence denotes.
pub open spec fn parse_tokens(ts: Seq<Token>) -> Result<Term, SyntaxError>
    decreases ts, 1nat,
{
    match parse_items(ts) {
        Ok(items) => if items.len() == 0 {
            Err(SyntaxError::EmptyExpression)
        } else {
            Ok(fold_app(items))
        },
        Err(e) => Err(e),
    }
}

proof fn lemma_prepend_push(p: Seq<Term>, x: Term, r: Result<Seq<Term>, SyntaxError>)
    ensures
        prepend(p, prepend(seq![x], r)) == prepend(p.push(x), r),
{
    if let Ok(rest) = r {
        assert(p + (seq![x] + rest) =~= p.push(x) + rest);
    }
}

/// Read a term from a token sequence.
pub fn astize(tokens: &[Token]) -> (r: Result<Expr, SyntaxError>)
    ensures
        r matches Ok(e) ==> parse_tokens(tokens@) == Ok::<Term, SyntaxError>(e@),
        r matches Err(x) ==> parse_tokens(tokens@) == Err::<Term, SyntaxError>(x),
    decreases tokens@,
{
    let ghost ts = tokens@;
    let ghost mut items: Seq<Term> = Seq::empty();
    let mut acc: Option<Expr> = None;
    let mut i: usize = 0;
    proof {
        assert(ts.subrange(0, ts.len() as int) =~= ts);
        assert(prepend(items, parse_items(ts)) == parse_items(ts)) by {
            if let Ok(rest) = parse_items(ts) {
                assert(items + rest =~= rest);
            }
        }
    }
    while i < tokens.len()
        invariant
            i <= ts.len(),
            ts == tokens@,
            parse_items(ts) == prepend(items, parse_items(ts.subrange(i as int, ts.len() as int))),
            acc is None <==> items.len() == 0,
            acc matches Some(a) ==> a@ == fold_app(items),
        decreases ts.len() - i,
    {
        let ghost rest = ts.subrange(i as int, ts.len() as int);
        proof {
            assert(rest[0] == ts[i as int]);
            assert(rest.drop_first() =~= ts.subrange(i + 1, ts.len() as int));
        }
        let item: Expr;
        match &tokens[i] {
            Token::Ident(raw) => {
                let n = raw.as_str().unicode_len();
                if n > 0 && raw.as_str().get_char(0) == 'L' {
                    let name = raw.as_str().substring_char(1, n);
                    proof {
                        assert(rest.subrange(1, rest.len() as int) =~= ts.subrange(
                            i + 1,
                            ts.len() as int,
                        ));
                    }
                    let body = match astize(slice_subrange(tokens, i + 1, tokens.len())) {
                        Ok(b) => b,
                        Err(e) => {
                            return Err(e);
                        },
                    };
                    item = Expr::abstraction(name, body);
                    // the body takes up the rest of the tokens
                    i = tokens.len();
                    proof {
                        lemma_prepend_push(items, item@, Ok(Seq::empty()));
                        assert(seq![item@] + Seq::<Term>::empty() =~= seq![item@]);
                        assert(ts.subrange(i as int, ts.len() as int) =~= Seq::<Token>::empty());
                    }
                } else {
                    item = Expr::variable(raw.as_str());
                    i = i + 1;
                    proof {
                        lemma_prepend_push(items, item@, parse_items(rest.drop_first()));
                    }
                }
            },
            Token::Group(d, inner) => {
                match d {
                    Delimiter::Parenthesis => {},
                    _ => {
                        return Err(SyntaxError::InvalidDelimiter);
                    },
                }
                item = match astize(inner.as_slice()) {
                    Ok(x) => x,
                    Err(e) => {
                        return Err(e);
                    },
                };
                i = i + 1;
                proof {
                    lemma_prepend_push(items, item@, parse_items(rest.drop_first()));
                }
            },
            _ => {
                i = i + 1;
                continue ;
            },
        }
        proof {
            let old_items = items;
            items = items.push(item@);
            if old_items.len() > 0 {
                assert(items.drop_last() =~= old_items);
            }
        }
        acc = match acc {
            None => Some(item),
            Some(a) => Some(Expr::application(a, item)),
        };
    }
    proof {
        assert(ts.subrange(ts.len() as int, ts.len() as int) =~= Seq::<Token>::empty());
        assert(items + Seq::<Term>::empty() =~= items);
    }
    match acc {
        None => Err(SyntaxError::EmptyExpression),
        Some(e) => Ok(e),
    }
}

/// The names listed in a decorator's group, or the first error, from the left.
pub open spec fn input_names(ts: Seq<Token>) -> Result<Seq<Seq<char>>, SyntaxError>
    decreases ts.len(),
{
    if ts.len() == 0 {
        Ok(Seq::empty())
    } else {
        match ts[0] {
            Token::Ident(s) => match input_names(ts.drop_first()) {
                Ok(rest) => Ok(seq![s@] + rest),
                Err(e) => Err(e),
            },
            Token::Punct(c) => if c == ',' {
                input_names(ts.drop_first())
            } else {
                Err(SyntaxError::InvalidInputChar(c))
            },
            _ => Err(SyntaxError::InvalidInput),
        }
    }
}

/// The names that a list of strings holds.
pub open spec fn names_of(v: Seq<String>) -> Seq<Seq<char>> {
    v.map_values(|s: String| s@)
}

/// Collect the names of an input list: names separated by commas.
pub fn collect_inputs(tokens: &[Token]) -> (r: Result<Vec<String>, SyntaxError>)
    ensures
        r matches Ok(v) ==> input_names(tokens@) == Ok::<Seq<Seq<char>>, SyntaxError>(
            names_of(v@),
        ),
        r matches Err(e) ==> input_names(tokens@) == Err::<Seq<Seq<char>>, SyntaxError>(e),
{
    let ghost ts = tokens@;
    let mut inputs: Vec<String> = Vec::new();
    let mut i: usize = tokens.len();
    // the names are gathered from the right, so that the first error from the
    // left is the one reported
    let mut found: Option<SyntaxError> = None;
    proof {
        assert(ts.subrange(ts.len() as int, ts.len() as int) =~= Seq::<Token>::empty());
        assert(names_of(inputs@) =~= Seq::<Seq<char>>::empty());
    }
    while i > 0
        invariant
            i <= ts.len(),
            ts == tokens@,
            found matches Some(e) ==> input_names(ts.subrange(i as int, ts.len() as int)) == Err::<
                Seq<Seq<char>>,
                SyntaxError,
            >(e),
            found is None ==> input_names(ts.subrange(i as int, ts.len() as int)) == Ok::<
                Seq<Seq<char>>,
                SyntaxError,
            >(names_of(inputs@)),
        decreases i,
    {
        let ghost rest = ts.subrange(i - 1, ts.len() as int);
        proof {
            assert(rest[0] == ts[i - 1]);
            assert(rest.drop_first() =~= ts.subrange(i as int, ts.len() as int));
        }
        match &tokens[i - 1] {
            Token::Ident(ident) => {
                if found.is_none() {
                    let ghost before = inputs@;
                    inputs.insert(0, ident.clone());
                    proof {
                        assert(inputs@.drop_first() =~= before);
                        assert(names_of(inputs@) =~= seq![ident@] + names_of(before));
                    }
                }
            },
            Token::Punct(c) => {
                if *c != ',' {
                    found = Some(SyntaxError::InvalidInputChar(*c));
                }
            },
            _ => {
                found = Some(SyntaxError::InvalidInput);
            },
        }
        i = i - 1;
    }
    proof {
        assert(ts.subrange(0, ts.len() as int) =~= ts);
    }
    match found {
        Some(e) => Err(e),
        None => Ok(inputs),
    }
}

/// The position of the first `@` at or after `i`.
pub open spec fn first_at(ts: Seq<Token>, i: nat) -> Option<nat>
    decreases ts.len() - i,
{
    if i >= ts.len() {
        None
    } else if ts[i as int] == Token::Punct('@') {
        Some(i)
    } else {
        first_at(ts, i + 1)
    }
}

/// The word of the one decorator there is.
pub open spec fn input_word() -> Seq<char> {
    seq!['i', 'n', 'p', 'u', 't']
}

/// Where the term starts and which names the decorator lists: with no `@`,
/// the whole sequence and no names; with one, the tokens after
/// `@input(...)`, where the group must be parenthesized.
pub open spec fn decorator(ts: Seq<Token>) -> Result<(nat, Seq<Seq<char>>), SyntaxError> {
    match first_at(ts, 0) {
        None => Ok((0, Seq::empty())),
        Some(i) => {
            let j = i as int;
            if j + 1 < ts.len() && ts[j + 1] is Ident {
            let raw = ts[j + 1]->Ident_0;
            if raw@ != input_word() {
                Err(SyntaxError::UnknownDecorator(raw))
            } else if j + 2 < ts.len() && ts[j + 2] is Group {
                if ts[j + 2]->Group_0 != Delimiter::Parenthesis {
                    Err(SyntaxError::InvalidInputDelimiter)
                } else {
                    match input_names(ts[j + 2]->Group_1@) {
                        Ok(names) => Ok(((j + 3) as nat, names)),
                        Err(e) => Err(e),
                    }
                }
            } else {
                Err(SyntaxError::InvalidDecorator)
            }
        } else {
            Err(SyntaxError::InvalidDecorator)
        }
        },
    }
}

/// Split the `@input(...)` decorator off the tokens: the tokens of the term,
/// and the names it lists.
pub fn handle_io(tokens: &[Token]) -> (r: Result<(&[Token], Vec<String>), SyntaxError>)
    ensures
        r matches Ok((rest, names)) ==> decorator(tokens@) matches Ok((k, ns)) && rest@
            == tokens@.subrange(k as int, tokens@.len() as int) && names_of(names@) == ns,
        r matches Err(e) ==> decorator(tokens@) == Err::<(nat, Seq<Seq<char>>), SyntaxError>(e),
{
    let ghost ts = tokens@;
    let mut i: usize = 0;
    while i < tokens.len()
        invariant
            i <= ts.len(),
            ts == tokens@,
            first_at(ts, 0) == first_at(ts, i as nat),
        ensures
            i <= ts.len(),
            first_at(ts, 0) == first_at(ts, i as nat),
            i < ts.len() ==> ts[i as int] == Token::Punct('@'),
        decreases ts.len() - i,
    {
        match &tokens[i] {
            Token::Punct(c) => {
                if *c == '@' {
                    break ;
                }
            },
            _ => {},
        }
        i = i + 1;
    }
    if i == tokens.len() {
        proof {
            assert(ts.subrange(0, ts.len() as int) =~= ts);
            assert(names_of(Seq::<String>::empty()) =~= Seq::<Seq<char>>::empty());
        }
        return Ok((tokens, Vec::new()));
    }
    proof {
        reveal_strlit("input");
    }
    if i + 1 < tokens.len() {
        match &tokens[i + 1] {
            Token::Ident(raw) => {
                let word = String::from_str("input");
                proof {
                    assert(word@ =~= input_word());
                }
                if !raw.eq(&word) {
                    return Err(SyntaxError::UnknownDecorator(raw.clone()));
                }
                if i + 2 < tokens.len() {
                    match &tokens[i + 2] {
                        Token::Group(d, group) => {
                            match d {
                                Delimiter::Parenthesis => {},
                                _ => {
                                    return Err(SyntaxError::InvalidInputDelimiter);
                                },
                            }
                            let inputs = match collect_inputs(group.as_slice()) {
                                Ok(v) => v,
                                Err(e) => {
                                    return Err(e);
                                },
                            };
                            return Ok((slice_subrange(tokens, i + 3, tokens.len()), inputs));
                        },
                        _ => {},
                    }
                }
                Err(SyntaxError::InvalidDecorator)
            },
            _ => Err(SyntaxError::InvalidDecorator),
        }
    } else {
        Err(SyntaxError::InvalidDecorator)
    }
}

} // verus!
