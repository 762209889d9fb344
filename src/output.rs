//! What a normal form hands back to the caller of the `lambda!` front end: a
//! declared input name, or a nested pair of them for an application.
use vstd::prelude::*;
use crate::ast::Expr;
use crate::syntax::names_of;
use crate::term::Term;

verus! {

/// The value of a normal form: an input name, or a pair for an application.
#[derive(Debug, PartialEq, Eq)]
pub enum Output {
    Name(String),
    Tuple(Box<Output>, Box<Output>),
}

/// Why a normal form cannot be handed back.
#[derive(Debug, PartialEq, Eq)]
pub enum OutputError {
    /// The normal form mentions a name that is not declared as an input.
    Undeclared(String),
    /// A part of an application is an abstraction.
    NotAValue,
}

/// An output as the proofs see it.
pub enum OutputView {
    Name(Seq<char>),
    Tuple(Box<OutputView>, Box<OutputView>),
}

/// An output error as the proofs see it.
pub enum OutputFault {
    Undeclared(Seq<char>),
    NotAValue,
}

impl View for Output {
    type V = OutputView;

    open spec fn view(&self) -> OutputView
        decreases self,
    {
        match self {
            Output::Name(s) => OutputView::Name(s@),
            Output::Tuple(l, r) => OutputView::Tuple(Box::new((**l)@), Box::new((**r)@)),
        }
    }
}

impl View for OutputError {
    type V = OutputFault;

    open spec fn view(&self) -> OutputFault {
        match self {
            OutputError::Undeclared(s) => OutputFault::Undeclared(s@),
            OutputError::NotAValue => OutputFault::NotAValue,
        }
    }
}

/// The output of a term: none for an abstraction; a name if it is declared;
/// a pair for an application whose two sides both have an output.
pub open spec fn output_of(t: Term, inputs: Seq<Seq<char>>) -> Result<
    Option<OutputView>,
    OutputFault,
>
    decreases t,
{
    match t {
        Term::Abs(_, _) => Ok(None),
        Term::App(f, a) => match output_of(*f, inputs) {
            Err(e) => Err(e),
            Ok(None) => Err(OutputFault::NotAValue),
            Ok(Some(l)) => match output_of(*a, inputs) {
                Err(e) => Err(e),
                Ok(None) => Err(OutputFault::NotAValue),
                Ok(Some(r)) => Ok(Some(OutputView::Tuple(Box::new(l), Box::new(r)))),
            },
        },
        Term::Var(v) => if inputs.contains(v.name) {
            Ok(Some(OutputView::Name(v.name)))
        } else {
            Err(OutputFault::Undeclared(v.name))
        },
    }
}

/// The output of a term that must have one.
pub open spec fn valid_output(t: Term, inputs: Seq<Seq<char>>) -> Result<OutputView, OutputFault> {
    match output_of(t, inputs) {
        Ok(Some(o)) => Ok(o),
        Ok(None) => Err(OutputFault::NotAValue),
        Err(e) => Err(e),
    }
}

/// The view of what `construct_output` returns.
pub open spec fn view_optional(r: Result<Option<Output>, OutputError>) -> Result<
    Option<OutputView>,
    OutputFault,
> {
    match r {
        Ok(Some(o)) => Ok(Some(o@)),
        Ok(None) => Ok(None),
        Err(e) => Err(e@),
    }
}

/// The view of what `extract_valid_output` returns.
pub open spec fn view_required(r: Result<Output, OutputError>) -> Result<OutputView, OutputFault> {
    match r {
        Ok(o) => Ok(o@),
        Err(e) => Err(e@),
    }
}

/// Whether `name` is one of the declared names.
fn is_declared(name: &String, valid_outputs: &[String]) -> (r: bool)
    ensures
        r == names_of(valid_outputs@).contains(name@),
{
    let ghost names = names_of(valid_outputs@);
    let mut i: usize = 0;
    while i < valid_outputs.len()
        invariant
            i <= valid_outputs@.len(),
            names == names_of(valid_outputs@),
            forall|j: int| 0 <= j < i ==> names[j] != name@,
        decreases valid_outputs@.len() - i,
    {
        if valid_outputs[i].eq(name) {
            assert(names[i as int] == name@);
            return true;
        }
        i = i + 1;
    }
    false
}

/// Convert variable-only applications to nested pairs of declared names.
pub fn construct_output(expr: &Expr, valid_outputs: &[String]) -> (r: Result<
    Option<Output>,
    OutputError,
>)
    ensures
        view_optional(r) == output_of(expr@, names_of(valid_outputs@)),
    decreases expr, 1nat,
{
    match expr {
        Expr::Abstraction(_, _) => Ok(None),
        Expr::Application(e1, e2) => {
            let l = match extract_valid_output(e1, valid_outputs) {
                Ok(o) => o,
                Err(e) => {
                    return Err(e);
                },
            };
            let r = match extract_valid_output(e2, valid_outputs) {
                Ok(o) => o,
                Err(e) => {
                    return Err(e);
                },
            };
            Ok(Some(Output::Tuple(Box::new(l), Box::new(r))))
        },
        Expr::Variable(v) => {
            let name = v.name();
            if is_declared(name, valid_outputs) {
                Ok(Some(Output::Name(name.clone())))
            } else {
                Err(OutputError::Undeclared(name.clone()))
            }
        },
    }
}

/// The output of an expression that must have one.
pub fn extract_valid_output(expr: &Expr, valid_outputs: &[String]) -> (r: Result<
    Output,
    OutputError,
>)
    ensures
        view_required(r) == valid_output(expr@, names_of(valid_outputs@)),
    decreases expr, 2nat,
{
    match construct_output(expr, valid_outputs) {
        Ok(Some(o)) => Ok(o),
        Ok(None) => Err(OutputError::NotAValue),
        Err(e) => Err(e),
    }
}

} // verus!
