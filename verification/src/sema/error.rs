//! Errors of semantic analysis.

use vstd::prelude::*;
use vstd::string::StringExecFns;

use crate::span::Span;
use crate::text::{concat, decimal, decimal_text};

verus! {

/// Errors produced during semantic analysis of a SiliconScript module.
#[derive(Debug, Clone, PartialEq, Eq)]
pub enum SemaError {
    /// A name was used but never declared.
    UndefinedName { name: String, span: Span },
    /// A name was declared twice in one scope: `first` is the original
    /// declaration, `second` the conflicting one.
    DuplicateDefinition { name: String, first: Span, second: Span },
    /// The type of an expression is not what the context requires.
    TypeMismatch { expected: String, found: String, span: Span },
    /// The bit-width of a signal is not what the context requires.
    WidthMismatch { expected: u64, found: u64, span: Span },
    /// The left side of an assignment is not assignable.
    InvalidAssignTarget { span: Span },
    /// A combinational signal is not assigned on every path: a latch would be inferred.
    LatchInferred { signal: String, span: Span },
    /// A `match` does not cover every value.
    NonExhaustiveMatch { span: Span },
    /// A port of a module instance is left unconnected.
    UnconnectedPort { port: String, inst: String, span: Span },
    /// A construct is used where it is not permitted.
    InvalidContext { construct: String, context: String, span: Span },
    /// A constant expression could not be evaluated at compile time.
    ConstEvalError { message: String, span: Span },
    /// A cyclic dependency among the listed names.
    CyclicDependency { names: Vec<String>, span: Span },
    /// A signal is driven against its port or interface direction.
    DirectionViolation { message: String, span: Span },
    /// Any other error.
    Custom { message: String, span: Span },
}

/// An error with its text taken as character sequences: what contracts
/// compare errors by.
pub enum ErrorView {
    UndefinedName { name: Seq<char>, span: Span },
    DuplicateDefinition { name: Seq<char>, first: Span, second: Span },
    TypeMismatch { expected: Seq<char>, found: Seq<char>, span: Span },
    WidthMismatch { expected: u64, found: u64, span: Span },
    InvalidAssignTarget { span: Span },
    LatchInferred { signal: Seq<char>, span: Span },
    NonExhaustiveMatch { span: Span },
    UnconnectedPort { port: Seq<char>, inst: Seq<char>, span: Span },
    InvalidContext { construct: Seq<char>, context: Seq<char>, span: Span },
    ConstEvalError { message: Seq<char>, span: Span },
    CyclicDependency { names: Seq<Seq<char>>, span: Span },
    DirectionViolation { message: Seq<char>, span: Span },
    Custom { message: Seq<char>, span: Span },
}

impl View for SemaError {
    type V = ErrorView;

    open spec fn view(&self) -> ErrorView {
        match self {
            SemaError::UndefinedName { name, span } => ErrorView::UndefinedName { name: name@, span: *span },
            SemaError::DuplicateDefinition { name, first, second } => ErrorView::DuplicateDefinition {
                name: name@,
                first: *first,
                second: *second,
            },
            SemaError::TypeMismatch { expected, found, span } => ErrorView::TypeMismatch {
                expected: expected@,
                found: found@,
                span: *span,
            },
            SemaError::WidthMismatch { expected, found, span } => ErrorView::WidthMismatch {
                expected: *expected,
                found: *found,
                span: *span,
            },
            SemaError::InvalidAssignTarget { span } => ErrorView::InvalidAssignTarget { span: *span },
            SemaError::LatchInferred { signal, span } => ErrorView::LatchInferred { signal: signal@, span: *span },
            SemaError::NonExhaustiveMatch { span } => ErrorView::NonExhaustiveMatch { span: *span },
            SemaError::UnconnectedPort { port, inst, span } => ErrorView::UnconnectedPort {
                port: port@,
                inst: inst@,
                span: *span,
            },
            SemaError::InvalidContext { construct, context, span } => ErrorView::InvalidContext {
                construct: construct@,
                context: context@,
                span: *span,
            },
            SemaError::ConstEvalError { message, span } => ErrorView::ConstEvalError { message: message@, span: *span },
            SemaError::CyclicDependency { names, span } => ErrorView::CyclicDependency {
                names: names@.map_values(|n: String| n@),
                span: *span,
            },
            SemaError::DirectionViolation { message, span } => ErrorView::DirectionViolation {
                message: message@,
                span: *span,
            },
            SemaError::Custom { message, span } => ErrorView::Custom { message: message@, span: *span },
        }
    }
}

/// A list of errors, each by its view.
pub open spec fn errors_view(v: Seq<SemaError>) -> Seq<ErrorView> {
    v.map_values(|e: SemaError| e@)
}

/// Views of a list with one more error are the views of the list with that
/// error's view added.
pub broadcast proof fn lemma_errors_view_push(v: Seq<SemaError>, e: SemaError)
    ensures
        #[trigger] errors_view(v.push(e)) == errors_view(v).push(e@),
{
    assert(errors_view(v.push(e)) =~= errors_view(v).push(e@));
}

/// Views of two lists one after the other are the views of each, one after
/// the other.
pub proof fn lemma_errors_view_append(a: Seq<SemaError>, b: Seq<SemaError>)
    ensures
        errors_view(a + b) == errors_view(a) + errors_view(b),
{
    assert(errors_view(a + b) =~= errors_view(a) + errors_view(b));
}

/// The span reported for an error; the conflicting (second) one for a duplicate.
pub open spec fn error_span(e: SemaError) -> Span {
    match e {
        SemaError::UndefinedName { span, .. } => span,
        SemaError::DuplicateDefinition { second, .. } => second,
        SemaError::TypeMismatch { span, .. } => span,
        SemaError::WidthMismatch { span, .. } => span,
        SemaError::InvalidAssignTarget { span } => span,
        SemaError::LatchInferred { span, .. } => span,
        SemaError::NonExhaustiveMatch { span } => span,
        SemaError::UnconnectedPort { span, .. } => span,
        SemaError::InvalidContext { span, .. } => span,
        SemaError::ConstEvalError { span, .. } => span,
        SemaError::CyclicDependency { span, .. } => span,
        SemaError::DirectionViolation { span, .. } => span,
        SemaError::Custom { span, .. } => span,
    }
}

/// `S..E` for a span.
pub open spec fn range_text(s: Span) -> Seq<char> {
    decimal_text(s.start as nat) + ".."@ + decimal_text(s.end as nat)
}

/// The names joined with ` -> `.
pub open spec fn arrow_join(names: Seq<String>) -> Seq<char>
    decreases names.len(),
{
    if names.len() == 0 {
        Seq::empty()
    } else if names.len() == 1 {
        names[0]@
    } else {
        arrow_join(names.drop_last()) + " -> "@ + names.last()@
    }
}

/// The error as text.
pub open spec fn error_text(e: SemaError) -> Seq<char> {
    match e {
        SemaError::UndefinedName { name, span } => "undefined name `"@ + name@ + "` at "@ + range_text(span),
        SemaError::DuplicateDefinition { name, first, second } => "duplicate definition of `"@ + name@
            + "`: first defined at "@ + range_text(first) + ", redefined at "@ + range_text(second),
        SemaError::TypeMismatch { expected, found, span } => "type mismatch at "@ + range_text(span)
            + ": expected `"@ + expected@ + "`, found `"@ + found@ + "`"@,
        SemaError::WidthMismatch { expected, found, span } => "width mismatch at "@ + range_text(span)
            + ": expected "@ + decimal_text(expected as nat) + " bits, found "@ + decimal_text(found as nat)
            + " bits"@,
        SemaError::InvalidAssignTarget { span } => "invalid assignment target at "@ + range_text(span),
        SemaError::LatchInferred { signal, span } => "latch inferred for signal `"@ + signal@ + "` at "@
            + range_text(span) + ": signal is not assigned in all branches"@,
        SemaError::NonExhaustiveMatch { span } => "non-exhaustive match at "@ + range_text(span)
            + ": not all values are covered"@,
        SemaError::UnconnectedPort { port, inst, span } => "port `"@ + port@ + "` of instance `"@ + inst@
            + "` is unconnected at "@ + range_text(span),
        SemaError::InvalidContext { construct, context, span } => "`"@ + construct@ + "` is not valid in a `"@
            + context@ + "` context at "@ + range_text(span),
        SemaError::ConstEvalError { message, span } => "constant evaluation error at "@ + range_text(span)
            + ": "@ + message@,
        SemaError::CyclicDependency { names, span } => "cyclic dependency at "@ + range_text(span) + ": "@
            + arrow_join(names@),
        SemaError::DirectionViolation { message, span } => "direction violation at "@ + range_text(span)
            + ": "@ + message@,
        SemaError::Custom { message, span } => "semantic error at "@ + range_text(span) + ": "@ + message@,
    }
}

/// `S..E` for a span.
fn range_string(s: Span) -> (r: String)
    ensures
        r@ == range_text(s),
{
    let t = concat(decimal(s.start as u128).as_str(), "..");
    concat(t.as_str(), decimal(s.end as u128).as_str())
}

/// The names joined with ` -> `.
fn join_arrows(names: &Vec<String>) -> (r: String)
    ensures
        r@ == arrow_join(names@),
{
    let mut out = String::new();
    let mut i: usize = 0;
    while i < names.len()
        invariant
            i <= names@.len(),
            out@ == arrow_join(names@.take(i as int)),
        decreases names@.len() - i,
    {
        proof {
            assert(names@.take(i + 1).drop_last() =~= names@.take(i as int));
        }
        if i == 0 {
            out = String::from_str(names[0].as_str());
        } else {
            out = concat(out.as_str(), " -> ");
            out = concat(out.as_str(), names[i].as_str());
        }
        i = i + 1;
    }
    proof {
        assert(names@.take(names@.len() as int) =~= names@);
    }
    out
}

/// `a`, `b`, `c` and `d` in order.
fn cat4(a: &str, b: &str, c: &str, d: &str) -> (r: String)
    ensures
        r@ == a@ + b@ + c@ + d@,
{
    concat(concat(concat(a, b).as_str(), c).as_str(), d)
}

impl SemaError {
    /// The span of the error; for a duplicate definition, the second
    /// (conflicting) site.
    pub fn span(&self) -> (r: Span)
        ensures
            r == error_span(*self),
    {
        match self {
            SemaError::UndefinedName { span, .. } => *span,
            SemaError::DuplicateDefinition { second, .. } => *second,
            SemaError::TypeMismatch { span, .. } => *span,
            SemaError::WidthMismatch { span, .. } => *span,
            SemaError::InvalidAssignTarget { span } => *span,
            SemaError::LatchInferred { span, .. } => *span,
            SemaError::NonExhaustiveMatch { span } => *span,
            SemaError::UnconnectedPort { span, .. } => *span,
            SemaError::InvalidContext { span, .. } => *span,
            SemaError::ConstEvalError { span, .. } => *span,
            SemaError::CyclicDependency { span, .. } => *span,
            SemaError::DirectionViolation { span, .. } => *span,
            SemaError::Custom { span, .. } => *span,
        }
    }

    /// The error as text.
    pub fn to_string(&self) -> (r: String)
        ensures
            r@ == error_text(*self),
    {
        match self {
            SemaError::UndefinedName { name, span } => {
                let s = cat4("undefined name `", name.as_str(), "` at ", range_string(*span).as_str());
                s
            },
            SemaError::DuplicateDefinition { name, first, second } => {
                let s = cat4("duplicate definition of `", name.as_str(), "`: first defined at ", range_string(*first).as_str());
                concat(concat(s.as_str(), ", redefined at ").as_str(), range_string(*second).as_str())
            },
            SemaError::TypeMismatch { expected, found, span } => {
                let s = cat4("type mismatch at ", range_string(*span).as_str(), ": expected `", expected.as_str());
                cat4(s.as_str(), "`, found `", found.as_str(), "`")
            },
            SemaError::WidthMismatch { expected, found, span } => {
                let s = cat4("width mismatch at ", range_string(*span).as_str(), ": expected ", decimal(*expected as u128).as_str());
                cat4(s.as_str(), " bits, found ", decimal(*found as u128).as_str(), " bits")
            },
            SemaError::InvalidAssignTarget { span } => concat("invalid assignment target at ", range_string(*span).as_str()),
            SemaError::LatchInferred { signal, span } => {
                let s = cat4("latch inferred for signal `", signal.as_str(), "` at ", range_string(*span).as_str());
                concat(s.as_str(), ": signal is not assigned in all branches")
            },
            SemaError::NonExhaustiveMatch { span } => {
                let s = concat("non-exhaustive match at ", range_string(*span).as_str());
                concat(s.as_str(), ": not all values are covered")
            },
            SemaError::UnconnectedPort { port, inst, span } => {
                let s = cat4("port `", port.as_str(), "` of instance `", inst.as_str());
                concat(concat(s.as_str(), "` is unconnected at ").as_str(), range_string(*span).as_str())
            },
            SemaError::InvalidContext { construct, context, span } => {
                let s = cat4("`", construct.as_str(), "` is not valid in a `", context.as_str());
                concat(concat(s.as_str(), "` context at ").as_str(), range_string(*span).as_str())
            },
            SemaError::ConstEvalError { message, span } => {
                cat4("constant evaluation error at ", range_string(*span).as_str(), ": ", message.as_str())
            },
            SemaError::CyclicDependency { names, span } => {
                cat4("cyclic dependency at ", range_string(*span).as_str(), ": ", join_arrows(names).as_str())
            },
            SemaError::DirectionViolation { message, span } => {
                cat4("direction violation at ", range_string(*span).as_str(), ": ", message.as_str())
            },
            SemaError::Custom { message, span } => {
                cat4("semantic error at ", range_string(*span).as_str(), ": ", message.as_str())
            },
        }
    }
}

} // verus!
