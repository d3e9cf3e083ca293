//! What a declaration or an invocation can be refused for.

use vstd::prelude::*;
use vstd::string::StringExecFns;
use crate::token::Span;

verus! {

/// What is wrong with a declaration statement.
#[derive(Clone, Copy, Debug, PartialEq, Eq, Structural)]
pub enum DeclarationFault {
    /// The statement does not begin with the name of the callee.
    MissingName,
    /// The name is not followed by a parenthesised group.
    MissingParameters,
    /// Something follows the parenthesised group.
    TrailingTokens,
    /// An entry of the group is neither `name` nor `name = tokens`.
    MalformedParameter,
    /// A parameter name occurs a second time.
    DuplicateParameter,
}

/// What stands where the value of an argument should begin.
#[derive(Clone, Copy, Debug, PartialEq, Eq, Structural)]
pub enum EmptyValue {
    /// A comma: the one that ends the argument.
    Comma,
    /// Nothing: the invocation ends after the `=` of a keyword argument.
    End,
}

/// An error, with the place in the source that it is about.
///
/// Every error is local to one declaration or one invocation: the first one
/// found ends the scan, and nothing is accumulated.
#[derive(Debug, PartialEq, Eq)]
pub enum Diagnostic {
    /// The declaration statement does not have the form `name(params)`.
    DeclarationSyntaxError { span: Span, fault: DeclarationFault },
    /// The name is declared already, and the registry does not overwrite.
    Redeclaration { span: Span, name: String },
    /// A keyword argument names no parameter of the declaration.
    UnknownArgumentName { span: Span },
    /// A positional argument follows a keyword argument.
    OrderingViolation { span: Span },
    /// There are more positional arguments than parameters.
    ArityExceeded { span: Span, target: String, expected: usize },
    /// An argument has no tokens where its value should be. The span is that
    /// of the comma found there, or of the `=` that nothing follows.
    EmptyArgumentValue { span: Span, found: EmptyValue },
    /// A parameter without a default was given no value.
    MissingRequiredArgument { span: Span, name: String },
}

/// The mathematical value of a [`Diagnostic`].
pub enum DiagnosticView {
    DeclarationSyntaxError { span: Span, fault: DeclarationFault },
    Redeclaration { span: Span, name: Seq<char> },
    UnknownArgumentName { span: Span },
    OrderingViolation { span: Span },
    ArityExceeded { span: Span, target: Seq<char>, expected: nat },
    EmptyArgumentValue { span: Span, found: EmptyValue },
    MissingRequiredArgument { span: Span, name: Seq<char> },
}

impl View for Diagnostic {
    type V = DiagnosticView;

    open spec fn view(&self) -> DiagnosticView {
        match self {
            Diagnostic::DeclarationSyntaxError { span, fault } => {
                DiagnosticView::DeclarationSyntaxError { span: *span, fault: *fault }
            },
            Diagnostic::Redeclaration { span, name } => {
                DiagnosticView::Redeclaration { span: *span, name: name@ }
            },
            Diagnostic::UnknownArgumentName { span } => {
                DiagnosticView::UnknownArgumentName { span: *span }
            },
            Diagnostic::OrderingViolation { span } => {
                DiagnosticView::OrderingViolation { span: *span }
            },
            Diagnostic::ArityExceeded { span, target, expected } => {
                DiagnosticView::ArityExceeded {
                    span: *span,
                    target: target@,
                    expected: *expected as nat,
                }
            },
            Diagnostic::EmptyArgumentValue { span, found } => {
                DiagnosticView::EmptyArgumentValue { span: *span, found: *found }
            },
            Diagnostic::MissingRequiredArgument { span, name } => {
                DiagnosticView::MissingRequiredArgument { span: *span, name: name@ }
            },
        }
    }
}

impl DeepView for Diagnostic {
    type V = DiagnosticView;

    open spec fn deep_view(&self) -> DiagnosticView {
        self@
    }
}

/// The character for one decimal digit.
pub open spec fn spec_digit(d: nat) -> char {
    if d == 0 {
        '0'
    } else if d == 1 {
        '1'
    } else if d == 2 {
        '2'
    } else if d == 3 {
        '3'
    } else if d == 4 {
        '4'
    } else if d == 5 {
        '5'
    } else if d == 6 {
        '6'
    } else if d == 7 {
        '7'
    } else if d == 8 {
        '8'
    } else {
        '9'
    }
}

/// A number written in decimal, without leading zeros.
pub open spec fn spec_decimal(n: nat) -> Seq<char>
    decreases n,
{
    if n < 10 {
        seq![spec_digit(n)]
    } else {
        spec_decimal(n / 10).push(spec_digit(n % 10))
    }
}

fn digit(d: usize) -> (s: &'static str)
    requires
        d < 10,
    ensures
        s@ == seq![spec_digit(d as nat)],
{
    proof {
        reveal_strlit("0");
        reveal_strlit("1");
        reveal_strlit("2");
        reveal_strlit("3");
        reveal_strlit("4");
        reveal_strlit("5");
        reveal_strlit("6");
        reveal_strlit("7");
        reveal_strlit("8");
        reveal_strlit("9");
    }
    let s = if d == 0 {
        "0"
    } else if d == 1 {
        "1"
    } else if d == 2 {
        "2"
    } else if d == 3 {
        "3"
    } else if d == 4 {
        "4"
    } else if d == 5 {
        "5"
    } else if d == 6 {
        "6"
    } else if d == 7 {
        "7"
    } else if d == 8 {
        "8"
    } else {
        "9"
    };
    assert(s@ =~= seq![spec_digit(d as nat)]);
    s
}

/// Writes a number in decimal.
pub fn decimal(n: usize) -> (s: String)
    ensures
        s@ == spec_decimal(n as nat),
    decreases n,
{
    if n < 10 {
        String::from_str(digit(n))
    } else {
        let mut s = decimal(n / 10);
        s.append(digit(n % 10));
        assert(s@ =~= spec_decimal(n as nat));
        s
    }
}

impl DiagnosticView {
    /// The place in the source that the error is about.
    pub open spec fn span(self) -> Span {
        match self {
            DiagnosticView::DeclarationSyntaxError { span, .. } => span,
            DiagnosticView::Redeclaration { span, .. } => span,
            DiagnosticView::UnknownArgumentName { span } => span,
            DiagnosticView::OrderingViolation { span } => span,
            DiagnosticView::ArityExceeded { span, .. } => span,
            DiagnosticView::EmptyArgumentValue { span, .. } => span,
            DiagnosticView::MissingRequiredArgument { span, .. } => span,
        }
    }

    /// The text that describes the error to a reader of the source.
    pub open spec fn message(self) -> Seq<char> {
        match self {
            DiagnosticView::DeclarationSyntaxError { fault, .. } => match fault {
                DeclarationFault::MissingName => "expected the name of the function to declare"@,
                DeclarationFault::MissingParameters => {
                    "expected a parenthesized list of arguments after the name"@
                },
                DeclarationFault::TrailingTokens => {
                    "unexpected token after the list of arguments"@
                },
                DeclarationFault::MalformedParameter => {
                    "expected a sequence of `arg_name` or `arg_name = default_expr`"@
                },
                DeclarationFault::DuplicateParameter => "argument name is declared twice"@,
            },
            DiagnosticView::Redeclaration { name, .. } => {
                "`"@ + name + "` is declared already"@
            },
            DiagnosticView::UnknownArgumentName { .. } => "unknown argument name"@,
            DiagnosticView::OrderingViolation { .. } => {
                "positional arguments must precede keyword arguments"@
            },
            DiagnosticView::ArityExceeded { target, expected, .. } => {
                "too many arguments passed to `"@ + target + "` (expected "@ + spec_decimal(
                    expected,
                ) + ")"@
            },
            DiagnosticView::EmptyArgumentValue { found, .. } => match found {
                EmptyValue::Comma => "unexpected token: `,`"@,
                EmptyValue::End => "expected argument value after `=`"@,
            },
            DiagnosticView::MissingRequiredArgument { name, .. } => {
                "argument `"@ + name + "` is required, but not given a value"@
            },
        }
    }
}

impl Diagnostic {
    /// The place in the source that the error is about.
    pub fn span(&self) -> (sp: Span)
        ensures
            sp == self@.span(),
    {
        match self {
            Diagnostic::DeclarationSyntaxError { span, .. } => *span,
            Diagnostic::Redeclaration { span, .. } => *span,
            Diagnostic::UnknownArgumentName { span } => *span,
            Diagnostic::OrderingViolation { span } => *span,
            Diagnostic::ArityExceeded { span, .. } => *span,
            Diagnostic::EmptyArgumentValue { span, .. } => *span,
            Diagnostic::MissingRequiredArgument { span, .. } => *span,
        }
    }

    /// The text that describes the error to a reader of the source.
    pub fn message(&self) -> (s: String)
        ensures
            s@ == self@.message(),
    {
        match self {
            Diagnostic::DeclarationSyntaxError { fault, .. } => match fault {
                DeclarationFault::MissingName => {
                    String::from_str("expected the name of the function to declare")
                },
                DeclarationFault::MissingParameters => {
                    String::from_str("expected a parenthesized list of arguments after the name")
                },
                DeclarationFault::TrailingTokens => {
                    String::from_str("unexpected token after the list of arguments")
                },
                DeclarationFault::MalformedParameter => {
                    String::from_str(
                        "expected a sequence of `arg_name` or `arg_name = default_expr`",
                    )
                },
                DeclarationFault::DuplicateParameter => {
                    String::from_str("argument name is declared twice")
                },
            },
            Diagnostic::Redeclaration { name, .. } => {
                let mut s = String::from_str("`");
                s.append(name.as_str());
                s.append("` is declared already");
                s
            },
            Diagnostic::UnknownArgumentName { .. } => String::from_str("unknown argument name"),
            Diagnostic::OrderingViolation { .. } => {
                String::from_str("positional arguments must precede keyword arguments")
            },
            Diagnostic::ArityExceeded { target, expected, .. } => {
                let mut s = String::from_str("too many arguments passed to `");
                s.append(target.as_str());
                s.append("` (expected ");
                let count = decimal(*expected);
                s.append(count.as_str());
                s.append(")");
                s
            },
            Diagnostic::EmptyArgumentValue { found, .. } => match found {
                EmptyValue::Comma => String::from_str("unexpected token: `,`"),
                EmptyValue::End => String::from_str("expected argument value after `=`"),
            },
            Diagnostic::MissingRequiredArgument { name, .. } => {
                let mut s = String::from_str("argument `");
                s.append(name.as_str());
                s.append("` is required, but not given a value");
                s
            },
        }
    }
}

} // verus!
