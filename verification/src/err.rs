//! Translation failures. A translation either runs to completion or stops
//! at the first of these; nothing is retried or recovered.

use vstd::prelude::*;
use vstd::string::StringExecFns;

verus! {

/// Why a translation stopped.
#[derive(Copy, Clone, PartialEq, Eq, Structural, Debug)]
pub enum CError {
    /// The grammar cannot match the input.
    Syntax,
    /// A string literal converted to a type with no pointer level.
    StringToNonPtr,
    /// The unit type converted to a value type.
    VoidToNonVoid,
    /// A value type converted to the unit type.
    NonVoidToVoid,
    /// A conversion between a builtin and a non-builtin type.
    NotConvertible,
    /// Dereference of a type with no pointer level.
    DerefNonPtr,
    /// Dereference of a pointer to the unit type.
    DerefVoidPtr,
    /// A step operator applied to an immutable value.
    ConstOperand,
    /// A name that resolves to no binding of the active function.
    UnknownVariable,
    /// A call to a name no function table holds.
    UnknownFunction,
    /// A call with more arguments than the callee has parameters.
    TooManyArgs,
    /// A call with fewer arguments than the callee has parameters.
    LackOfArgs,
    /// An argument list that starts with a comma.
    UnexpectedComma,
    /// The same attribute declared twice on one function.
    DuplicateAttributes,
    /// A bare `return` in a function whose return type is not unit.
    ExpectedValue,
    /// An empty body in a function whose return type is not unit.
    EmptyBody,
    /// A line directive whose number cannot be read.
    WrongLineNumber,
    /// A file directive naming a source that was not supplied.
    MissingSource,
    /// File splicing nested deeper than the translator allows.
    TooDeep,
    /// A character outside ASCII in a plain string literal.
    NonAsciiString,
    /// An operator symbol that the operator table does not hold.
    UnknownOperator,
}

impl CError {
    /// A diagnostic line for this failure, fixed per variant.
    pub fn message(&self) -> (r: String)
        ensures
            r@ == (match self {
                CError::Syntax => "syntax error"@,
                CError::StringToNonPtr => "cannot cast string to non-ptr type"@,
                CError::VoidToNonVoid => "cannot cast void to non-void"@,
                CError::NonVoidToVoid => "cannot cast non-void to void"@,
                CError::NotConvertible => "type is not convertible to target"@,
                CError::DerefNonPtr => "cannot deref non-ptr"@,
                CError::DerefVoidPtr => "cannot deref `void *`"@,
                CError::ConstOperand => "cannot apply operator to const value"@,
                CError::UnknownVariable => "unknown variable"@,
                CError::UnknownFunction => "unknown function"@,
                CError::TooManyArgs => "too many args"@,
                CError::LackOfArgs => "lack of args"@,
                CError::UnexpectedComma => "unexpected comma"@,
                CError::DuplicateAttributes => "cannot have duplicate attributes"@,
                CError::ExpectedValue => "expected value"@,
                CError::EmptyBody => "it's not allowed to have empty body for functions, which return type is non-void"@,
                CError::WrongLineNumber => "wrong format"@,
                CError::MissingSource => "failed to find spliced file"@,
                CError::TooDeep => "file splicing nested too deeply"@,
                CError::NonAsciiString => "non-ascii character are not allowed in strings; try using `L` suffix to support it"@,
                CError::UnknownOperator => "unknown operator"@,
            }),
    {
        match self {
            CError::Syntax => String::from_str("syntax error"),
            CError::StringToNonPtr => String::from_str("cannot cast string to non-ptr type"),
            CError::VoidToNonVoid => String::from_str("cannot cast void to non-void"),
            CError::NonVoidToVoid => String::from_str("cannot cast non-void to void"),
            CError::NotConvertible => String::from_str("type is not convertible to target"),
            CError::DerefNonPtr => String::from_str("cannot deref non-ptr"),
            CError::DerefVoidPtr => String::from_str("cannot deref `void *`"),
            CError::ConstOperand => String::from_str("cannot apply operator to const value"),
            CError::UnknownVariable => String::from_str("unknown variable"),
            CError::UnknownFunction => String::from_str("unknown function"),
            CError::TooManyArgs => String::from_str("too many args"),
            CError::LackOfArgs => String::from_str("lack of args"),
            CError::UnexpectedComma => String::from_str("unexpected comma"),
            CError::DuplicateAttributes => String::from_str("cannot have duplicate attributes"),
            CError::ExpectedValue => String::from_str("expected value"),
            CError::EmptyBody => String::from_str(
                "it's not allowed to have empty body for functions, which return type is non-void",
            ),
            CError::WrongLineNumber => String::from_str("wrong format"),
            CError::MissingSource => String::from_str("failed to find spliced file"),
            CError::TooDeep => String::from_str("file splicing nested too deeply"),
            CError::NonAsciiString => String::from_str(
                "non-ascii character are not allowed in strings; try using `L` suffix to support it",
            ),
            CError::UnknownOperator => String::from_str("unknown operator"),
        }
    }
}

} // verus!
