//! Failures of the generator.
//!
//! Every detected violation aborts the whole expansion: the expansion
//! functions return `Err`, no partial output is produced.  Each variant
//! stands for one diagnostic of the generator; variants that name a
//! method carry the method's name.

use vstd::prelude::*;

verus! {

/// One reason the expansion was aborted.
#[derive(PartialEq, Eq, Debug)]
pub enum DelegationError {
    /// A `call` attribute whose argument is not a single identifier.
    CallSyntax,
    /// An `into` attribute in name-value form (`#[into = ...]`).
    IntoNameValue,
    /// An `into` attribute whose parenthesized argument is not a type path.
    IntoSyntax,
    /// A `try_into(unwrap)` attribute, superseded by `#[try_into]` with
    /// a separate `#[unwrap]`.
    TryIntoUnwrap,
    /// An `await` attribute without a literal `true` / `false` argument.
    AwaitSyntax,
    /// A `through` attribute whose argument is not a trait path.
    ThroughSyntax,
    /// A `const` attribute whose argument is not a path.
    ConstSyntax,
    /// A `const` attribute whose path has fewer than two segments.
    ConstNotMultipart,
    /// An `expr` attribute without a parenthesized template.
    ExprSyntax,
    /// More than one `await` attribute on the named method.
    MultipleAwait(String),
    /// More than one `call` attribute on the named method.
    MultipleCall(String),
    /// More than one `through` attribute on the named method.
    MultipleThrough(String),
    /// More than one `const` attribute on the named method.
    MultipleConst(String),
    /// More than one `expr` attribute on the named method.
    MultipleExpr(String),
    /// Both `call` and `const` on one method.
    CallAndConst,
    /// More than one `await` attribute on a segment.
    SegmentMultipleAwait,
    /// More than one `through` attribute on a segment.
    SegmentMultipleThrough,
    /// More than one `expr` attribute on a segment.
    SegmentMultipleExpr,
    /// A `call` attribute on a segment.
    SegmentCall,
    /// A `const` attribute on a segment.
    SegmentConst,
    /// The deprecated `target` keyword in place of `to`.
    DeprecatedTarget,
    /// A body on the named delegated method, where only a declaration is
    /// allowed.
    MethodBody(String),
    /// A delegated method parameter that is not a simple identifier, on
    /// the named method.
    NonIdentParam(String),
    /// More than one modifier attribute on one parameter.
    MultipleParamModifiers,
    /// A parameter modifier attribute other than `into`, `as_ref` or
    /// `newtype`.
    UnknownParamModifier,
    /// A delegation closure parameter without a type pattern.
    ClosureParamPattern,
    /// A delegation block that does not fit the grammar.
    Malformed,
}

/// The diagnostic text of each failure.
pub open spec fn spec_message(e: DelegationError) -> Seq<char> {
    match e {
        DelegationError::CallSyntax => "Cannot parse `call` attribute"@,
        DelegationError::IntoNameValue => "Cannot parse `into` attribute: expected parentheses"@,
        DelegationError::IntoSyntax => "Cannot parse `into` attribute"@,
        DelegationError::TryIntoUnwrap => "Replace #[try_into(unwrap)] with\n#[try_into]\n#[unwrap]"@,
        DelegationError::AwaitSyntax => "Cannot parse `await` attribute"@,
        DelegationError::ThroughSyntax => "Cannot parse `through` attribute"@,
        DelegationError::ConstSyntax => "Cannot parse `const` attribute\nExpected const path, e.g. #[const(path::to::MyTrait::CONST_NAME)]"@,
        DelegationError::ConstNotMultipart => "Expected a multipart path. e.g. #[const(path::to::MyTrait::CONST_NAME)]"@,
        DelegationError::ExprSyntax => "Cannot parse `expr` attribute"@,
        DelegationError::MultipleAwait(name) => "Multiple `await` attributes specified for "@ + name@,
        DelegationError::MultipleCall(name) => "Multiple call attributes specified for "@ + name@,
        DelegationError::MultipleThrough(name) => "Multiple through attributes specified for "@ + name@,
        DelegationError::MultipleConst(name) => "Multiple const attributes specified for "@ + name@,
        DelegationError::MultipleExpr(name) => "Multiple expr attributes specified for "@ + name@,
        DelegationError::CallAndConst => "Cannot use both `call` and `const` attributes."@,
        DelegationError::SegmentMultipleAwait => "Multiple `await` attributes specified for segment"@,
        DelegationError::SegmentMultipleThrough => "Multiple `through` attributes specified for segment"@,
        DelegationError::SegmentMultipleExpr => "Multiple `expr` attributes specified for segment"@,
        DelegationError::SegmentCall => "Call attribute cannot be specified on a `to <expr>` segment."@,
        DelegationError::SegmentConst => "Const attribute cannot be specified on a `to <expr>` segment."@,
        DelegationError::DeprecatedTarget => "You are using the old `target` expression, which is deprecated. Please replace `target` with `to`."@,
        DelegationError::MethodBody(name) => "Do not include implementation of delegated functions "@ + name@,
        DelegationError::NonIdentParam(name) => "You have to use simple identifiers for delegated method parameters "@ + name@,
        DelegationError::MultipleParamModifiers => "You can specify at most a single attribute for each parameter in a delegated method"@,
        DelegationError::UnknownParamModifier => "The attribute argument has to be `into` or `as_ref`, like this: `#[into] a: u32`."@,
        DelegationError::ClosureParamPattern => "Use a type pattern (`a: u32`) for delegation closure arguments"@,
        DelegationError::Malformed => "Cannot parse delegation block"@,
    }
}

impl DelegationError {
    /// The diagnostic text of this failure.
    pub fn message(&self) -> (r: String)
        ensures
            r@ == spec_message(*self),
    {
        match self {
            DelegationError::CallSyntax => "Cannot parse `call` attribute".to_owned(),
            DelegationError::IntoNameValue => "Cannot parse `into` attribute: expected parentheses".to_owned(),
            DelegationError::IntoSyntax => "Cannot parse `into` attribute".to_owned(),
            DelegationError::TryIntoUnwrap => "Replace #[try_into(unwrap)] with\n#[try_into]\n#[unwrap]".to_owned(),
            DelegationError::AwaitSyntax => "Cannot parse `await` attribute".to_owned(),
            DelegationError::ThroughSyntax => "Cannot parse `through` attribute".to_owned(),
            DelegationError::ConstSyntax => "Cannot parse `const` attribute\nExpected const path, e.g. #[const(path::to::MyTrait::CONST_NAME)]".to_owned(),
            DelegationError::ConstNotMultipart => "Expected a multipart path. e.g. #[const(path::to::MyTrait::CONST_NAME)]".to_owned(),
            DelegationError::ExprSyntax => "Cannot parse `expr` attribute".to_owned(),
            DelegationError::MultipleAwait(name) => concat_msg("Multiple `await` attributes specified for ", name),
            DelegationError::MultipleCall(name) => concat_msg("Multiple call attributes specified for ", name),
            DelegationError::MultipleThrough(name) => concat_msg("Multiple through attributes specified for ", name),
            DelegationError::MultipleConst(name) => concat_msg("Multiple const attributes specified for ", name),
            DelegationError::MultipleExpr(name) => concat_msg("Multiple expr attributes specified for ", name),
            DelegationError::CallAndConst => "Cannot use both `call` and `const` attributes.".to_owned(),
            DelegationError::SegmentMultipleAwait => "Multiple `await` attributes specified for segment".to_owned(),
            DelegationError::SegmentMultipleThrough => "Multiple `through` attributes specified for segment".to_owned(),
            DelegationError::SegmentMultipleExpr => "Multiple `expr` attributes specified for segment".to_owned(),
            DelegationError::SegmentCall => "Call attribute cannot be specified on a `to <expr>` segment.".to_owned(),
            DelegationError::SegmentConst => "Const attribute cannot be specified on a `to <expr>` segment.".to_owned(),
            DelegationError::DeprecatedTarget => "You are using the old `target` expression, which is deprecated. Please replace `target` with `to`.".to_owned(),
            DelegationError::MethodBody(name) => concat_msg("Do not include implementation of delegated functions ", name),
            DelegationError::NonIdentParam(name) => concat_msg("You have to use simple identifiers for delegated method parameters ", name),
            DelegationError::MultipleParamModifiers => "You can specify at most a single attribute for each parameter in a delegated method".to_owned(),
            DelegationError::UnknownParamModifier => "The attribute argument has to be `into` or `as_ref`, like this: `#[into] a: u32`.".to_owned(),
            DelegationError::ClosureParamPattern => "Use a type pattern (`a: u32`) for delegation closure arguments".to_owned(),
            DelegationError::Malformed => "Cannot parse delegation block".to_owned(),
        }
    }
}

/// A static message followed by a method name.
fn concat_msg(head: &str, name: &String) -> (r: String)
    ensures
        r@ == head@ + name@,
{
    let mut s = head.to_owned();
    s.append(name.as_str());
    s
}

} // verus!
