//! A verified core for a method-delegation code generator.
//!
//! The crate consumes a token tree describing one or more delegation
//! segments (`to <expr> { <method declarations> }`), resolves per-method
//! and per-segment attributes, and synthesizes the token tree of the
//! forwarding methods.

pub mod attributes;
pub mod errors;
pub mod expand;
pub mod parser;
pub mod template;
pub mod tokens;

use vstd::prelude::*;

use crate::errors::DelegationError;
use crate::tokens::Tok;

verus! {

/// Expand a delegation block given as a token sequence: parse the
/// segments and their method declarations, resolve every method's
/// annotations against its segment's defaults, and synthesize the
/// forwarding methods as one token sequence.  Any grammar violation
/// or annotation conflict aborts the expansion with its diagnostic
/// and produces no output.
pub fn delegate(tokens: &Vec<Tok>) -> (r: Result<Vec<Tok>, DelegationError>)
    ensures
        r matches Ok(out) ==> (crate::parser::spec_parse_block(crate::tokens::toks_view(tokens@))
            matches Some(b) && crate::expand::all_methods_ok(b) && crate::tokens::toks_view(out@)
            == crate::expand::spec_expand_block(b)),
        r is Err ==> (crate::parser::spec_parse_block(crate::tokens::toks_view(tokens@)) is None
            || (crate::parser::spec_parse_block(crate::tokens::toks_view(tokens@)) matches Some(b)
            && !crate::expand::all_methods_ok(b))),
        tokens@.len() == 0 ==> (r matches Ok(out) && out@.len() == 0),
{
    let block = match crate::parser::parse_delegation_block(tokens) {
        Ok(b) => b,
        Err(e) => {
            return Err(e);
        },
    };
    crate::expand::expand_block(&block)
}

} // verus!
