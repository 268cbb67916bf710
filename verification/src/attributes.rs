//! The attribute model.
//!
//! A fixed vocabulary of per-method annotations (`call`, `into`,
//! `try_into`, `unwrap`, `await`, `through`, `const`, `expr`) and the
//! same vocabulary minus `call`/`const` per segment.  Each is parsed
//! into a typed representation; all other annotations pass through
//! untouched for reattachment.  A merge operation applies segment-level
//! defaults to every method.

use vstd::prelude::*;

use crate::errors::DelegationError;
use crate::template::{template_of, TemplateExpr, TemplateTokM};
use crate::tokens::{copy_toks, str_eq, toks_view, Delim, Tok, TokM};

verus! {

/// The arguments of an annotation: none (`#[name]`), delimited
/// (`#[name(...)]`, with the original delimiter kept), or name-value
/// (`#[name = ...]`).
#[derive(PartialEq, Eq, Debug)]
pub enum AttrArgs {
    Empty,
    Delimited(Delim, Vec<Tok>),
    NameValue(Vec<Tok>),
}

/// One outer annotation: its path tokens and its arguments.
#[derive(PartialEq, Eq, Debug)]
pub struct Attr {
    pub path: Vec<Tok>,
    pub args: AttrArgs,
}

/// The model of an annotation's arguments.
pub enum AttrArgsM {
    Empty,
    Delimited(Delim, Seq<TokM>),
    NameValue(Seq<TokM>),
}

/// The model of an annotation.
pub struct AttrM {
    pub path: Seq<TokM>,
    pub args: AttrArgsM,
}

impl View for AttrArgs {
    type V = AttrArgsM;

    open spec fn view(&self) -> AttrArgsM {
        match self {
            AttrArgs::Empty => AttrArgsM::Empty,
            AttrArgs::Delimited(d, ts) => AttrArgsM::Delimited(*d, toks_view(ts@)),
            AttrArgs::NameValue(ts) => AttrArgsM::NameValue(toks_view(ts@)),
        }
    }
}

impl View for Attr {
    type V = AttrM;

    open spec fn view(&self) -> AttrM {
        AttrM { path: toks_view(self.path@), args: self.args@ }
    }
}

/// The models of a sequence of annotations, element by element.
pub open spec fn attrs_view(s: Seq<Attr>) -> Seq<AttrM> {
    Seq::new(s.len(), |i: int| s[i]@)
}

/// A return-value transform, applied after the delegated call.
#[derive(PartialEq, Eq, Debug)]
pub enum ReturnExpression {
    /// Wrap in a conversion, optionally to an explicit type.
    Into(Option<Vec<Tok>>),
    /// Wrap in a fallible conversion.
    TryInto,
    /// Unwrap the result.
    Unwrap,
}

/// The model of a return-value transform.
pub enum ReturnExprM {
    Into(Option<Seq<TokM>>),
    TryInto,
    Unwrap,
}

impl View for ReturnExpression {
    type V = ReturnExprM;

    open spec fn view(&self) -> ReturnExprM {
        match self {
            ReturnExpression::Into(o) => ReturnExprM::Into(
                match o {
                    Some(ts) => Some(toks_view(ts@)),
                    None => None,
                },
            ),
            ReturnExpression::TryInto => ReturnExprM::TryInto,
            ReturnExpression::Unwrap => ReturnExprM::Unwrap,
        }
    }
}

/// The models of a sequence of return transforms.
pub open spec fn rexprs_view(s: Seq<ReturnExpression>) -> Seq<ReturnExprM> {
    Seq::new(s.len(), |i: int| s[i]@)
}

/// An associated-constant access: the constant's name and the trait
/// that owns it.
#[derive(PartialEq, Eq, Debug)]
pub struct AssociatedConstant {
    pub const_name: Vec<Tok>,
    pub trait_path: Vec<Tok>,
}

/// The model of an associated-constant access.
pub struct AssociatedConstantM {
    pub const_name: Seq<TokM>,
    pub trait_path: Seq<TokM>,
}

impl View for AssociatedConstant {
    type V = AssociatedConstantM;

    open spec fn view(&self) -> AssociatedConstantM {
        AssociatedConstantM {
            const_name: toks_view(self.const_name@),
            trait_path: toks_view(self.trait_path@),
        }
    }
}

/// The trait named by a `through` annotation, for qualified dispatch.
#[derive(PartialEq, Eq, Debug)]
pub struct TraitTarget {
    pub type_path: Vec<Tok>,
}

impl View for TraitTarget {
    type V = Seq<TokM>;

    open spec fn view(&self) -> Seq<TokM> {
        toks_view(self.type_path@)
    }
}

/// One recognized annotation, in typed form.
#[derive(PartialEq, Eq, Debug)]
pub enum ParsedAttribute {
    ReturnExpression(ReturnExpression),
    Await(bool),
    TargetMethod(String),
    ThroughTrait(TraitTarget),
    ConstantAccess(AssociatedConstant),
    Expr(TemplateExpr),
}

/// The model of a recognized annotation.
pub enum ParsedAttrM {
    ReturnExpression(ReturnExprM),
    Await(bool),
    TargetMethod(Seq<char>),
    ThroughTrait(Seq<TokM>),
    ConstantAccess(AssociatedConstantM),
    Expr(Seq<TemplateTokM>),
}

impl View for ParsedAttribute {
    type V = ParsedAttrM;

    open spec fn view(&self) -> ParsedAttrM {
        match self {
            ParsedAttribute::ReturnExpression(r) => ParsedAttrM::ReturnExpression(r@),
            ParsedAttribute::Await(b) => ParsedAttrM::Await(*b),
            ParsedAttribute::TargetMethod(n) => ParsedAttrM::TargetMethod(n@),
            ParsedAttribute::ThroughTrait(t) => ParsedAttrM::ThroughTrait(t@),
            ParsedAttribute::ConstantAccess(c) => ParsedAttrM::ConstantAccess(c@),
            ParsedAttribute::Expr(t) => ParsedAttrM::Expr(t@),
        }
    }
}

/// The resolved attributes of one method, after recognition (and, once
/// merged, after segment defaults).
#[derive(PartialEq, Eq, Debug)]
pub struct MethodAttributes {
    /// Unrecognized annotations, reattached verbatim.
    pub attributes: Vec<Attr>,
    /// Rename of the invoked method.
    pub target_method: Option<String>,
    /// Queued return transforms, applied in order.
    pub expressions: Vec<ReturnExpression>,
    /// Whether to suffix `.await`; inferred from the declaration when
    /// absent.
    pub generate_await: Option<bool>,
    /// Trait path for qualified dispatch.
    pub target_trait: Option<Vec<Tok>>,
    /// Associated-constant access.
    pub associated_constant: Option<AssociatedConstant>,
    /// Custom template for the call expression.
    pub expr_attr: Option<TemplateExpr>,
}

/// The model of resolved method attributes.
pub struct MethodAttributesM {
    pub attributes: Seq<AttrM>,
    pub target_method: Option<Seq<char>>,
    pub expressions: Seq<ReturnExprM>,
    pub generate_await: Option<bool>,
    pub target_trait: Option<Seq<TokM>>,
    pub associated_constant: Option<AssociatedConstantM>,
    pub expr_attr: Option<Seq<TemplateTokM>>,
}

impl View for MethodAttributes {
    type V = MethodAttributesM;

    open spec fn view(&self) -> MethodAttributesM {
        MethodAttributesM {
            attributes: attrs_view(self.attributes@),
            target_method: match self.target_method {
                Some(n) => Some(n@),
                None => None,
            },
            expressions: rexprs_view(self.expressions@),
            generate_await: self.generate_await,
            target_trait: match &self.target_trait {
                Some(ts) => Some(toks_view(ts@)),
                None => None,
            },
            associated_constant: match &self.associated_constant {
                Some(c) => Some(c@),
                None => None,
            },
            expr_attr: match &self.expr_attr {
                Some(t) => Some(t@),
                None => None,
            },
        }
    }
}

/// The resolved attributes of one segment: defaults for every method
/// in it.
#[derive(PartialEq, Eq, Debug)]
pub struct SegmentAttributes {
    pub expressions: Vec<ReturnExpression>,
    pub generate_await: Option<bool>,
    pub target_trait: Option<Vec<Tok>>,
    /// Unrecognized annotations, added to each method's own unless one
    /// of the same name is already there.
    pub other_attrs: Vec<Attr>,
    pub expr_attr: Option<TemplateExpr>,
}

/// The model of resolved segment attributes.
pub struct SegmentAttributesM {
    pub expressions: Seq<ReturnExprM>,
    pub generate_await: Option<bool>,
    pub target_trait: Option<Seq<TokM>>,
    pub other_attrs: Seq<AttrM>,
    pub expr_attr: Option<Seq<TemplateTokM>>,
}

impl View for SegmentAttributes {
    type V = SegmentAttributesM;

    open spec fn view(&self) -> SegmentAttributesM {
        SegmentAttributesM {
            expressions: rexprs_view(self.expressions@),
            generate_await: self.generate_await,
            target_trait: match &self.target_trait {
                Some(ts) => Some(toks_view(ts@)),
                None => None,
            },
            other_attrs: attrs_view(self.other_attrs@),
            expr_attr: match &self.expr_attr {
                Some(t) => Some(t@),
                None => None,
            },
        }
    }
}

impl Attr {
    /// The annotation's name: the text of its path when that is one
    /// single identifier.
    pub fn name(&self) -> (r: Option<&String>)
        ensures
            attr_ident(self@) matches Some(n) ==> r matches Some(s) && s@ == n,
            attr_ident(self@) is None ==> r is None,
    {
        if self.path.len() == 1 {
            match &self.path[0] {
                Tok::Ident(s) => Some(s),
                _ => None,
            }
        } else {
            None
        }
    }

    /// A deep copy of the annotation.
    pub fn duplicate(&self) -> (r: Attr)
        ensures
            r@ == self@,
    {
        let path = copy_toks(&self.path);
        let args = match &self.args {
            AttrArgs::Empty => AttrArgs::Empty,
            AttrArgs::Delimited(d, ts) => AttrArgs::Delimited(*d, copy_toks(ts)),
            AttrArgs::NameValue(ts) => AttrArgs::NameValue(copy_toks(ts)),
        };
        Attr { path, args }
    }
}

/// The name of an annotation whose path is a single identifier.
pub open spec fn attr_ident(a: AttrM) -> Option<Seq<char>> {
    if a.path.len() == 1 && a.path[0] is Ident {
        Some(a.path[0]->Ident_0)
    } else {
        None
    }
}

/// The recognized vocabulary.  An annotation whose path is not one of
/// these single identifiers passes through.
pub enum AttrKind {
    Call,
    Into,
    TryInto,
    Unwrap,
    Await,
    Through,
    Const,
    Expr,
    Other,
}

/// Which recognized annotation, if any, this is.
pub open spec fn attr_kind(a: AttrM) -> AttrKind {
    match attr_ident(a) {
        None => AttrKind::Other,
        Some(n) => if n == "call"@ {
            AttrKind::Call
        } else if n == "into"@ {
            AttrKind::Into
        } else if n == "try_into"@ {
            AttrKind::TryInto
        } else if n == "unwrap"@ {
            AttrKind::Unwrap
        } else if n == "await"@ {
            AttrKind::Await
        } else if n == "through"@ {
            AttrKind::Through
        } else if n == "const"@ {
            AttrKind::Const
        } else if n == "expr"@ {
            AttrKind::Expr
        } else {
            AttrKind::Other
        },
    }
}

/// The mandatory boolean argument of an `await` annotation, if well
/// formed.
pub open spec fn await_arg(a: AttrM) -> Option<bool> {
    match a.args {
        AttrArgsM::Delimited(_, ts) => if ts.len() == 1 && ts[0] is Ident {
            if ts[0]->Ident_0 == "true"@ {
                Some(true)
            } else if ts[0]->Ident_0 == "false"@ {
                Some(false)
            } else {
                None
            }
        } else {
            None
        },
        _ => None,
    }
}

/// The single-identifier argument of a `call` annotation, if well
/// formed.
pub open spec fn call_arg(a: AttrM) -> Option<Seq<char>> {
    match a.args {
        AttrArgsM::Delimited(_, ts) => if ts.len() == 1 && ts[0] is Ident {
            Some(ts[0]->Ident_0)
        } else {
            None
        },
        _ => None,
    }
}

/// The non-empty delimited argument tokens of an annotation, if present.
pub open spec fn delimited_arg(a: AttrM) -> Option<Seq<TokM>> {
    match a.args {
        AttrArgsM::Delimited(_, ts) => if ts.len() > 0 {
            Some(ts)
        } else {
            None
        },
        _ => None,
    }
}

/// Whether a `try_into` annotation carries an `unwrap` argument
/// (superseded syntax).
pub open spec fn try_into_has_unwrap(a: AttrM) -> bool {
    match a.args {
        AttrArgsM::Delimited(_, ts) => exists|i: int|
            #![trigger ts[i]]
            0 <= i < ts.len() && (ts[i] matches TokM::Ident(n) && n == "unwrap"@),
        _ => false,
    }
}

/// Whether the tokens are a plain path: identifiers joined by `::`.
pub open spec fn is_plain_path(ts: Seq<TokM>) -> bool {
    &&& ts.len() % 3 == 1
    &&& forall|i: int|
        0 <= i < ts.len() ==> if i % 3 == 0 {
            ts[i] is Ident
        } else {
            ts[i] == TokM::Punct(':')
        }
}

/// Whether the tokens open with a leading `::`.
pub open spec fn has_leading_colons(ts: Seq<TokM>) -> bool {
    ts.len() >= 2 && ts[0] == TokM::Punct(':') && ts[1] == TokM::Punct(':')
}

/// The tokens of a path without its optional leading `::`.
pub open spec fn path_body(ts: Seq<TokM>) -> Seq<TokM> {
    if has_leading_colons(ts) {
        ts.skip(2)
    } else {
        ts
    }
}

/// What one annotation is recognized as: a typed parse, a pass-through
/// (`Ok(None)`), or a failure of the expansion.
pub open spec fn classify(a: AttrM) -> Result<Option<ParsedAttrM>, DelegationError> {
    match attr_kind(a) {
        AttrKind::Other => Ok(None),
        AttrKind::Call => match call_arg(a) {
            Some(n) => Ok(Some(ParsedAttrM::TargetMethod(n))),
            None => Err(DelegationError::CallSyntax),
        },
        AttrKind::Into => match a.args {
            AttrArgsM::Empty => Ok(Some(ParsedAttrM::ReturnExpression(ReturnExprM::Into(None)))),
            AttrArgsM::NameValue(_) => Err(DelegationError::IntoNameValue),
            AttrArgsM::Delimited(_, ts) => if ts.len() > 0 {
                Ok(Some(ParsedAttrM::ReturnExpression(ReturnExprM::Into(Some(ts)))))
            } else {
                Err(DelegationError::IntoSyntax)
            },
        },
        AttrKind::TryInto => if try_into_has_unwrap(a) {
            Err(DelegationError::TryIntoUnwrap)
        } else {
            Ok(Some(ParsedAttrM::ReturnExpression(ReturnExprM::TryInto)))
        },
        AttrKind::Unwrap => Ok(Some(ParsedAttrM::ReturnExpression(ReturnExprM::Unwrap))),
        AttrKind::Await => match await_arg(a) {
            Some(b) => Ok(Some(ParsedAttrM::Await(b))),
            None => Err(DelegationError::AwaitSyntax),
        },
        AttrKind::Through => match delimited_arg(a) {
            Some(ts) => Ok(Some(ParsedAttrM::ThroughTrait(ts))),
            None => Err(DelegationError::ThroughSyntax),
        },
        AttrKind::Const => match delimited_arg(a) {
            Some(ts) => if !is_plain_path(path_body(ts)) {
                Err(DelegationError::ConstSyntax)
            } else if path_body(ts).len() < 4 {
                Err(DelegationError::ConstNotMultipart)
            } else {
                Ok(Some(ParsedAttrM::ConstantAccess(AssociatedConstantM {
                    const_name: seq![ts[ts.len() - 1]],
                    trait_path: ts.take(ts.len() - 3),
                })))
            },
            None => Err(DelegationError::ConstSyntax),
        },
        AttrKind::Expr => match delimited_arg(a) {
            Some(ts) => Ok(Some(ParsedAttrM::Expr(template_of(ts)))),
            None => Err(DelegationError::ExprSyntax),
        },
    }
}

/// Whether the sequence holds the given identifier at top level.
fn contains_ident(ts: &Vec<Tok>, s: &str) -> (r: bool)
    ensures
        r == exists|i: int|
            #![trigger toks_view(ts@)[i]]
            0 <= i < ts@.len() && (toks_view(ts@)[i] matches TokM::Ident(n) && n == s@),
{
    let mut i: usize = 0;
    while i < ts.len()
        invariant
            i <= ts@.len(),
            forall|j: int|
                #![trigger toks_view(ts@)[j]]
                0 <= j < i ==> !(toks_view(ts@)[j] matches TokM::Ident(n) && n == s@),
        decreases ts@.len() - i,
    {
        if ts[i].is_ident(s) {
            proof {
                assert(toks_view(ts@)[i as int] matches TokM::Ident(n) && n == s@);
            }
            return true;
        }
        i += 1;
    }
    false
}

/// Whether the tokens from `from` on are a plain path of identifiers
/// joined by `::`.
#[verifier::loop_isolation(false)]
fn check_plain_path(ts: &Vec<Tok>, from: usize) -> (r: bool)
    requires
        from <= ts@.len(),
    ensures
        r == is_plain_path(toks_view(ts@).skip(from as int)),
{
    let ghost body = toks_view(ts@).skip(from as int);
    if (ts.len() - from) % 3 != 1 {
        return false;
    }
    let mut i: usize = from;
    while i < ts.len()
        invariant
            from <= i <= ts@.len(),
            forall|j: int|
                0 <= j < i - from ==> if j % 3 == 0 {
                    body[j] is Ident
                } else {
                    body[j] == TokM::Punct(':')
                },
        decreases ts@.len() - i,
    {
        proof {
            assert(body[i - from] == toks_view(ts@)[i as int]);
        }
        if (i - from) % 3 == 0 {
            match &ts[i] {
                Tok::Ident(_) => {},
                _ => {
                    proof {
                        assert(!(body[i - from] is Ident));
                    }
                    return false;
                },
            }
        } else {
            if !ts[i].is_punct(':') {
                proof {
                    assert(body[i - from] != TokM::Punct(':'));
                }
                return false;
            }
        }
        i += 1;
    }
    true
}

/// The first `n` tokens, copied.
fn copy_prefix(ts: &Vec<Tok>, n: usize) -> (r: Vec<Tok>)
    requires
        n <= ts@.len(),
    ensures
        toks_view(r@) == toks_view(ts@).take(n as int),
{
    let mut out: Vec<Tok> = Vec::new();
    let mut i: usize = 0;
    while i < n
        invariant
            i <= n <= ts@.len(),
            out@.len() == i,
            forall|j: int| 0 <= j < i ==> out@[j]@ == ts@[j]@,
        decreases n - i,
    {
        let t = ts[i].duplicate();
        out.push(t);
        i += 1;
    }
    proof {
        assert(toks_view(out@) =~= toks_view(ts@).take(n as int));
    }
    out
}

/// Recognize one annotation: a typed parse for the special vocabulary,
/// `Ok(None)` for a pass-through, or the failure it provokes.
pub fn classify_attribute(attr: &Attr) -> (r: Result<Option<ParsedAttribute>, DelegationError>)
    ensures
        classify(attr@) matches Ok(Some(p)) ==> r matches Ok(Some(e)) && e@ == p,
        classify(attr@) matches Ok(None) ==> r matches Ok(None),
        classify(attr@) matches Err(er) ==> r matches Err(e2) && e2 == er,
{
    let name = match attr.name() {
        Some(n) => n.clone(),
        None => {
            return Ok(None);
        },
    };
    if str_eq(name.as_str(), "call") {
        match &attr.args {
            AttrArgs::Delimited(_, ts) => {
                if ts.len() == 1 {
                    match &ts[0] {
                        Tok::Ident(s) => Ok(Some(ParsedAttribute::TargetMethod(s.clone()))),
                        _ => Err(DelegationError::CallSyntax),
                    }
                } else {
                    Err(DelegationError::CallSyntax)
                }
            },
            _ => Err(DelegationError::CallSyntax),
        }
    } else if str_eq(name.as_str(), "into") {
        match &attr.args {
            AttrArgs::Empty => Ok(
                Some(ParsedAttribute::ReturnExpression(ReturnExpression::Into(None))),
            ),
            AttrArgs::NameValue(_) => Err(DelegationError::IntoNameValue),
            AttrArgs::Delimited(_, ts) => {
                if ts.len() > 0 {
                    Ok(
                        Some(
                            ParsedAttribute::ReturnExpression(
                                ReturnExpression::Into(Some(copy_toks(ts))),
                            ),
                        ),
                    )
                } else {
                    Err(DelegationError::IntoSyntax)
                }
            },
        }
    } else if str_eq(name.as_str(), "try_into") {
        match &attr.args {
            AttrArgs::Delimited(_, ts) => {
                if contains_ident(ts, "unwrap") {
                    Err(DelegationError::TryIntoUnwrap)
                } else {
                    Ok(Some(ParsedAttribute::ReturnExpression(ReturnExpression::TryInto)))
                }
            },
            _ => Ok(Some(ParsedAttribute::ReturnExpression(ReturnExpression::TryInto))),
        }
    } else if str_eq(name.as_str(), "unwrap") {
        Ok(Some(ParsedAttribute::ReturnExpression(ReturnExpression::Unwrap)))
    } else if str_eq(name.as_str(), "await") {
        match &attr.args {
            AttrArgs::Delimited(_, ts) => {
                if ts.len() == 1 {
                    if ts[0].is_ident("true") {
                        Ok(Some(ParsedAttribute::Await(true)))
                    } else if ts[0].is_ident("false") {
                        Ok(Some(ParsedAttribute::Await(false)))
                    } else {
                        Err(DelegationError::AwaitSyntax)
                    }
                } else {
                    Err(DelegationError::AwaitSyntax)
                }
            },
            _ => Err(DelegationError::AwaitSyntax),
        }
    } else if str_eq(name.as_str(), "through") {
        match &attr.args {
            AttrArgs::Delimited(_, ts) => {
                if ts.len() > 0 {
                    Ok(
                        Some(
                            ParsedAttribute::ThroughTrait(
                                TraitTarget { type_path: copy_toks(ts) },
                            ),
                        ),
                    )
                } else {
                    Err(DelegationError::ThroughSyntax)
                }
            },
            _ => Err(DelegationError::ThroughSyntax),
        }
    } else if str_eq(name.as_str(), "const") {
        match &attr.args {
            AttrArgs::Delimited(_, ts) => {
                let leading: usize = if ts.len() >= 2 && ts[0].is_punct(':') && ts[1].is_punct(
                    ':',
                ) {
                    2
                } else {
                    0
                };
                proof {
                    assert(toks_view(ts@).skip(leading as int) =~= path_body(toks_view(ts@)));
                }
                if ts.len() == 0 {
                    Err(DelegationError::ConstSyntax)
                } else if !check_plain_path(ts, leading) {
                    Err(DelegationError::ConstSyntax)
                } else if ts.len() - leading < 4 {
                    Err(DelegationError::ConstNotMultipart)
                } else {
                    let trait_path = copy_prefix(ts, ts.len() - 3);
                    let mut const_name: Vec<Tok> = Vec::new();
                    let last = ts[ts.len() - 1].duplicate();
                    const_name.push(last);
                    proof {
                        assert(toks_view(const_name@) =~= seq![
                            toks_view(ts@)[ts@.len() - 1],
                        ]);
                    }
                    Ok(
                        Some(
                            ParsedAttribute::ConstantAccess(
                                AssociatedConstant { const_name, trait_path },
                            ),
                        ),
                    )
                }
            },
            _ => Err(DelegationError::ConstSyntax),
        }
    } else if str_eq(name.as_str(), "expr") {
        match &attr.args {
            AttrArgs::Delimited(_, ts) => {
                if ts.len() > 0 {
                    Ok(Some(ParsedAttribute::Expr(TemplateExpr::parse(ts))))
                } else {
                    Err(DelegationError::ExprSyntax)
                }
            },
            _ => Err(DelegationError::ExprSyntax),
        }
    } else {
        Ok(None)
    }
}

/// The models of a sequence of recognized annotations.
pub open spec fn parsed_view(s: Seq<ParsedAttribute>) -> Seq<ParsedAttrM> {
    Seq::new(s.len(), |i: int| s[i]@)
}

/// Whether every annotation in the sequence is recognized or passes
/// through without failure.
pub open spec fn all_classified(s: Seq<AttrM>) -> bool {
    forall|i: int| 0 <= i < s.len() ==> #[trigger] classify(s[i]) is Ok
}

/// The recognized annotations of a sequence, in order.
pub open spec fn specials(s: Seq<AttrM>) -> Seq<ParsedAttrM>
    decreases s.len(),
{
    if s.len() == 0 {
        Seq::empty()
    } else {
        (match classify(s[0]) {
            Ok(Some(p)) => seq![p],
            _ => Seq::empty(),
        }) + specials(s.skip(1))
    }
}

/// The pass-through annotations of a sequence, in order.
pub open spec fn passthrough(s: Seq<AttrM>) -> Seq<AttrM>
    decreases s.len(),
{
    if s.len() == 0 {
        Seq::empty()
    } else {
        (match classify(s[0]) {
            Ok(None) => seq![s[0]],
            _ => Seq::empty(),
        }) + passthrough(s.skip(1))
    }
}

/// Recognition distributes over concatenation.
pub proof fn lemma_specials_append(a: Seq<AttrM>, b: Seq<AttrM>)
    ensures
        specials(a + b) == specials(a) + specials(b),
        passthrough(a + b) == passthrough(a) + passthrough(b),
    decreases a.len(),
{
    if a.len() == 0 {
        assert(a + b =~= b);
        assert(specials(a) + specials(b) =~= specials(b));
        assert(passthrough(a) + passthrough(b) =~= passthrough(b));
    } else {
        lemma_specials_append(a.skip(1), b);
        assert((a + b).skip(1) =~= a.skip(1) + b);
        assert(specials(a + b) =~= specials(a) + specials(b));
        assert(passthrough(a + b) =~= passthrough(a) + passthrough(b));
    }
}

/// Recognition of a single annotation.
pub proof fn lemma_specials_singleton(x: AttrM)
    ensures
        specials(seq![x]) == (match classify(x) {
            Ok(Some(p)) => seq![p],
            _ => Seq::<ParsedAttrM>::empty(),
        }),
        passthrough(seq![x]) == (match classify(x) {
            Ok(None) => seq![x],
            _ => Seq::<AttrM>::empty(),
        }),
{
    reveal_with_fuel(specials, 2);
    reveal_with_fuel(passthrough, 2);
    assert(seq![x].skip(1) =~= Seq::<AttrM>::empty());
    match classify(x) {
        Ok(Some(p)) => {
            assert(specials(seq![x]) =~= seq![p]);
            assert(passthrough(seq![x]) =~= Seq::<AttrM>::empty());
        },
        Ok(None) => {
            assert(specials(seq![x]) =~= Seq::<ParsedAttrM>::empty());
            assert(passthrough(seq![x]) =~= seq![x]);
        },
        Err(_) => {
            assert(specials(seq![x]) =~= Seq::<ParsedAttrM>::empty());
            assert(passthrough(seq![x]) =~= Seq::<AttrM>::empty());
        },
    }
}

/// The kinds of recognized annotations that are single-valued.
pub enum PKind {
    KAwait,
    KCall,
    KThrough,
    KConst,
    KExpr,
}

/// Whether a recognized annotation is of the given kind.
pub open spec fn matches_kind(p: ParsedAttrM, k: PKind) -> bool {
    match k {
        PKind::KAwait => p is Await,
        PKind::KCall => p is TargetMethod,
        PKind::KThrough => p is ThroughTrait,
        PKind::KConst => p is ConstantAccess,
        PKind::KExpr => p is Expr,
    }
}

/// How many recognized annotations of the given kind the sequence
/// holds.
pub open spec fn count_kind(s: Seq<ParsedAttrM>, k: PKind) -> nat
    decreases s.len(),
{
    if s.len() == 0 {
        0
    } else {
        (if matches_kind(s[0], k) {
            1 as nat
        } else {
            0 as nat
        }) + count_kind(s.skip(1), k)
    }
}

/// Counting distributes over concatenation.
pub proof fn lemma_count_append(a: Seq<ParsedAttrM>, b: Seq<ParsedAttrM>, k: PKind)
    ensures
        count_kind(a + b, k) == count_kind(a, k) + count_kind(b, k),
    decreases a.len(),
{
    if a.len() == 0 {
        assert(a + b =~= b);
    } else {
        lemma_count_append(a.skip(1), b, k);
        assert((a + b).skip(1) =~= a.skip(1) + b);
    }
}

/// A prefix counts no more than the whole.
pub proof fn lemma_count_mono(s: Seq<ParsedAttrM>, k: PKind, n: int)
    requires
        0 <= n <= s.len(),
    ensures
        count_kind(s.take(n), k) <= count_kind(s, k),
{
    assert(s =~= s.take(n) + s.skip(n));
    lemma_count_append(s.take(n), s.skip(n), k);
}

/// Counting a prefix extended by one element.
pub proof fn lemma_count_step(s: Seq<ParsedAttrM>, k: PKind, n: int)
    requires
        0 <= n < s.len(),
    ensures
        count_kind(s.take(n + 1), k) == count_kind(s.take(n), k) + (if matches_kind(s[n], k) {
            1 as nat
        } else {
            0 as nat
        }),
{
    reveal_with_fuel(count_kind, 2);
    assert(s.take(n + 1) =~= s.take(n) + seq![s[n]]);
    lemma_count_append(s.take(n), seq![s[n]], k);
    assert(seq![s[n]].skip(1) =~= Seq::<ParsedAttrM>::empty());
}

/// The queued return transforms among recognized annotations, in
/// order.
pub open spec fn ret_exprs(ps: Seq<ParsedAttrM>) -> Seq<ReturnExprM>
    decreases ps.len(),
{
    if ps.len() == 0 {
        Seq::empty()
    } else {
        (match ps[0] {
            ParsedAttrM::ReturnExpression(e) => seq![e],
            _ => Seq::empty(),
        }) + ret_exprs(ps.skip(1))
    }
}

/// Transform collection distributes over concatenation.
pub proof fn lemma_ret_exprs_append(a: Seq<ParsedAttrM>, b: Seq<ParsedAttrM>)
    ensures
        ret_exprs(a + b) == ret_exprs(a) + ret_exprs(b),
    decreases a.len(),
{
    if a.len() == 0 {
        assert(a + b =~= b);
        assert(ret_exprs(a) + ret_exprs(b) =~= ret_exprs(b));
    } else {
        lemma_ret_exprs_append(a.skip(1), b);
        assert((a + b).skip(1) =~= a.skip(1) + b);
        assert(ret_exprs(a + b) =~= ret_exprs(a) + ret_exprs(b));
    }
}

impl ReturnExpression {
    /// A deep copy of the transform.
    pub fn duplicate(&self) -> (r: ReturnExpression)
        ensures
            r@ == self@,
    {
        match self {
            ReturnExpression::Into(o) => ReturnExpression::Into(
                match o {
                    Some(ts) => Some(copy_toks(ts)),
                    None => None,
                },
            ),
            ReturnExpression::TryInto => ReturnExpression::TryInto,
            ReturnExpression::Unwrap => ReturnExpression::Unwrap,
        }
    }
}

impl AssociatedConstant {
    /// A deep copy of the constant access.
    pub fn duplicate(&self) -> (r: AssociatedConstant)
        ensures
            r@ == self@,
    {
        AssociatedConstant {
            const_name: copy_toks(&self.const_name),
            trait_path: copy_toks(&self.trait_path),
        }
    }
}

/// Split an annotation list into the recognized annotations, in typed
/// form, and the pass-through rest, both in order.  The first
/// malformed annotation aborts the expansion.
pub fn parse_attributes(attrs: &Vec<Attr>) -> (r: Result<
    (Vec<ParsedAttribute>, Vec<Attr>),
    DelegationError,
>)
    ensures
        r matches Ok(pr) ==> ({
            &&& all_classified(attrs_view(attrs@))
            &&& parsed_view(pr.0@) == specials(attrs_view(attrs@))
            &&& attrs_view(pr.1@) == passthrough(attrs_view(attrs@))
        }),
        r matches Err(e) ==> exists|i: int|
            0 <= i < attrs@.len() && #[trigger] classify(attrs_view(attrs@)[i]) == Err::<
                Option<ParsedAttrM>,
                DelegationError,
            >(e),
        all_classified(attrs_view(attrs@)) ==> r is Ok,
{
    let ghost am = attrs_view(attrs@);
    let mut parsed: Vec<ParsedAttribute> = Vec::new();
    let mut other: Vec<Attr> = Vec::new();
    let mut i: usize = 0;
    while i < attrs.len()
        invariant
            i <= attrs@.len(),
            am == attrs_view(attrs@),
            parsed_view(parsed@) == specials(am.take(i as int)),
            attrs_view(other@) == passthrough(am.take(i as int)),
            forall|j: int| 0 <= j < i ==> #[trigger] classify(am[j]) is Ok,
        decreases attrs@.len() - i,
    {
        let c = classify_attribute(&attrs[i]);
        proof {
            assert(am[i as int] == attrs@[i as int]@);
            assert(am.take(i + 1) =~= am.take(i as int) + seq![am[i as int]]);
            lemma_specials_append(am.take(i as int), seq![am[i as int]]);
            lemma_specials_singleton(am[i as int]);
        }
        match c {
            Ok(Some(p)) => {
                parsed.push(p);
                proof {
                    assert(parsed_view(parsed@) =~= specials(am.take(i + 1)));
                    assert(attrs_view(other@) =~= passthrough(am.take(i + 1)));
                }
            },
            Ok(None) => {
                let a = attrs[i].duplicate();
                other.push(a);
                proof {
                    assert(parsed_view(parsed@) =~= specials(am.take(i + 1)));
                    assert(attrs_view(other@) =~= passthrough(am.take(i + 1)));
                }
            },
            Err(e) => {
                proof {
                    assert(classify(am[i as int]) == Err::<Option<ParsedAttrM>, DelegationError>(
                        e,
                    ));
                }
                return Err(e);
            },
        }
        i += 1;
    }
    proof {
        assert(am.take(attrs@.len() as int) =~= am);
    }
    Ok((parsed, other))
}

/// Whether one method's annotation list parses without failure:
/// everything recognized, at most one of each single-valued
/// annotation, and never `call` together with `const`.
pub open spec fn method_parse_ok(am: Seq<AttrM>) -> bool {
    let ps = specials(am);
    &&& all_classified(am)
    &&& count_kind(ps, PKind::KAwait) <= 1
    &&& count_kind(ps, PKind::KCall) <= 1
    &&& count_kind(ps, PKind::KThrough) <= 1
    &&& count_kind(ps, PKind::KConst) <= 1
    &&& count_kind(ps, PKind::KExpr) <= 1
    &&& !(count_kind(ps, PKind::KCall) >= 1 && count_kind(ps, PKind::KConst) >= 1)
}

/// What the resolved attributes of a method hold, given the recognized
/// annotations `ps` and the pass-through rest.
pub open spec fn method_attrs_resolved(ma: MethodAttributesM, am: Seq<AttrM>) -> bool {
    let ps = specials(am);
    &&& ma.attributes == passthrough(am)
    &&& ma.expressions == ret_exprs(ps)
    &&& (forall|i: int|
        0 <= i < ps.len() && #[trigger] ps[i] is Await ==> ma.generate_await == Some(
            ps[i]->Await_0,
        ))
    &&& (count_kind(ps, PKind::KAwait) == 0 ==> ma.generate_await is None)
    &&& (forall|i: int|
        0 <= i < ps.len() && #[trigger] ps[i] is TargetMethod ==> ma.target_method == Some(
            ps[i]->TargetMethod_0,
        ))
    &&& (count_kind(ps, PKind::KCall) == 0 ==> ma.target_method is None)
    &&& (forall|i: int|
        0 <= i < ps.len() && #[trigger] ps[i] is ThroughTrait ==> ma.target_trait == Some(
            ps[i]->ThroughTrait_0,
        ))
    &&& (count_kind(ps, PKind::KThrough) == 0 ==> ma.target_trait is None)
    &&& (forall|i: int|
        0 <= i < ps.len() && #[trigger] ps[i] is ConstantAccess ==> ma.associated_constant
            == Some(ps[i]->ConstantAccess_0))
    &&& (count_kind(ps, PKind::KConst) == 0 ==> ma.associated_constant is None)
    &&& (forall|i: int|
        0 <= i < ps.len() && #[trigger] ps[i] is Expr ==> ma.expr_attr == Some(ps[i]->Expr_0))
    &&& (count_kind(ps, PKind::KExpr) == 0 ==> ma.expr_attr is None)
}

/// Parse the annotation list of one method: recognize the special
/// vocabulary, fold it into typed fields, and keep the rest for
/// reattachment.  Fails on a malformed annotation, on a duplicated
/// single-valued annotation, and on `call` combined with `const`.
#[verifier::loop_isolation(false)]
pub fn parse_method_attributes(attrs: &Vec<Attr>, method_name: &String) -> (r: Result<
    MethodAttributes,
    DelegationError,
>)
    ensures
        r is Ok <==> method_parse_ok(attrs_view(attrs@)),
        r matches Ok(ma) ==> method_attrs_resolved(ma@, attrs_view(attrs@)),
        r matches Ok(ma) ==> ma@ == resolve_method_attrs(attrs_view(attrs@)),
        r matches Err(e) ==> match e {
            DelegationError::MultipleAwait(n) => n@ == method_name@ && count_kind(
                specials(attrs_view(attrs@)),
                PKind::KAwait,
            ) >= 2,
            DelegationError::MultipleCall(n) => n@ == method_name@ && count_kind(
                specials(attrs_view(attrs@)),
                PKind::KCall,
            ) >= 2,
            DelegationError::MultipleThrough(n) => n@ == method_name@ && count_kind(
                specials(attrs_view(attrs@)),
                PKind::KThrough,
            ) >= 2,
            DelegationError::MultipleConst(n) => n@ == method_name@ && count_kind(
                specials(attrs_view(attrs@)),
                PKind::KConst,
            ) >= 2,
            DelegationError::MultipleExpr(n) => n@ == method_name@ && count_kind(
                specials(attrs_view(attrs@)),
                PKind::KExpr,
            ) >= 2,
            DelegationError::CallAndConst => count_kind(specials(attrs_view(attrs@)), PKind::KCall)
                >= 1 && count_kind(specials(attrs_view(attrs@)), PKind::KConst) >= 1,
            _ => !all_classified(attrs_view(attrs@)),
        },
{
    let ghost am = attrs_view(attrs@);
    let (parsed, other) = match parse_attributes(attrs) {
        Ok(pr) => pr,
        Err(e) => {
            proof {
                assert(!all_classified(am));
            }
            return Err(e);
        },
    };
    let ghost ps = specials(am);
    let mut target_method: Option<String> = None;
    let mut expressions: Vec<ReturnExpression> = Vec::new();
    let mut generate_await: Option<bool> = None;
    let mut target_trait: Option<Vec<Tok>> = None;
    let mut associated_constant: Option<AssociatedConstant> = None;
    let mut expr_attr: Option<TemplateExpr> = None;
    let mut k: usize = 0;
    while k < parsed.len()
        invariant
            k <= parsed@.len(),
            ps == parsed_view(parsed@),
            ps == specials(am),
            rexprs_view(expressions@) == ret_exprs(ps.take(k as int)),
            match generate_await {
                None => count_kind(ps.take(k as int), PKind::KAwait) == 0,
                Some(_) => count_kind(ps.take(k as int), PKind::KAwait) == 1,
            },
            forall|i: int|
                0 <= i < k && #[trigger] ps[i] is Await ==> generate_await == Some(
                    ps[i]->Await_0,
                ),
            match target_method {
                None => count_kind(ps.take(k as int), PKind::KCall) == 0,
                Some(_) => count_kind(ps.take(k as int), PKind::KCall) == 1,
            },
            forall|i: int|
                0 <= i < k && #[trigger] ps[i] is TargetMethod ==> (target_method matches Some(n)
                    && n@ == ps[i]->TargetMethod_0),
            match target_trait {
                None => count_kind(ps.take(k as int), PKind::KThrough) == 0,
                Some(_) => count_kind(ps.take(k as int), PKind::KThrough) == 1,
            },
            forall|i: int|
                0 <= i < k && #[trigger] ps[i] is ThroughTrait ==> (target_trait matches Some(ts)
                    && toks_view(ts@) == ps[i]->ThroughTrait_0),
            match associated_constant {
                None => count_kind(ps.take(k as int), PKind::KConst) == 0,
                Some(_) => count_kind(ps.take(k as int), PKind::KConst) == 1,
            },
            forall|i: int|
                0 <= i < k && #[trigger] ps[i] is ConstantAccess ==> (associated_constant
                    matches Some(c) && c@ == ps[i]->ConstantAccess_0),
            match expr_attr {
                None => count_kind(ps.take(k as int), PKind::KExpr) == 0,
                Some(_) => count_kind(ps.take(k as int), PKind::KExpr) == 1,
            },
            forall|i: int|
                0 <= i < k && #[trigger] ps[i] is Expr ==> (expr_attr matches Some(t) && t@
                    == ps[i]->Expr_0),
        decreases parsed@.len() - k,
    {
        proof {
            lemma_count_step(ps, PKind::KAwait, k as int);
            lemma_count_step(ps, PKind::KCall, k as int);
            lemma_count_step(ps, PKind::KThrough, k as int);
            lemma_count_step(ps, PKind::KConst, k as int);
            lemma_count_step(ps, PKind::KExpr, k as int);
            lemma_ret_exprs_step(ps, k as int);
            assert(ps[k as int] == parsed@[k as int]@);
        }
        match &parsed[k] {
            ParsedAttribute::ReturnExpression(e) => {
                let d = e.duplicate();
                expressions.push(d);
                proof {
                    assert(rexprs_view(expressions@) =~= ret_exprs(ps.take(k + 1)));
                }
            },
            ParsedAttribute::Await(b) => {
                if generate_await.is_some() {
                    proof {
                        lemma_count_mono(ps, PKind::KAwait, k + 1);
                    }
                    return Err(DelegationError::MultipleAwait(method_name.clone()));
                }
                generate_await = Some(*b);
            },
            ParsedAttribute::TargetMethod(n) => {
                if target_method.is_some() {
                    proof {
                        lemma_count_mono(ps, PKind::KCall, k + 1);
                    }
                    return Err(DelegationError::MultipleCall(method_name.clone()));
                }
                target_method = Some(n.clone());
            },
            ParsedAttribute::ThroughTrait(t) => {
                if target_trait.is_some() {
                    proof {
                        lemma_count_mono(ps, PKind::KThrough, k + 1);
                    }
                    return Err(DelegationError::MultipleThrough(method_name.clone()));
                }
                target_trait = Some(copy_toks(&t.type_path));
            },
            ParsedAttribute::ConstantAccess(c) => {
                if associated_constant.is_some() {
                    proof {
                        lemma_count_mono(ps, PKind::KConst, k + 1);
                    }
                    return Err(DelegationError::MultipleConst(method_name.clone()));
                }
                associated_constant = Some(c.duplicate());
            },
            ParsedAttribute::Expr(t) => {
                if expr_attr.is_some() {
                    proof {
                        lemma_count_mono(ps, PKind::KExpr, k + 1);
                    }
                    return Err(DelegationError::MultipleExpr(method_name.clone()));
                }
                expr_attr = Some(t.duplicate());
            },
        }
        k += 1;
    }
    proof {
        assert(ps.take(parsed@.len() as int) =~= ps);
    }
    if associated_constant.is_some() && target_method.is_some() {
        return Err(DelegationError::CallAndConst);
    }
    let result = MethodAttributes {
        attributes: other,
        target_method,
        expressions,
        generate_await,
        target_trait,
        associated_constant,
        expr_attr,
    };
    proof {
        assert(method_attrs_resolved(result@, am));
        lemma_resolved_is_resolve(result@, am);
    }
    Ok(result)
}

/// Whether one segment's annotation list parses without failure: the
/// method vocabulary minus `call` and `const`, which are method-identity
/// concerns and hard errors here.
pub open spec fn segment_parse_ok(am: Seq<AttrM>) -> bool {
    let ps = specials(am);
    &&& all_classified(am)
    &&& count_kind(ps, PKind::KAwait) <= 1
    &&& count_kind(ps, PKind::KThrough) <= 1
    &&& count_kind(ps, PKind::KExpr) <= 1
    &&& count_kind(ps, PKind::KCall) == 0
    &&& count_kind(ps, PKind::KConst) == 0
}

/// What the resolved attributes of a segment hold, given its
/// annotation list.
pub open spec fn segment_attrs_resolved(sa: SegmentAttributesM, am: Seq<AttrM>) -> bool {
    let ps = specials(am);
    &&& sa.other_attrs == passthrough(am)
    &&& sa.expressions == ret_exprs(ps)
    &&& (forall|i: int|
        0 <= i < ps.len() && #[trigger] ps[i] is Await ==> sa.generate_await == Some(
            ps[i]->Await_0,
        ))
    &&& (count_kind(ps, PKind::KAwait) == 0 ==> sa.generate_await is None)
    &&& (forall|i: int|
        0 <= i < ps.len() && #[trigger] ps[i] is ThroughTrait ==> sa.target_trait == Some(
            ps[i]->ThroughTrait_0,
        ))
    &&& (count_kind(ps, PKind::KThrough) == 0 ==> sa.target_trait is None)
    &&& (forall|i: int|
        0 <= i < ps.len() && #[trigger] ps[i] is Expr ==> sa.expr_attr == Some(ps[i]->Expr_0))
    &&& (count_kind(ps, PKind::KExpr) == 0 ==> sa.expr_attr is None)
}

/// Parse the annotation list of one segment: the same vocabulary as a
/// method, except that `call` and `const` are rejected outright.
#[verifier::loop_isolation(false)]
pub fn parse_segment_attributes(attrs: &Vec<Attr>) -> (r: Result<
    SegmentAttributes,
    DelegationError,
>)
    ensures
        r is Ok <==> segment_parse_ok(attrs_view(attrs@)),
        r matches Ok(sa) ==> segment_attrs_resolved(sa@, attrs_view(attrs@)),
        r matches Ok(sa) ==> sa@ == resolve_segment_attrs(attrs_view(attrs@)),
        r matches Err(e) ==> match e {
            DelegationError::SegmentMultipleAwait => count_kind(
                specials(attrs_view(attrs@)),
                PKind::KAwait,
            ) >= 2,
            DelegationError::SegmentMultipleThrough => count_kind(
                specials(attrs_view(attrs@)),
                PKind::KThrough,
            ) >= 2,
            DelegationError::SegmentMultipleExpr => count_kind(
                specials(attrs_view(attrs@)),
                PKind::KExpr,
            ) >= 2,
            DelegationError::SegmentCall => count_kind(specials(attrs_view(attrs@)), PKind::KCall)
                >= 1,
            DelegationError::SegmentConst => count_kind(
                specials(attrs_view(attrs@)),
                PKind::KConst,
            ) >= 1,
            _ => !all_classified(attrs_view(attrs@)),
        },
{
    let ghost am = attrs_view(attrs@);
    let (parsed, other) = match parse_attributes(attrs) {
        Ok(pr) => pr,
        Err(e) => {
            proof {
                assert(!all_classified(am));
            }
            return Err(e);
        },
    };
    let ghost ps = specials(am);
    let mut expressions: Vec<ReturnExpression> = Vec::new();
    let mut generate_await: Option<bool> = None;
    let mut target_trait: Option<Vec<Tok>> = None;
    let mut expr_attr: Option<TemplateExpr> = None;
    let mut k: usize = 0;
    while k < parsed.len()
        invariant
            k <= parsed@.len(),
            ps == parsed_view(parsed@),
            ps == specials(am),
            rexprs_view(expressions@) == ret_exprs(ps.take(k as int)),
            match generate_await {
                None => count_kind(ps.take(k as int), PKind::KAwait) == 0,
                Some(_) => count_kind(ps.take(k as int), PKind::KAwait) == 1,
            },
            forall|i: int|
                0 <= i < k && #[trigger] ps[i] is Await ==> generate_await == Some(
                    ps[i]->Await_0,
                ),
            match target_trait {
                None => count_kind(ps.take(k as int), PKind::KThrough) == 0,
                Some(_) => count_kind(ps.take(k as int), PKind::KThrough) == 1,
            },
            forall|i: int|
                0 <= i < k && #[trigger] ps[i] is ThroughTrait ==> (target_trait matches Some(ts)
                    && toks_view(ts@) == ps[i]->ThroughTrait_0),
            match expr_attr {
                None => count_kind(ps.take(k as int), PKind::KExpr) == 0,
                Some(_) => count_kind(ps.take(k as int), PKind::KExpr) == 1,
            },
            forall|i: int|
                0 <= i < k && #[trigger] ps[i] is Expr ==> (expr_attr matches Some(t) && t@
                    == ps[i]->Expr_0),
            count_kind(ps.take(k as int), PKind::KCall) == 0,
            count_kind(ps.take(k as int), PKind::KConst) == 0,
        decreases parsed@.len() - k,
    {
        proof {
            lemma_count_step(ps, PKind::KAwait, k as int);
            lemma_count_step(ps, PKind::KCall, k as int);
            lemma_count_step(ps, PKind::KThrough, k as int);
            lemma_count_step(ps, PKind::KConst, k as int);
            lemma_count_step(ps, PKind::KExpr, k as int);
            lemma_ret_exprs_step(ps, k as int);
            assert(ps[k as int] == parsed@[k as int]@);
        }
        match &parsed[k] {
            ParsedAttribute::ReturnExpression(e) => {
                let d = e.duplicate();
                expressions.push(d);
                proof {
                    assert(rexprs_view(expressions@) =~= ret_exprs(ps.take(k + 1)));
                }
            },
            ParsedAttribute::Await(b) => {
                if generate_await.is_some() {
                    proof {
                        lemma_count_mono(ps, PKind::KAwait, k + 1);
                    }
                    return Err(DelegationError::SegmentMultipleAwait);
                }
                generate_await = Some(*b);
            },
            ParsedAttribute::TargetMethod(_) => {
                proof {
                    lemma_count_mono(ps, PKind::KCall, k + 1);
                }
                return Err(DelegationError::SegmentCall);
            },
            ParsedAttribute::ThroughTrait(t) => {
                if target_trait.is_some() {
                    proof {
                        lemma_count_mono(ps, PKind::KThrough, k + 1);
                    }
                    return Err(DelegationError::SegmentMultipleThrough);
                }
                target_trait = Some(copy_toks(&t.type_path));
            },
            ParsedAttribute::ConstantAccess(_) => {
                proof {
                    lemma_count_mono(ps, PKind::KConst, k + 1);
                }
                return Err(DelegationError::SegmentConst);
            },
            ParsedAttribute::Expr(t) => {
                if expr_attr.is_some() {
                    proof {
                        lemma_count_mono(ps, PKind::KExpr, k + 1);
                    }
                    return Err(DelegationError::SegmentMultipleExpr);
                }
                expr_attr = Some(t.duplicate());
            },
        }
        k += 1;
    }
    proof {
        assert(ps.take(parsed@.len() as int) =~= ps);
    }
    let result = SegmentAttributes {
        expressions,
        generate_await,
        target_trait,
        other_attrs: other,
        expr_attr,
    };
    proof {
        assert(segment_attrs_resolved(result@, am));
        lemma_segment_resolved_is_resolve(result@, am);
    }
    Ok(result)
}

/// Transform collection on one more element.
pub proof fn lemma_ret_exprs_step(s: Seq<ParsedAttrM>, k: int)
    requires
        0 <= k < s.len(),
    ensures
        ret_exprs(s.take(k + 1)) == ret_exprs(s.take(k)) + (match s[k] {
            ParsedAttrM::ReturnExpression(e) => seq![e],
            _ => Seq::<ReturnExprM>::empty(),
        }),
{
    reveal_with_fuel(ret_exprs, 2);
    assert(s.take(k + 1) =~= s.take(k) + seq![s[k]]);
    lemma_ret_exprs_append(s.take(k), seq![s[k]]);
    assert(seq![s[k]].skip(1) =~= Seq::<ParsedAttrM>::empty());
    match s[k] {
        ParsedAttrM::ReturnExpression(e) => {
            assert(ret_exprs(seq![s[k]]) =~= seq![e]);
        },
        _ => {
            assert(ret_exprs(seq![s[k]]) =~= Seq::<ReturnExprM>::empty());
        },
    }
}

/// The first recognized annotation of a kind, if any.
pub open spec fn first_kind(ps: Seq<ParsedAttrM>, k: PKind) -> Option<ParsedAttrM>
    decreases ps.len(),
{
    if ps.len() == 0 {
        None
    } else if matches_kind(ps[0], k) {
        Some(ps[0])
    } else {
        first_kind(ps.skip(1), k)
    }
}

/// The first of a kind exists exactly when the count is positive, and
/// it is one of the elements.
pub proof fn lemma_first_kind(ps: Seq<ParsedAttrM>, k: PKind)
    ensures
        (first_kind(ps, k) is None) == (count_kind(ps, k) == 0),
        first_kind(ps, k) matches Some(p) ==> exists|i: int|
            0 <= i < ps.len() && ps[i] == p && matches_kind(#[trigger] ps[i], k),
    decreases ps.len(),
{
    if ps.len() > 0 {
        lemma_first_kind(ps.skip(1), k);
        if matches_kind(ps[0], k) {
            assert(ps[0] == first_kind(ps, k)->0 && matches_kind(ps[0], k));
        } else {
            match first_kind(ps.skip(1), k) {
                Some(p) => {
                    let i = choose|i: int|
                        0 <= i < ps.skip(1).len() && ps.skip(1)[i] == p && matches_kind(
                            #[trigger] ps.skip(1)[i],
                            k,
                        );
                    assert(ps[i + 1] == p && matches_kind(ps[i + 1], k));
                },
                None => {},
            }
        }
    }
}

/// The resolved attributes of one method as a function of its
/// annotation list: pass-through annotations kept, transforms in
/// order, and each single-valued field taken from the first annotation
/// of its kind.
pub open spec fn resolve_method_attrs(am: Seq<AttrM>) -> MethodAttributesM {
    let ps = specials(am);
    MethodAttributesM {
        attributes: passthrough(am),
        target_method: match first_kind(ps, PKind::KCall) {
            Some(p) => Some(p->TargetMethod_0),
            None => None,
        },
        expressions: ret_exprs(ps),
        generate_await: match first_kind(ps, PKind::KAwait) {
            Some(p) => Some(p->Await_0),
            None => None,
        },
        target_trait: match first_kind(ps, PKind::KThrough) {
            Some(p) => Some(p->ThroughTrait_0),
            None => None,
        },
        associated_constant: match first_kind(ps, PKind::KConst) {
            Some(p) => Some(p->ConstantAccess_0),
            None => None,
        },
        expr_attr: match first_kind(ps, PKind::KExpr) {
            Some(p) => Some(p->Expr_0),
            None => None,
        },
    }
}

/// Any attribute structure satisfying the resolution relation is the
/// resolution function's value.
pub proof fn lemma_resolved_is_resolve(ma: MethodAttributesM, am: Seq<AttrM>)
    requires
        method_attrs_resolved(ma, am),
    ensures
        ma == resolve_method_attrs(am),
{
    let ps = specials(am);
    lemma_first_kind(ps, PKind::KAwait);
    lemma_first_kind(ps, PKind::KCall);
    lemma_first_kind(ps, PKind::KThrough);
    lemma_first_kind(ps, PKind::KConst);
    lemma_first_kind(ps, PKind::KExpr);
    match first_kind(ps, PKind::KAwait) {
        Some(p) => {
            let i = choose|i: int|
                0 <= i < ps.len() && ps[i] == p && matches_kind(#[trigger] ps[i], PKind::KAwait);
            assert(ma.generate_await == Some(ps[i]->Await_0));
        },
        None => {},
    }
    match first_kind(ps, PKind::KCall) {
        Some(p) => {
            let i = choose|i: int|
                0 <= i < ps.len() && ps[i] == p && matches_kind(#[trigger] ps[i], PKind::KCall);
            assert(ma.target_method == Some(ps[i]->TargetMethod_0));
        },
        None => {},
    }
    match first_kind(ps, PKind::KThrough) {
        Some(p) => {
            let i = choose|i: int|
                0 <= i < ps.len() && ps[i] == p && matches_kind(#[trigger] ps[i], PKind::KThrough);
            assert(ma.target_trait == Some(ps[i]->ThroughTrait_0));
        },
        None => {},
    }
    match first_kind(ps, PKind::KConst) {
        Some(p) => {
            let i = choose|i: int|
                0 <= i < ps.len() && ps[i] == p && matches_kind(#[trigger] ps[i], PKind::KConst);
            assert(ma.associated_constant == Some(ps[i]->ConstantAccess_0));
        },
        None => {},
    }
    match first_kind(ps, PKind::KExpr) {
        Some(p) => {
            let i = choose|i: int|
                0 <= i < ps.len() && ps[i] == p && matches_kind(#[trigger] ps[i], PKind::KExpr);
            assert(ma.expr_attr == Some(ps[i]->Expr_0));
        },
        None => {},
    }
}

/// The resolved attributes of one segment as a function of its
/// annotation list.
pub open spec fn resolve_segment_attrs(am: Seq<AttrM>) -> SegmentAttributesM {
    let ps = specials(am);
    SegmentAttributesM {
        expressions: ret_exprs(ps),
        generate_await: match first_kind(ps, PKind::KAwait) {
            Some(p) => Some(p->Await_0),
            None => None,
        },
        target_trait: match first_kind(ps, PKind::KThrough) {
            Some(p) => Some(p->ThroughTrait_0),
            None => None,
        },
        other_attrs: passthrough(am),
        expr_attr: match first_kind(ps, PKind::KExpr) {
            Some(p) => Some(p->Expr_0),
            None => None,
        },
    }
}

/// Any segment-attribute structure satisfying the resolution relation
/// is the resolution function's value.
pub proof fn lemma_segment_resolved_is_resolve(sa: SegmentAttributesM, am: Seq<AttrM>)
    requires
        segment_attrs_resolved(sa, am),
    ensures
        sa == resolve_segment_attrs(am),
{
    let ps = specials(am);
    lemma_first_kind(ps, PKind::KAwait);
    lemma_first_kind(ps, PKind::KThrough);
    lemma_first_kind(ps, PKind::KExpr);
    match first_kind(ps, PKind::KAwait) {
        Some(p) => {
            let i = choose|i: int|
                0 <= i < ps.len() && ps[i] == p && matches_kind(#[trigger] ps[i], PKind::KAwait);
            assert(sa.generate_await == Some(ps[i]->Await_0));
        },
        None => {},
    }
    match first_kind(ps, PKind::KThrough) {
        Some(p) => {
            let i = choose|i: int|
                0 <= i < ps.len() && ps[i] == p && matches_kind(#[trigger] ps[i], PKind::KThrough);
            assert(sa.target_trait == Some(ps[i]->ThroughTrait_0));
        },
        None => {},
    }
    match first_kind(ps, PKind::KExpr) {
        Some(p) => {
            let i = choose|i: int|
                0 <= i < ps.len() && ps[i] == p && matches_kind(#[trigger] ps[i], PKind::KExpr);
            assert(sa.expr_attr == Some(ps[i]->Expr_0));
        },
        None => {},
    }
}

/// A positive count yields a witness index of that kind.
pub proof fn lemma_count_witness(s: Seq<ParsedAttrM>, k: PKind)
    requires
        count_kind(s, k) >= 1,
    ensures
        exists|i: int| 0 <= i < s.len() && matches_kind(#[trigger] s[i], k),
    decreases s.len(),
{
    if s.len() > 0 {
        if matches_kind(s[0], k) {
        } else {
            lemma_count_witness(s.skip(1), k);
            let i = choose|i: int| 0 <= i < s.skip(1).len() && matches_kind(#[trigger] s.skip(1)[i], k);
            assert(matches_kind(s[i + 1], k));
        }
    }
}

/// The resolution contract pins the result: any two resolved attribute
/// structures of one annotation list are equal, so a method's resolved
/// attributes are a function of its declaration.
pub proof fn lemma_resolution_deterministic(
    ma1: MethodAttributesM,
    ma2: MethodAttributesM,
    am: Seq<AttrM>,
)
    requires
        method_attrs_resolved(ma1, am),
        method_attrs_resolved(ma2, am),
    ensures
        ma1 == ma2,
{
    let ps = specials(am);
    if count_kind(ps, PKind::KAwait) >= 1 {
        lemma_count_witness(ps, PKind::KAwait);
        let i = choose|i: int| 0 <= i < ps.len() && matches_kind(#[trigger] ps[i], PKind::KAwait);
        assert(ma1.generate_await == Some(ps[i]->Await_0));
        assert(ma2.generate_await == Some(ps[i]->Await_0));
    }
    if count_kind(ps, PKind::KCall) >= 1 {
        lemma_count_witness(ps, PKind::KCall);
        let i = choose|i: int| 0 <= i < ps.len() && matches_kind(#[trigger] ps[i], PKind::KCall);
        assert(ma1.target_method == Some(ps[i]->TargetMethod_0));
        assert(ma2.target_method == Some(ps[i]->TargetMethod_0));
    }
    if count_kind(ps, PKind::KThrough) >= 1 {
        lemma_count_witness(ps, PKind::KThrough);
        let i = choose|i: int| 0 <= i < ps.len() && matches_kind(#[trigger] ps[i], PKind::KThrough);
        assert(ma1.target_trait == Some(ps[i]->ThroughTrait_0));
        assert(ma2.target_trait == Some(ps[i]->ThroughTrait_0));
    }
    if count_kind(ps, PKind::KConst) >= 1 {
        lemma_count_witness(ps, PKind::KConst);
        let i = choose|i: int| 0 <= i < ps.len() && matches_kind(#[trigger] ps[i], PKind::KConst);
        assert(ma1.associated_constant == Some(ps[i]->ConstantAccess_0));
        assert(ma2.associated_constant == Some(ps[i]->ConstantAccess_0));
    }
    if count_kind(ps, PKind::KExpr) >= 1 {
        lemma_count_witness(ps, PKind::KExpr);
        let i = choose|i: int| 0 <= i < ps.len() && matches_kind(#[trigger] ps[i], PKind::KExpr);
        assert(ma1.expr_attr == Some(ps[i]->Expr_0));
        assert(ma2.expr_attr == Some(ps[i]->Expr_0));
    }
}

/// Whether a transform queue holds an `Into` entry.
pub open spec fn has_into(m: Seq<ReturnExprM>) -> bool {
    exists|i: int| 0 <= i < m.len() && #[trigger] m[i] is Into
}

/// How many `Into` entries a transform queue holds.
pub open spec fn count_intos(s: Seq<ReturnExprM>) -> nat
    decreases s.len(),
{
    if s.len() == 0 {
        0
    } else {
        (if s[0] is Into {
            1 as nat
        } else {
            0 as nat
        }) + count_intos(s.skip(1))
    }
}

/// `Into` counting distributes over concatenation.
pub proof fn lemma_count_intos_append(a: Seq<ReturnExprM>, b: Seq<ReturnExprM>)
    ensures
        count_intos(a + b) == count_intos(a) + count_intos(b),
    decreases a.len(),
{
    if a.len() == 0 {
        assert(a + b =~= b);
    } else {
        lemma_count_intos_append(a.skip(1), b);
        assert((a + b).skip(1) =~= a.skip(1) + b);
    }
}

/// One step of the transform merge: a segment transform is put in
/// front of the queue, except an `Into` when the queue already holds
/// one.
pub open spec fn combine_exprs_step(m: Seq<ReturnExprM>, x: ReturnExprM) -> Seq<ReturnExprM> {
    if x is Into && has_into(m) {
        m
    } else {
        seq![x] + m
    }
}

/// The transform merge: each segment transform in order is put in
/// front of the method's queue, with `Into` de-duplication.
pub open spec fn combine_exprs(m: Seq<ReturnExprM>, s: Seq<ReturnExprM>) -> Seq<ReturnExprM>
    decreases s.len(),
{
    if s.len() == 0 {
        m
    } else {
        combine_exprs(combine_exprs_step(m, s[0]), s.skip(1))
    }
}

/// The transform merge folds left over concatenation.
pub proof fn lemma_combine_exprs_append(m: Seq<ReturnExprM>, a: Seq<ReturnExprM>, b: Seq<ReturnExprM>)
    ensures
        combine_exprs(m, a + b) == combine_exprs(combine_exprs(m, a), b),
    decreases a.len(),
{
    if a.len() == 0 {
        assert(a + b =~= b);
    } else {
        lemma_combine_exprs_append(combine_exprs_step(m, a[0]), a.skip(1), b);
        assert((a + b).skip(1) =~= a.skip(1) + b);
    }
}

/// The transform merge on one more segment transform.
pub proof fn lemma_combine_exprs_snoc(m: Seq<ReturnExprM>, s: Seq<ReturnExprM>, k: int)
    requires
        0 <= k < s.len(),
    ensures
        combine_exprs(m, s.take(k + 1)) == combine_exprs_step(combine_exprs(m, s.take(k)), s[k]),
{
    reveal_with_fuel(combine_exprs, 2);
    assert(s.take(k + 1) =~= s.take(k) + seq![s[k]]);
    lemma_combine_exprs_append(m, s.take(k), seq![s[k]]);
    assert(seq![s[k]].skip(1) =~= Seq::<ReturnExprM>::empty());
}

/// Whether the list holds an annotation of the given name (two
/// annotations whose paths are not single identifiers count as
/// sharing a name).
pub open spec fn has_attr_named(m: Seq<AttrM>, n: Option<Seq<char>>) -> bool {
    exists|i: int| 0 <= i < m.len() && #[trigger] attr_ident(m[i]) == n
}

/// One step of the pass-through merge: a segment annotation is
/// appended unless one of the same name is already present.
pub open spec fn combine_others_step(m: Seq<AttrM>, x: AttrM) -> Seq<AttrM> {
    if has_attr_named(m, attr_ident(x)) {
        m
    } else {
        m.push(x)
    }
}

/// The pass-through merge: each segment annotation in order is
/// appended if its name is absent.
pub open spec fn combine_others(m: Seq<AttrM>, s: Seq<AttrM>) -> Seq<AttrM>
    decreases s.len(),
{
    if s.len() == 0 {
        m
    } else {
        combine_others(combine_others_step(m, s[0]), s.skip(1))
    }
}

/// The pass-through merge folds left over concatenation.
pub proof fn lemma_combine_others_append(m: Seq<AttrM>, a: Seq<AttrM>, b: Seq<AttrM>)
    ensures
        combine_others(m, a + b) == combine_others(combine_others(m, a), b),
    decreases a.len(),
{
    if a.len() == 0 {
        assert(a + b =~= b);
    } else {
        lemma_combine_others_append(combine_others_step(m, a[0]), a.skip(1), b);
        assert((a + b).skip(1) =~= a.skip(1) + b);
    }
}

/// The pass-through merge on one more segment annotation.
pub proof fn lemma_combine_others_snoc(m: Seq<AttrM>, s: Seq<AttrM>, k: int)
    requires
        0 <= k < s.len(),
    ensures
        combine_others(m, s.take(k + 1)) == combine_others_step(combine_others(m, s.take(k)), s[k]),
{
    reveal_with_fuel(combine_others, 2);
    assert(s.take(k + 1) =~= s.take(k) + seq![s[k]]);
    lemma_combine_others_append(m, s.take(k), seq![s[k]]);
    assert(seq![s[k]].skip(1) =~= Seq::<AttrM>::empty());
}

/// What the merge of segment defaults into method attributes yields:
/// the method's value wins for `await`, `through` and `expr`; segment
/// transforms are put in front with `Into` de-duplication; segment
/// pass-through annotations are appended when their name is absent.
pub open spec fn spec_combine(m: MethodAttributesM, s: SegmentAttributesM) -> MethodAttributesM {
    MethodAttributesM {
        attributes: combine_others(m.attributes, s.other_attrs),
        target_method: m.target_method,
        expressions: combine_exprs(m.expressions, s.expressions),
        generate_await: if m.generate_await is None {
            s.generate_await
        } else {
            m.generate_await
        },
        target_trait: if m.target_trait is None {
            s.target_trait
        } else {
            m.target_trait
        },
        associated_constant: m.associated_constant,
        expr_attr: if m.expr_attr is None {
            s.expr_attr
        } else {
            m.expr_attr
        },
    }
}

/// Whether the queue holds an `Into` entry.
fn vec_has_into(v: &Vec<ReturnExpression>) -> (r: bool)
    ensures
        r == has_into(rexprs_view(v@)),
{
    let mut i: usize = 0;
    while i < v.len()
        invariant
            i <= v@.len(),
            forall|j: int| 0 <= j < i ==> !(#[trigger] rexprs_view(v@)[j] is Into),
        decreases v@.len() - i,
    {
        match &v[i] {
            ReturnExpression::Into(_) => {
                proof {
                    assert(rexprs_view(v@)[i as int] is Into);
                }
                return true;
            },
            _ => {},
        }
        i += 1;
    }
    false
}

/// Whether the two annotations share a name.
fn same_attr_name(a: &Attr, b: &Attr) -> (r: bool)
    ensures
        r == (attr_ident(a@) == attr_ident(b@)),
{
    match (a.name(), b.name()) {
        (Some(x), Some(y)) => str_eq(x.as_str(), y.as_str()),
        (None, None) => true,
        _ => false,
    }
}

/// Whether the list holds an annotation of the same name as the given
/// one.
fn vec_has_attr_named(v: &Vec<Attr>, a: &Attr) -> (r: bool)
    ensures
        r == has_attr_named(attrs_view(v@), attr_ident(a@)),
{
    let mut i: usize = 0;
    while i < v.len()
        invariant
            i <= v@.len(),
            forall|j: int|
                0 <= j < i ==> !(#[trigger] attr_ident(attrs_view(v@)[j]) == attr_ident(a@)),
        decreases v@.len() - i,
    {
        if same_attr_name(&v[i], a) {
            proof {
                assert(attr_ident(attrs_view(v@)[i as int]) == attr_ident(a@));
            }
            return true;
        }
        i += 1;
    }
    false
}

/// Apply a segment's defaults to one method's resolved attributes.
#[verifier::loop_isolation(false)]
pub fn combine_attributes(method_attrs: MethodAttributes, segment_attrs: &SegmentAttributes) -> (r:
    MethodAttributes)
    ensures
        r@ == spec_combine(method_attrs@, segment_attrs@),
{
    let ghost m0 = method_attrs@;
    let MethodAttributes {
        attributes: mut attributes,
        target_method,
        expressions: mut expressions,
        mut generate_await,
        mut target_trait,
        associated_constant,
        mut expr_attr,
    } = method_attrs;
    if generate_await.is_none() {
        generate_await = segment_attrs.generate_await;
    }
    if target_trait.is_none() {
        target_trait = match &segment_attrs.target_trait {
            Some(ts) => Some(copy_toks(ts)),
            None => None,
        };
    }
    if expr_attr.is_none() {
        expr_attr = match &segment_attrs.expr_attr {
            Some(t) => Some(t.duplicate()),
            None => None,
        };
    }
    let ghost se = segment_attrs@.expressions;
    let mut k: usize = 0;
    while k < segment_attrs.expressions.len()
        invariant
            k <= se.len(),
            rexprs_view(expressions@) == combine_exprs(m0.expressions, se.take(k as int)),
        decreases se.len() - k,
    {
        proof {
            lemma_combine_exprs_snoc(m0.expressions, se, k as int);
            assert(se[k as int] == segment_attrs.expressions@[k as int]@);
        }
        let is_into = match &segment_attrs.expressions[k] {
            ReturnExpression::Into(_) => true,
            _ => false,
        };
        if is_into && vec_has_into(&expressions) {
            // an `Into` from the segment is suppressed: the queue
            // already converts
        } else {
            let d = segment_attrs.expressions[k].duplicate();
            expressions.insert(0, d);
            proof {
                assert(rexprs_view(expressions@) =~= seq![se[k as int]] + combine_exprs(
                    m0.expressions,
                    se.take(k as int),
                ));
            }
        }
        k += 1;
    }
    proof {
        assert(se.take(se.len() as int) =~= se);
    }
    let ghost so = segment_attrs@.other_attrs;
    let mut k2: usize = 0;
    while k2 < segment_attrs.other_attrs.len()
        invariant
            k2 <= so.len(),
            attrs_view(attributes@) == combine_others(m0.attributes, so.take(k2 as int)),
        decreases so.len() - k2,
    {
        proof {
            lemma_combine_others_snoc(m0.attributes, so, k2 as int);
            assert(so[k2 as int] == segment_attrs.other_attrs@[k2 as int]@);
        }
        if !vec_has_attr_named(&attributes, &segment_attrs.other_attrs[k2]) {
            let d = segment_attrs.other_attrs[k2].duplicate();
            attributes.push(d);
            proof {
                assert(attrs_view(attributes@) =~= combine_others(
                    m0.attributes,
                    so.take(k2 as int),
                ).push(so[k2 as int]));
            }
        }
        k2 += 1;
    }
    proof {
        assert(so.take(so.len() as int) =~= so);
    }
    MethodAttributes {
        attributes,
        target_method,
        expressions,
        generate_await,
        target_trait,
        associated_constant,
        expr_attr,
    }
}

/// The await decision of a method: the resolved annotation value when
/// one was given, else the method's own declared asyncness.
pub open spec fn resolved_await(ga: Option<bool>, is_async: bool) -> bool {
    match ga {
        Some(b) => b,
        None => is_async,
    }
}

/// The inference law: wherever neither the method nor its segment
/// declares an `await` annotation, the resolved await decision equals
/// the method's own declared async qualifier.
pub proof fn lemma_await_inference(
    mam: Seq<AttrM>,
    sam: Seq<AttrM>,
    ma: MethodAttributesM,
    sa: SegmentAttributesM,
    is_async: bool,
)
    requires
        method_attrs_resolved(ma, mam),
        count_kind(specials(mam), PKind::KAwait) == 0,
        segment_attrs_resolved(sa, sam),
        count_kind(specials(sam), PKind::KAwait) == 0,
    ensures
        resolved_await(spec_combine(ma, sa).generate_await, is_async) == is_async,
{
}

/// The merged queue is the method's own with transforms in front, and
/// none of the added ones is an `Into` when the method already
/// converts.
pub proof fn lemma_combine_exprs_shape(m: Seq<ReturnExprM>, s: Seq<ReturnExprM>)
    requires
        has_into(m),
    ensures
        exists|p: Seq<ReturnExprM>|
            #![trigger p.len()]
            combine_exprs(m, s) == p + m && count_intos(p) == 0,
    decreases s.len(),
{
    reveal_with_fuel(count_intos, 2);
    if s.len() == 0 {
        let p = Seq::<ReturnExprM>::empty();
        assert(combine_exprs(m, s) =~= p + m);
        assert(count_intos(p) == 0);
    } else {
        let m2 = combine_exprs_step(m, s[0]);
        if s[0] is Into && has_into(m) {
            lemma_combine_exprs_shape(m, s.skip(1));
        } else {
            assert(has_into(m2)) by {
                let i = choose|i: int| 0 <= i < m.len() && #[trigger] m[i] is Into;
                assert(m2[i + 1] is Into);
            }
            lemma_combine_exprs_shape(m2, s.skip(1));
            let p2 = choose|p2: Seq<ReturnExprM>|
                #![trigger p2.len()]
                combine_exprs(m2, s.skip(1)) == p2 + m2 && count_intos(p2) == 0;
            let p = p2 + seq![s[0]];
            assert(combine_exprs(m, s) =~= p + m);
            lemma_count_intos_append(p2, seq![s[0]]);
            assert(seq![s[0]].skip(1) =~= Seq::<ReturnExprM>::empty());
            assert(count_intos(p) == 0);
        }
    }
}

/// The de-duplication law: where both the segment and the method
/// declare an `into` transform, the merged queue holds exactly one
/// `Into` entry, the method level's own.
pub proof fn lemma_into_dedup(ma: MethodAttributesM, sa: SegmentAttributesM)
    requires
        count_intos(ma.expressions) == 1,
        has_into(sa.expressions),
    ensures
        count_intos(spec_combine(ma, sa).expressions) == 1,
        exists|p: Seq<ReturnExprM>|
            #![trigger p.len()]
            spec_combine(ma, sa).expressions == p + ma.expressions && count_intos(p) == 0,
{
    assert(has_into(ma.expressions)) by {
        lemma_count_intos_has(ma.expressions);
    }
    lemma_combine_exprs_shape(ma.expressions, sa.expressions);
    let p = choose|p: Seq<ReturnExprM>|
        #![trigger p.len()]
        combine_exprs(ma.expressions, sa.expressions) == p + ma.expressions && count_intos(p) == 0;
    lemma_count_intos_append(p, ma.expressions);
}

/// A queue with a positive `Into` count holds an `Into`, and the other
/// way round.
pub proof fn lemma_count_intos_has(s: Seq<ReturnExprM>)
    ensures
        (count_intos(s) >= 1) == has_into(s),
    decreases s.len(),
{
    if s.len() == 0 {
    } else {
        lemma_count_intos_has(s.skip(1));
        if s[0] is Into {
            assert(has_into(s));
        } else {
            if has_into(s.skip(1)) {
                let i = choose|i: int| 0 <= i < s.skip(1).len() && #[trigger] s.skip(1)[i] is Into;
                assert(s[i + 1] is Into);
            }
            if has_into(s) {
                let i = choose|i: int| 0 <= i < s.len() && #[trigger] s[i] is Into;
                assert(s.skip(1)[i - 1] is Into);
            }
        }
    }
}

} // verus!
