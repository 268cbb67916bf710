//! The delegation block parser.
//!
//! Grammar:
//!
//! ```text
//! Block           := Segment*
//! Segment         := Attribute* 'to' Expr '{' DelegatedMethod* '}'
//! DelegatedMethod := Attribute* Visibility FnQualifiers 'fn' Ident
//!                    Generics '(' DelegatedInput,* ')' ReturnType
//!                    WhereClause? ';'
//! DelegatedInput  := '[' Expr ']'
//!                  | ('#' '[' Modifier ']')? FnArg
//! ```
//!
//! A bracket-wrapped input is an injected argument: it contributes to
//! the call's argument list but not to the signature.  The deprecated
//! `target` keyword is recognized and rejected with a migration hint.
//! A body on a declaration is a hard error.

use vstd::prelude::*;

use crate::attributes::{
    attrs_view, parse_segment_attributes, Attr, AttrArgs, AttrArgsM, AttrM, SegmentAttributes,
    SegmentAttributesM,
};
use crate::errors::DelegationError;
use crate::tokens::{copy_toks, toks_view, Delim, Tok, TokM};

verus! {

/// A transform applied to a single forwarded argument.
#[derive(Clone, Copy, PartialEq, Eq, Structural, Debug)]
pub enum ArgumentModifier {
    /// Call `.into()` on the argument.
    Into,
    /// Call `.as_ref()` on the argument.
    AsRef,
    /// Project field `0` of the argument (a newtype).
    Newtype,
}

/// One input of a delegated method declaration.
#[derive(PartialEq, Eq, Debug)]
pub enum DelegatedInput {
    /// A bracket-wrapped expression, injected into the call's argument
    /// list only.
    Argument(Vec<Tok>),
    /// A signature parameter; a named one also forwards its identifier
    /// as an argument, wrapped by the modifier when one was given.
    Input { parameter: Vec<Tok>, ident: Option<String>, modifier: Option<ArgumentModifier> },
}

/// The model of one input.
pub enum DelegatedInputM {
    Argument(Seq<TokM>),
    Input { parameter: Seq<TokM>, ident: Option<Seq<char>>, modifier: Option<ArgumentModifier> },
}

impl View for DelegatedInput {
    type V = DelegatedInputM;

    open spec fn view(&self) -> DelegatedInputM {
        match self {
            DelegatedInput::Argument(ts) => DelegatedInputM::Argument(toks_view(ts@)),
            DelegatedInput::Input { parameter, ident, modifier } => DelegatedInputM::Input {
                parameter: toks_view(parameter@),
                ident: match ident {
                    Some(n) => Some(n@),
                    None => None,
                },
                modifier: *modifier,
            },
        }
    }
}

/// The models of a sequence of inputs.
pub open spec fn inputs_view(s: Seq<DelegatedInput>) -> Seq<DelegatedInputM> {
    Seq::new(s.len(), |i: int| s[i]@)
}

/// The models of a sequence of token runs.
pub open spec fn runs_view(s: Seq<Vec<Tok>>) -> Seq<Seq<TokM>> {
    Seq::new(s.len(), |i: int| toks_view(s[i]@))
}

/// A reconstructed method signature.
#[derive(PartialEq, Eq, Debug)]
pub struct MethodSig {
    pub constness: bool,
    pub asyncness: bool,
    pub unsafety: bool,
    /// The `extern` qualifier with its optional literal.
    pub abi: Option<Vec<Tok>>,
    pub name: String,
    /// The tokens between the angle brackets of the generics, brackets
    /// excluded; empty when there are none.
    pub generics: Vec<Tok>,
    /// The signature parameters, one verbatim token run each.
    pub inputs: Vec<Vec<Tok>>,
    /// Whether the first parameter is a receiver.
    pub receiver: bool,
    /// The return type tokens, without the arrow.
    pub output: Option<Vec<Tok>>,
    /// The where-clause tokens, without the `where` keyword.
    pub where_clause: Option<Vec<Tok>>,
}

/// The model of a signature.
pub struct MethodSigM {
    pub constness: bool,
    pub asyncness: bool,
    pub unsafety: bool,
    pub abi: Option<Seq<TokM>>,
    pub name: Seq<char>,
    pub generics: Seq<TokM>,
    pub inputs: Seq<Seq<TokM>>,
    pub receiver: bool,
    pub output: Option<Seq<TokM>>,
    pub where_clause: Option<Seq<TokM>>,
}

impl View for MethodSig {
    type V = MethodSigM;

    open spec fn view(&self) -> MethodSigM {
        MethodSigM {
            constness: self.constness,
            asyncness: self.asyncness,
            unsafety: self.unsafety,
            abi: match &self.abi {
                Some(ts) => Some(toks_view(ts@)),
                None => None,
            },
            name: self.name@,
            generics: toks_view(self.generics@),
            inputs: runs_view(self.inputs@),
            receiver: self.receiver,
            output: match &self.output {
                Some(ts) => Some(toks_view(ts@)),
                None => None,
            },
            where_clause: match &self.where_clause {
                Some(ts) => Some(toks_view(ts@)),
                None => None,
            },
        }
    }
}

/// One declared forwarding method.
#[derive(PartialEq, Eq, Debug)]
pub struct DelegatedMethod {
    /// Every outer annotation of the declaration, special ones
    /// included.
    pub attributes: Vec<Attr>,
    /// The visibility tokens, verbatim.
    pub visibility: Vec<Tok>,
    pub sig: MethodSig,
    /// The call-site argument expressions, in declaration order.
    pub arguments: Vec<Vec<Tok>>,
}

/// The model of one declared method.
pub struct DelegatedMethodM {
    pub attributes: Seq<AttrM>,
    pub visibility: Seq<TokM>,
    pub sig: MethodSigM,
    pub arguments: Seq<Seq<TokM>>,
}

impl View for DelegatedMethod {
    type V = DelegatedMethodM;

    open spec fn view(&self) -> DelegatedMethodM {
        DelegatedMethodM {
            attributes: attrs_view(self.attributes@),
            visibility: toks_view(self.visibility@),
            sig: self.sig@,
            arguments: runs_view(self.arguments@),
        }
    }
}

/// One arm of a match-expression delegation target.
#[derive(PartialEq, Eq, Debug)]
pub struct MatchArm {
    /// The pattern tokens, guard included.
    pub pat: Vec<Tok>,
    /// The arm's body expression tokens.
    pub body: Vec<Tok>,
}

/// The model of one arm.
pub struct MatchArmM {
    pub pat: Seq<TokM>,
    pub body: Seq<TokM>,
}

impl View for MatchArm {
    type V = MatchArmM;

    open spec fn view(&self) -> MatchArmM {
        MatchArmM { pat: toks_view(self.pat@), body: toks_view(self.body@) }
    }
}

/// The models of a sequence of arms.
pub open spec fn arms_view(s: Seq<MatchArm>) -> Seq<MatchArmM> {
    Seq::new(s.len(), |i: int| s[i]@)
}

/// The receiver-producing part of a delegation target.
#[derive(PartialEq, Eq, Debug)]
pub enum DelegBody {
    /// An ordinary expression.
    Plain(Vec<Tok>),
    /// A match expression whose arms each yield one receiver.
    MatchExpr { head: Vec<Tok>, arms: Vec<MatchArm> },
}

/// The model of a target body.
pub enum DelegBodyM {
    Plain(Seq<TokM>),
    MatchExpr { head: Seq<TokM>, arms: Seq<MatchArmM> },
}

impl View for DelegBody {
    type V = DelegBodyM;

    open spec fn view(&self) -> DelegBodyM {
        match self {
            DelegBody::Plain(ts) => DelegBodyM::Plain(toks_view(ts@)),
            DelegBody::MatchExpr { head, arms } => DelegBodyM::MatchExpr {
                head: toks_view(head@),
                arms: arms_view(arms@),
            },
        }
    }
}

/// A delegation target: an optional closure parameter list and the
/// receiver-producing body.
#[derive(PartialEq, Eq, Debug)]
pub struct Delegator {
    /// The typed parameters of a closure target, one run each.
    pub closure_params: Option<Vec<Vec<Tok>>>,
    pub body: DelegBody,
}

/// The model of a target.
pub struct DelegatorM {
    pub closure_params: Option<Seq<Seq<TokM>>>,
    pub body: DelegBodyM,
}

impl View for Delegator {
    type V = DelegatorM;

    open spec fn view(&self) -> DelegatorM {
        DelegatorM {
            closure_params: match &self.closure_params {
                Some(ps) => Some(runs_view(ps@)),
                None => None,
            },
            body: self.body@,
        }
    }
}

/// One `to <expr> { ... }` section.
#[derive(PartialEq, Eq, Debug)]
pub struct DelegatedSegment {
    pub segment_attrs: SegmentAttributes,
    pub delegator: Delegator,
    pub methods: Vec<DelegatedMethod>,
}

/// The model of one segment.
pub struct DelegatedSegmentM {
    pub segment_attrs: SegmentAttributesM,
    pub delegator: DelegatorM,
    pub methods: Seq<DelegatedMethodM>,
}

impl View for DelegatedSegment {
    type V = DelegatedSegmentM;

    open spec fn view(&self) -> DelegatedSegmentM {
        DelegatedSegmentM {
            segment_attrs: self.segment_attrs@,
            delegator: self.delegator@,
            methods: Seq::new(self.methods@.len(), |i: int| self.methods@[i]@),
        }
    }
}

/// The parsed delegation block: an ordered sequence of segments.
#[derive(PartialEq, Eq, Debug)]
pub struct DelegationBlock {
    pub segments: Vec<DelegatedSegment>,
}

/// The model of a block.
pub struct DelegationBlockM {
    pub segments: Seq<DelegatedSegmentM>,
}

impl View for DelegationBlock {
    type V = DelegationBlockM;

    open spec fn view(&self) -> DelegationBlockM {
        DelegationBlockM {
            segments: Seq::new(self.segments@.len(), |i: int| self.segments@[i]@),
        }
    }
}

/// The forwarded-argument expression of a named parameter: the bare
/// identifier, wrapped by its modifier when one was given.
pub open spec fn arg_expr(id: Seq<char>, m: Option<ArgumentModifier>) -> Seq<TokM> {
    match m {
        None => seq![TokM::Ident(id)],
        Some(ArgumentModifier::Into) => seq![
            TokM::Ident(id),
            TokM::Punct('.'),
            TokM::Ident("into"@),
            TokM::Group(Delim::Paren, Seq::empty()),
        ],
        Some(ArgumentModifier::AsRef) => seq![
            TokM::Ident(id),
            TokM::Punct('.'),
            TokM::Ident("as_ref"@),
            TokM::Group(Delim::Paren, Seq::empty()),
        ],
        Some(ArgumentModifier::Newtype) => seq![
            TokM::Ident(id),
            TokM::Punct('.'),
            TokM::Lit("0"@),
        ],
    }
}

/// The signature parameters produced by an input list: each parameter
/// input verbatim, in order; bracket-wrapped inputs contribute
/// nothing.
pub open spec fn sig_params(s: Seq<DelegatedInputM>) -> Seq<Seq<TokM>>
    decreases s.len(),
{
    if s.len() == 0 {
        Seq::empty()
    } else {
        (match s[0] {
            DelegatedInputM::Input { parameter, .. } => seq![parameter],
            _ => Seq::empty(),
        }) + sig_params(s.skip(1))
    }
}

/// The call arguments produced by an input list: a bracket-wrapped
/// input contributes its expression, a named parameter contributes its
/// (possibly modified) identifier, a receiver contributes nothing; the
/// declaration order is kept.
pub open spec fn call_args(s: Seq<DelegatedInputM>) -> Seq<Seq<TokM>>
    decreases s.len(),
{
    if s.len() == 0 {
        Seq::empty()
    } else {
        (match s[0] {
            DelegatedInputM::Argument(e) => seq![e],
            DelegatedInputM::Input { ident: Some(id), modifier, .. } => seq![
                arg_expr(id, modifier),
            ],
            _ => Seq::empty(),
        }) + call_args(s.skip(1))
    }
}

/// Both projections distribute over concatenation.
pub proof fn lemma_split_append(a: Seq<DelegatedInputM>, b: Seq<DelegatedInputM>)
    ensures
        sig_params(a + b) == sig_params(a) + sig_params(b),
        call_args(a + b) == call_args(a) + call_args(b),
    decreases a.len(),
{
    if a.len() == 0 {
        assert(a + b =~= b);
        assert(sig_params(a) + sig_params(b) =~= sig_params(b));
        assert(call_args(a) + call_args(b) =~= call_args(b));
    } else {
        lemma_split_append(a.skip(1), b);
        assert((a + b).skip(1) =~= a.skip(1) + b);
        assert(sig_params(a + b) =~= sig_params(a) + sig_params(b));
        assert(call_args(a + b) =~= call_args(a) + call_args(b));
    }
}

/// Both projections on one more input.
pub proof fn lemma_split_step(s: Seq<DelegatedInputM>, k: int)
    requires
        0 <= k < s.len(),
    ensures
        sig_params(s.take(k + 1)) == sig_params(s.take(k)) + (match s[k] {
            DelegatedInputM::Input { parameter, .. } => seq![parameter],
            _ => Seq::<Seq<TokM>>::empty(),
        }),
        call_args(s.take(k + 1)) == call_args(s.take(k)) + (match s[k] {
            DelegatedInputM::Argument(e) => seq![e],
            DelegatedInputM::Input { ident: Some(id), modifier, .. } => seq![
                arg_expr(id, modifier),
            ],
            _ => Seq::<Seq<TokM>>::empty(),
        }),
{
    reveal_with_fuel(sig_params, 2);
    reveal_with_fuel(call_args, 2);
    assert(s.take(k + 1) =~= s.take(k) + seq![s[k]]);
    lemma_split_append(s.take(k), seq![s[k]]);
    assert(seq![s[k]].skip(1) =~= Seq::<DelegatedInputM>::empty());
}

/// The signature/argument split law: a bracket-wrapped input's
/// expression stands in the call arguments at its declared position —
/// after every argument contributed by earlier inputs, before every
/// later one — and the signature's parameters are those of the other
/// inputs alone, so the expression never appears there.
pub proof fn lemma_bracket_split(s: Seq<DelegatedInputM>, i: int)
    requires
        0 <= i < s.len(),
        s[i] is Argument,
    ensures
        call_args(s.take(i)).len() < call_args(s).len(),
        call_args(s)[call_args(s.take(i)).len() as int] == s[i]->Argument_0,
        sig_params(s) == sig_params(s.take(i)) + sig_params(s.skip(i + 1)),
{
    assert(s =~= s.take(i + 1) + s.skip(i + 1));
    lemma_split_append(s.take(i + 1), s.skip(i + 1));
    lemma_split_step(s, i);
}

/// Split an input list into the signature parameters and the call
/// arguments, both in declaration order.
#[verifier::loop_isolation(false)]
pub fn split_inputs(inputs: &Vec<DelegatedInput>) -> (r: (Vec<Vec<Tok>>, Vec<Vec<Tok>>))
    ensures
        runs_view(r.0@) == sig_params(inputs_view(inputs@)),
        runs_view(r.1@) == call_args(inputs_view(inputs@)),
{
    let ghost im = inputs_view(inputs@);
    let mut params: Vec<Vec<Tok>> = Vec::new();
    let mut args: Vec<Vec<Tok>> = Vec::new();
    let mut k: usize = 0;
    while k < inputs.len()
        invariant
            k <= im.len(),
            runs_view(params@) == sig_params(im.take(k as int)),
            runs_view(args@) == call_args(im.take(k as int)),
        decreases im.len() - k,
    {
        proof {
            lemma_split_step(im, k as int);
            assert(im[k as int] == inputs@[k as int]@);
        }
        match &inputs[k] {
            DelegatedInput::Argument(e) => {
                let run = copy_toks(e);
                args.push(run);
            },
            DelegatedInput::Input { parameter, ident, modifier } => {
                let run = copy_toks(parameter);
                params.push(run);
                match ident {
                    Some(id) => {
                        let a = argument_expression(id, modifier);
                        args.push(a);
                    },
                    None => {},
                }
            },
        }
        proof {
            assert(runs_view(params@) =~= sig_params(im.take(k + 1)));
            assert(runs_view(args@) =~= call_args(im.take(k + 1)));
        }
        k += 1;
    }
    proof {
        assert(im.take(im.len() as int) =~= im);
    }
    (params, args)
}

/// Where an annotation path that started at the head ends, scanning
/// from `i`: each further `:: ident` extends it; a `::` followed by
/// anything else is malformed.
pub open spec fn spec_attr_path_end(s: Seq<TokM>, i: int) -> Option<int>
    decreases s.len() - i,
{
    if i < s.len() && s.len() - i > 2 && s[i] == TokM::Punct(':') && s[i + 1] == TokM::Punct(':') {
        if s[i + 2] is Ident {
            spec_attr_path_end(s, i + 3)
        } else {
            None
        }
    } else {
        Some(i)
    }
}

/// The annotation inside one `#[ ... ]`: a path of identifiers joined
/// by `::`, then nothing, one delimited group, or `=` and a value.
pub open spec fn spec_parse_attr_body(s: Seq<TokM>) -> Option<AttrM> {
    if s.len() == 0 || !(s[0] is Ident) {
        None
    } else {
        match spec_attr_path_end(s, 1) {
            None => None,
            Some(i) => if i == s.len() {
                Some(AttrM { path: s.take(i), args: AttrArgsM::Empty })
            } else if s[i] is Group {
                if i + 1 == s.len() {
                    Some(
                        AttrM {
                            path: s.take(i),
                            args: AttrArgsM::Delimited(s[i]->Group_0, s[i]->Group_1),
                        },
                    )
                } else {
                    None
                }
            } else if s[i] == TokM::Punct('=') {
                Some(AttrM { path: s.take(i), args: AttrArgsM::NameValue(s.skip(i + 1)) })
            } else {
                None
            },
        }
    }
}

/// Parse the tokens inside one `#[ ... ]`: a path of identifiers
/// joined by `::`, then nothing, one delimited group, or `=` and a
/// value.  Any identifier, keywords included, may head the path.
#[verifier::loop_isolation(false)]
fn parse_attr_body(inner: &Vec<Tok>) -> (r: Result<Attr, DelegationError>)
    ensures
        r matches Ok(a) ==> spec_parse_attr_body(toks_view(inner@)) == Some(a@),
        r is Err ==> spec_parse_attr_body(toks_view(inner@)) is None,
{
    let ghost sm = toks_view(inner@);
    if inner.len() == 0 {
        return Err(DelegationError::Malformed);
    }
    let mut path: Vec<Tok> = Vec::new();
    match &inner[0] {
        Tok::Ident(_) => {
            let t = inner[0].duplicate();
            path.push(t);
        },
        _ => {
            return Err(DelegationError::Malformed);
        },
    }
    let mut i: usize = 1;
    proof {
        assert(toks_view(path@) =~= sm.take(1));
    }
    while i < inner.len() && inner.len() - i > 2 && inner[i].is_punct(':') && inner[i + 1].is_punct(':')
        invariant
            1 <= i <= inner@.len(),
            toks_view(path@) == sm.take(i as int),
            spec_attr_path_end(sm, 1) == spec_attr_path_end(sm, i as int),
        decreases inner@.len() - i,
    {
        match &inner[i + 2] {
            Tok::Ident(_) => {
                let a = inner[i].duplicate();
                let b = inner[i + 1].duplicate();
                let c = inner[i + 2].duplicate();
                path.push(a);
                path.push(b);
                path.push(c);
                proof {
                    assert(toks_view(path@) =~= sm.take(i + 3));
                }
                i += 3;
            },
            _ => {
                proof {
                    assert(spec_attr_path_end(sm, i as int) is None);
                }
                return Err(DelegationError::Malformed);
            },
        }
    }
    proof {
        assert(spec_attr_path_end(sm, i as int) == Some(i as int));
    }
    if i == inner.len() {
        return Ok(Attr { path, args: AttrArgs::Empty });
    }
    match &inner[i] {
        Tok::Group(d, ts) => {
            if i + 1 == inner.len() {
                let a = Attr { path, args: AttrArgs::Delimited(*d, copy_toks(ts)) };
                proof {
                    assert(sm[i as int]->Group_1 =~= toks_view(ts@));
                    assert(spec_parse_attr_body(sm) == Some(a@));
                }
                Ok(a)
            } else {
                Err(DelegationError::Malformed)
            }
        },
        Tok::Punct(c) => {
            if *c == '=' {
                let mut value: Vec<Tok> = Vec::new();
                let mut j: usize = i + 1;
                while j < inner.len()
                    invariant
                        i + 1 <= j <= inner@.len(),
                        toks_view(value@) == sm.subrange(i + 1, j as int),
                    decreases inner@.len() - j,
                {
                    let t = inner[j].duplicate();
                    value.push(t);
                    proof {
                        assert(toks_view(value@) =~= sm.subrange(i + 1, j + 1));
                    }
                    j += 1;
                }
                proof {
                    assert(sm.subrange(i + 1, sm.len() as int) =~= sm.skip(i + 1));
                }
                Ok(Attr { path, args: AttrArgs::NameValue(value) })
            } else {
                Err(DelegationError::Malformed)
            }
        },
        _ => Err(DelegationError::Malformed),
    }
}

/// The run of outer annotations (`#[...]`*) from `pos` on, with the
/// already-collected annotations in `acc`, and where the run ends.
pub open spec fn spec_parse_attrs_from(
    s: Seq<TokM>,
    pos: int,
    acc: Seq<AttrM>,
) -> Option<(Seq<AttrM>, int)>
    decreases s.len() - pos,
{
    if pos < s.len() && s[pos] == TokM::Punct('#') {
        if pos + 1 >= s.len() {
            None
        } else if s[pos + 1] is Group && s[pos + 1]->Group_0 == Delim::Bracket {
            match spec_parse_attr_body(s[pos + 1]->Group_1) {
                None => None,
                Some(a) => spec_parse_attrs_from(s, pos + 2, acc.push(a)),
            }
        } else {
            None
        }
    } else {
        Some((acc, pos))
    }
}

/// The run of outer annotations starting at `pos`.
pub open spec fn spec_parse_attrs(s: Seq<TokM>, pos: int) -> Option<(Seq<AttrM>, int)> {
    spec_parse_attrs_from(s, pos, Seq::empty())
}

/// Parse the run of outer annotations (`#[...]`*) starting at `pos`.
#[verifier::loop_isolation(false)]
pub fn parse_outer_attributes(toks: &Vec<Tok>, pos: usize) -> (r: Result<
    (Vec<Attr>, usize),
    DelegationError,
>)
    requires
        pos <= toks@.len(),
    ensures
        r matches Ok(p) ==> pos <= p.1 <= toks@.len() && spec_parse_attrs(
            toks_view(toks@),
            pos as int,
        ) == Some((attrs_view(p.0@), p.1 as int)),
        r is Err ==> spec_parse_attrs(toks_view(toks@), pos as int) is None,
{
    let ghost sm = toks_view(toks@);
    let mut attrs: Vec<Attr> = Vec::new();
    let mut i: usize = pos;
    proof {
        assert(attrs_view(attrs@) =~= Seq::<AttrM>::empty());
    }
    while i < toks.len() && toks[i].is_punct('#')
        invariant
            pos <= i <= toks@.len(),
            spec_parse_attrs(sm, pos as int) == spec_parse_attrs_from(
                sm,
                i as int,
                attrs_view(attrs@),
            ),
        decreases toks@.len() - i,
    {
        proof {
            assert(sm[i as int] == toks@[i as int]@);
        }
        if i + 1 >= toks.len() {
            return Err(DelegationError::Malformed);
        }
        proof {
            assert(sm[i + 1] == toks@[i + 1]@);
        }
        match &toks[i + 1] {
            Tok::Group(Delim::Bracket, inner) => {
                proof {
                    assert(sm[i + 1]->Group_1 =~= toks_view(inner@));
                }
                match parse_attr_body(inner) {
                    Ok(a) => {
                        let ghost acc0 = attrs_view(attrs@);
                        attrs.push(a);
                        proof {
                            assert(attrs_view(attrs@) =~= acc0.push(a@));
                        }
                    },
                    Err(e) => {
                        return Err(e);
                    },
                }
                i += 2;
            },
            _ => {
                return Err(DelegationError::Malformed);
            },
        }
    }
    Ok((attrs, i))
}

/// The visibility tokens at `pos`: nothing, `pub`, or `pub` with a
/// parenthesized restriction, and where they end.
pub open spec fn spec_parse_visibility(s: Seq<TokM>, pos: int) -> (Seq<TokM>, int) {
    if pos < s.len() && s[pos] == TokM::Ident("pub"@) {
        if pos + 1 < s.len() && s[pos + 1] is Group && s[pos + 1]->Group_0 == Delim::Paren {
            (s.subrange(pos, pos + 2), pos + 2)
        } else {
            (s.subrange(pos, pos + 1), pos + 1)
        }
    } else {
        (Seq::empty(), pos)
    }
}

/// Parse the visibility tokens starting at `pos`: nothing, `pub`, or
/// `pub` with a parenthesized restriction.
fn parse_visibility(toks: &Vec<Tok>, pos: usize) -> (r: (Vec<Tok>, usize))
    requires
        pos <= toks@.len(),
    ensures
        pos <= r.1 <= toks@.len(),
        (toks_view(r.0@), r.1 as int) == spec_parse_visibility(toks_view(toks@), pos as int),
{
    let ghost sm = toks_view(toks@);
    let mut out: Vec<Tok> = Vec::new();
    let mut i: usize = pos;
    if i < toks.len() && toks[i].is_ident("pub") {
        proof {
            assert(sm[i as int] == toks@[i as int]@);
        }
        let t = toks[i].duplicate();
        out.push(t);
        i += 1;
        if i < toks.len() {
            proof {
                assert(sm[i as int] == toks@[i as int]@);
            }
            match &toks[i] {
                Tok::Group(Delim::Paren, _) => {
                    let g = toks[i].duplicate();
                    out.push(g);
                    i += 1;
                    proof {
                        assert(toks_view(out@) =~= sm.subrange(pos as int, pos + 2));
                    }
                },
                _ => {
                    proof {
                        assert(toks_view(out@) =~= sm.subrange(pos as int, pos + 1));
                    }
                },
            }
        } else {
            proof {
                assert(toks_view(out@) =~= sm.subrange(pos as int, pos + 1));
            }
        }
    } else {
        proof {
            assert(toks_view(out@) =~= Seq::<TokM>::empty());
        }
    }
    (out, i)
}

/// One state of scanning type-position tokens: collect until a
/// top-level `;`, a brace group, or (when asked) the `where` keyword,
/// tracking angle brackets and skipping `->` arrows; a stray `>`
/// fails.
pub open spec fn spec_scan_type_step(
    s: Seq<TokM>,
    i: int,
    depth: int,
    acc: Seq<TokM>,
    stop_at_where: bool,
) -> Option<(Seq<TokM>, int)>
    decreases s.len() - i,
{
    if i >= s.len() {
        Some((acc, i))
    } else if depth == 0 && (s[i] == TokM::Punct(';') || (stop_at_where && s[i] == TokM::Ident(
        "where"@,
    )) || (s[i] is Group && s[i]->Group_0 == Delim::Brace)) {
        Some((acc, i))
    } else if s[i] == TokM::Punct('-') && i + 1 < s.len() && s[i + 1] == TokM::Punct('>') {
        spec_scan_type_step(s, i + 2, depth, acc + seq![s[i], s[i + 1]], stop_at_where)
    } else if s[i] == TokM::Punct('<') {
        spec_scan_type_step(s, i + 1, depth + 1, acc.push(s[i]), stop_at_where)
    } else if s[i] == TokM::Punct('>') {
        if depth == 0 {
            None
        } else {
            spec_scan_type_step(s, i + 1, depth - 1, acc.push(s[i]), stop_at_where)
        }
    } else {
        spec_scan_type_step(s, i + 1, depth, acc.push(s[i]), stop_at_where)
    }
}

/// The type-position tokens from `pos` and where they end.
pub open spec fn spec_scan_type(s: Seq<TokM>, pos: int, stop_at_where: bool) -> Option<
    (Seq<TokM>, int),
> {
    spec_scan_type_step(s, pos, 0, Seq::empty(), stop_at_where)
}

/// Collect type-position tokens from `pos` until a top-level `;`, a
/// brace group, or (when asked) the `where` keyword, tracking angle
/// brackets and skipping `->` arrows.
#[verifier::loop_isolation(false)]
fn scan_type_tokens(toks: &Vec<Tok>, pos: usize, stop_at_where: bool) -> (r: Result<
    (Vec<Tok>, usize),
    DelegationError,
>)
    requires
        pos <= toks@.len(),
    ensures
        r matches Ok(p) ==> pos <= p.1 <= toks@.len() && spec_scan_type(
            toks_view(toks@),
            pos as int,
            stop_at_where,
        ) == Some((toks_view(p.0@), p.1 as int)),
        r is Err ==> spec_scan_type(toks_view(toks@), pos as int, stop_at_where) is None,
{
    let ghost sm = toks_view(toks@);
    let mut out: Vec<Tok> = Vec::new();
    let mut depth: usize = 0;
    let mut i: usize = pos;
    proof {
        assert(toks_view(out@) =~= Seq::<TokM>::empty());
    }
    while i < toks.len()
        invariant
            pos <= i <= toks@.len(),
            depth <= i - pos,
            spec_scan_type(sm, pos as int, stop_at_where) == spec_scan_type_step(
                sm,
                i as int,
                depth as int,
                toks_view(out@),
                stop_at_where,
            ),
        decreases toks@.len() - i,
    {
        proof {
            assert(sm[i as int] == toks@[i as int]@);
        }
        let stop_here = depth == 0 && (toks[i].is_punct(';') || (stop_at_where && toks[i].is_ident(
            "where",
        )) || match &toks[i] {
            Tok::Group(Delim::Brace, _) => true,
            _ => false,
        });
        if stop_here {
            return Ok((out, i));
        }
        if toks[i].is_punct('-') && i + 1 < toks.len() && toks[i + 1].is_punct('>') {
            proof {
                assert(sm[i + 1] == toks@[i + 1]@);
            }
            let ghost acc0 = toks_view(out@);
            let a = toks[i].duplicate();
            let b = toks[i + 1].duplicate();
            out.push(a);
            out.push(b);
            proof {
                assert(toks_view(out@) =~= acc0 + seq![sm[i as int], sm[i + 1]]);
            }
            i += 2;
        } else {
            if toks[i].is_punct('<') {
                depth += 1;
            } else if toks[i].is_punct('>') {
                if depth == 0 {
                    return Err(DelegationError::Malformed);
                }
                depth -= 1;
            }
            let ghost acc0 = toks_view(out@);
            let t = toks[i].duplicate();
            out.push(t);
            proof {
                assert(toks_view(out@) =~= acc0.push(sm[i as int]));
            }
            i += 1;
        }
    }
    Ok((out, i))
}

/// One state of splitting a run at top-level commas: `s` is what is
/// left, `depth` the open angle brackets, `cur` the chunk being read,
/// `acc` the finished chunks.  `->` arrows pass through; a stray `>`
/// fails.
pub open spec fn split_commas_step(
    s: Seq<TokM>,
    depth: int,
    cur: Seq<TokM>,
    acc: Seq<Seq<TokM>>,
) -> Option<Seq<Seq<TokM>>>
    decreases s.len(),
{
    if s.len() == 0 {
        Some(
            if cur.len() > 0 {
                acc.push(cur)
            } else {
                acc
            },
        )
    } else if s[0] == TokM::Punct('-') && s.len() > 1 && s[1] == TokM::Punct('>') {
        split_commas_step(s.skip(2), depth, cur + seq![s[0], s[1]], acc)
    } else if depth == 0 && s[0] == TokM::Punct(',') {
        split_commas_step(s.skip(1), 0, Seq::empty(), acc.push(cur))
    } else if s[0] == TokM::Punct('<') {
        split_commas_step(s.skip(1), depth + 1, cur.push(s[0]), acc)
    } else if s[0] == TokM::Punct('>') {
        if depth == 0 {
            None
        } else {
            split_commas_step(s.skip(1), depth - 1, cur.push(s[0]), acc)
        }
    } else {
        split_commas_step(s.skip(1), depth, cur.push(s[0]), acc)
    }
}

/// The chunks of a run split at its top-level commas, or nothing when
/// the angle brackets do not balance.
pub open spec fn spec_split_commas(s: Seq<TokM>) -> Option<Seq<Seq<TokM>>> {
    split_commas_step(s, 0, Seq::empty(), Seq::empty())
}

/// Split a comma-separated token run at its top-level commas, keeping
/// angle-bracketed runs together and skipping `->` arrows.
#[verifier::loop_isolation(false)]
pub(crate) fn split_commas(toks: &Vec<Tok>) -> (r: Result<Vec<Vec<Tok>>, DelegationError>)
    ensures
        r matches Ok(cs) ==> spec_split_commas(toks_view(toks@)) == Some(runs_view(cs@)),
        r is Err ==> spec_split_commas(toks_view(toks@)) is None,
{
    let ghost sm = toks_view(toks@);
    let mut chunks: Vec<Vec<Tok>> = Vec::new();
    let mut cur: Vec<Tok> = Vec::new();
    let mut depth: usize = 0;
    let mut i: usize = 0;
    proof {
        assert(sm.skip(0) =~= sm);
        assert(toks_view(cur@) =~= Seq::<TokM>::empty());
        assert(runs_view(chunks@) =~= Seq::<Seq<TokM>>::empty());
    }
    while i < toks.len()
        invariant
            i <= toks@.len(),
            depth <= i,
            spec_split_commas(sm) == split_commas_step(
                sm.skip(i as int),
                depth as int,
                toks_view(cur@),
                runs_view(chunks@),
            ),
        decreases toks@.len() - i,
    {
        proof {
            assert(sm.skip(i as int)[0] == sm[i as int]);
            assert(sm[i as int] == toks@[i as int]@);
        }
        if toks[i].is_punct('-') && i + 1 < toks.len() && toks[i + 1].is_punct('>') {
            proof {
                assert(sm.skip(i as int)[1] == sm[i + 1]);
                assert(sm.skip(i as int).skip(2) =~= sm.skip(i + 2));
            }
            let ghost cur0 = toks_view(cur@);
            let a = toks[i].duplicate();
            let b = toks[i + 1].duplicate();
            cur.push(a);
            cur.push(b);
            proof {
                assert(toks_view(cur@) =~= cur0 + seq![sm[i as int], sm[i + 1]]);
            }
            i += 2;
        } else if depth == 0 && toks[i].is_punct(',') {
            proof {
                assert(sm.skip(i as int).skip(1) =~= sm.skip(i + 1));
            }
            let ghost acc0 = runs_view(chunks@);
            let ghost cur0 = toks_view(cur@);
            chunks.push(cur);
            cur = Vec::new();
            proof {
                assert(runs_view(chunks@) =~= acc0.push(cur0));
                assert(toks_view(cur@) =~= Seq::<TokM>::empty());
            }
            i += 1;
        } else {
            proof {
                assert(sm.skip(i as int).skip(1) =~= sm.skip(i + 1));
            }
            if toks[i].is_punct('<') {
                depth += 1;
            } else if toks[i].is_punct('>') {
                if depth == 0 {
                    return Err(DelegationError::Malformed);
                }
                depth -= 1;
            }
            let ghost cur0 = toks_view(cur@);
            let t = toks[i].duplicate();
            cur.push(t);
            proof {
                assert(toks_view(cur@) =~= cur0.push(sm[i as int]));
            }
            i += 1;
        }
    }
    proof {
        assert(sm.skip(sm.len() as int) =~= Seq::<TokM>::empty());
    }
    if cur.len() > 0 {
        let ghost acc0 = runs_view(chunks@);
        let ghost cur0 = toks_view(cur@);
        chunks.push(cur);
        proof {
            assert(runs_view(chunks@) =~= acc0.push(cur0));
        }
    }
    Ok(chunks)
}

/// The modifier named by a parameter annotation: `into`, `as_ref` or
/// `newtype`, with no arguments.
/// The modifier a parameter annotation names: `into`, `as_ref` or
/// `newtype`, bare of arguments.
pub open spec fn spec_argument_modifier(a: AttrM) -> Option<ArgumentModifier> {
    if a.args is Empty {
        match crate::attributes::attr_ident(a) {
            Some(n) => if n == "into"@ {
                Some(ArgumentModifier::Into)
            } else if n == "as_ref"@ {
                Some(ArgumentModifier::AsRef)
            } else if n == "newtype"@ {
                Some(ArgumentModifier::Newtype)
            } else {
                None
            },
            None => None,
        }
    } else {
        None
    }
}

fn get_argument_modifier(attr: &Attr) -> (r: Result<ArgumentModifier, DelegationError>)
    ensures
        r matches Ok(m) ==> spec_argument_modifier(attr@) == Some(m),
        r is Err ==> spec_argument_modifier(attr@) is None,
{
    let is_bare = match &attr.args {
        AttrArgs::Empty => true,
        _ => false,
    };
    if is_bare {
        match attr.name() {
            Some(n) => {
                if crate::tokens::str_eq(n.as_str(), "into") {
                    return Ok(ArgumentModifier::Into);
                } else if crate::tokens::str_eq(n.as_str(), "as_ref") {
                    return Ok(ArgumentModifier::AsRef);
                } else if crate::tokens::str_eq(n.as_str(), "newtype") {
                    return Ok(ArgumentModifier::Newtype);
                }
            },
            None => {},
        }
    }
    Err(DelegationError::UnknownParamModifier)
}

/// Where the receiver-prefix scan of a parameter ends: past an
/// optional `&` and an optional lifetime; a stray token after the
/// lifetime tick fails.
pub open spec fn spec_receiver_scan(chunk: Seq<TokM>, p: int) -> Option<int> {
    let n = chunk.len();
    if p < n && chunk[p] == TokM::Punct('&') {
        if p + 1 < n && chunk[p + 1] == TokM::Punct('\'') {
            if p + 2 < n {
                if chunk[p + 2] is Ident {
                    Some(p + 3)
                } else {
                    None
                }
            } else {
                Some(p + 2)
            }
        } else {
            Some(p + 1)
        }
    } else {
        Some(p)
    }
}

/// One comma-separated input chunk: a bracket-wrapped injected
/// argument, a receiver, or a named and typed parameter with an
/// optional modifier annotation.
pub open spec fn spec_parse_one_input(chunk: Seq<TokM>) -> Option<DelegatedInputM> {
    let n = chunk.len();
    if n == 0 {
        None
    } else if n == 1 && chunk[0] is Group && chunk[0]->Group_0 == Delim::Bracket {
        if chunk[0]->Group_1.len() == 0 {
            None
        } else {
            Some(DelegatedInputM::Argument(chunk[0]->Group_1))
        }
    } else {
        match spec_parse_attrs(chunk, 0) {
            None => None,
            Some((attrs, p)) => if attrs.len() > 1 {
                None
            } else if attrs.len() == 1 && spec_argument_modifier(attrs[0]) is None {
                None
            } else if p >= n {
                None
            } else {
                let modifier = if attrs.len() == 1 {
                    spec_argument_modifier(attrs[0])
                } else {
                    None
                };
                let parameter = chunk.skip(p);
                match spec_receiver_scan(chunk, p) {
                    None => None,
                    Some(q0) => {
                        let q = if q0 < n && chunk[q0] == TokM::Ident("mut"@) {
                            q0 + 1
                        } else {
                            q0
                        };
                        if q < n && chunk[q] == TokM::Ident("self"@) {
                            Some(DelegatedInputM::Input { parameter, ident: None, modifier })
                        } else {
                            let w = if chunk[p] == TokM::Ident("mut"@) {
                                p + 1
                            } else {
                                p
                            };
                            if w < n && n - w > 1 && chunk[w + 1] == TokM::Punct(':') && chunk[w] is Ident {
                                Some(
                                    DelegatedInputM::Input {
                                        parameter,
                                        ident: Some(chunk[w]->Ident_0),
                                        modifier,
                                    },
                                )
                            } else {
                                None
                            }
                        }
                    },
                }
            },
        }
    }
}

/// Parse one comma-separated input chunk: a bracket-wrapped injected
/// argument, a receiver, or a named and typed parameter with an
/// optional modifier annotation.
#[verifier::loop_isolation(false)]
fn parse_one_input(chunk: &Vec<Tok>, fn_name: &String) -> (r: Result<
    DelegatedInput,
    DelegationError,
>)
    ensures
        r matches Ok(d) ==> spec_parse_one_input(toks_view(chunk@)) == Some(d@),
        r is Err ==> spec_parse_one_input(toks_view(chunk@)) is None,
{
    let ghost sm = toks_view(chunk@);
    if chunk.len() == 0 {
        return Err(DelegationError::Malformed);
    }
    if chunk.len() == 1 {
        proof {
            assert(sm[0] == chunk@[0]@);
        }
        match &chunk[0] {
            Tok::Group(Delim::Bracket, inner) => {
                if inner.len() == 0 {
                    return Err(DelegationError::Malformed);
                }
                let d = DelegatedInput::Argument(copy_toks(inner));
                proof {
                    assert(sm[0]->Group_1 =~= toks_view(inner@));
                    assert(spec_parse_one_input(sm) == Some(d@));
                }
                return Ok(d);
            },
            _ => {},
        }
    }
    let (attrs, p) = match parse_outer_attributes(chunk, 0) {
        Ok(x) => x,
        Err(_) => {
            return Err(DelegationError::UnknownParamModifier);
        },
    };
    if attrs.len() > 1 {
        return Err(DelegationError::MultipleParamModifiers);
    }
    let modifier = if attrs.len() == 1 {
        match get_argument_modifier(&attrs[0]) {
            Ok(m) => Some(m),
            Err(e) => {
                return Err(e);
            },
        }
    } else {
        None
    };
    if p >= chunk.len() {
        return Err(DelegationError::Malformed);
    }
    let mut parameter: Vec<Tok> = Vec::new();
    let mut j: usize = p;
    while j < chunk.len()
        invariant
            p <= j <= chunk@.len(),
            toks_view(parameter@) == sm.subrange(p as int, j as int),
        decreases chunk@.len() - j,
    {
        let t = chunk[j].duplicate();
        parameter.push(t);
        proof {
            assert(toks_view(parameter@) =~= sm.subrange(p as int, j + 1));
        }
        j += 1;
    }
    proof {
        assert(toks_view(parameter@) =~= sm.skip(p as int));
    }
    // receiver detection: `&`, an optional lifetime, an optional
    // `mut`, then `self`; or `self` / `mut self` directly, with or
    // without an explicit type
    let mut q: usize = p;
    if q < chunk.len() && chunk[q].is_punct('&') {
        q += 1;
        if q < chunk.len() && chunk[q].is_punct('\'') {
            q += 1;
            if q < chunk.len() {
                match &chunk[q] {
                    Tok::Ident(_) => {
                        q += 1;
                    },
                    _ => {
                        proof {
                            assert(sm[q as int] == chunk@[q as int]@);
                            assert(spec_receiver_scan(sm, p as int) is None);
                        }
                        return Err(DelegationError::Malformed);
                    },
                }
            }
        }
    }
    proof {
        assert(spec_receiver_scan(sm, p as int) == Some(q as int));
    }
    if q < chunk.len() && chunk[q].is_ident("mut") {
        q += 1;
    }
    if q < chunk.len() && chunk[q].is_ident("self") {
        let d = DelegatedInput::Input { parameter, ident: None, modifier };
        proof {
            assert(spec_parse_one_input(sm) == Some(d@));
        }
        return Ok(d);
    }
    // a named parameter: an optional `mut`, an identifier, `:`, a type
    let mut w: usize = p;
    if w < chunk.len() && chunk[w].is_ident("mut") {
        w += 1;
    }
    if w < chunk.len() && chunk.len() - w > 1 && chunk[w + 1].is_punct(':') {
        match &chunk[w] {
            Tok::Ident(name) => {
                let d = DelegatedInput::Input {
                    parameter,
                    ident: Some(name.clone()),
                    modifier,
                };
                proof {
                    assert(sm[w as int] == chunk@[w as int]@);
                    assert(spec_parse_one_input(sm) == Some(d@));
                }
                return Ok(d);
            },
            _ => {},
        }
    }
    proof {
        if w < chunk@.len() {
            assert(sm[w as int] == chunk@[w as int]@);
        }
        assert(spec_parse_one_input(sm) is None);
    }
    Err(DelegationError::NonIdentParam(fn_name.clone()))
}

/// The `const`/`async`/`unsafe`/`extern` qualifier run at `i` and
/// where it ends.
pub open spec fn spec_method_quals(s: Seq<TokM>, i: int) -> (bool, bool, bool, Option<Seq<TokM>>, int) {
    let n = s.len();
    let constness = i < n && s[i] == TokM::Ident("const"@);
    let i1 = if constness { i + 1 } else { i };
    let asyncness = i1 < n && s[i1] == TokM::Ident("async"@);
    let i2 = if asyncness { i1 + 1 } else { i1 };
    let unsafety = i2 < n && s[i2] == TokM::Ident("unsafe"@);
    let i3 = if unsafety { i2 + 1 } else { i2 };
    if i3 < n && s[i3] == TokM::Ident("extern"@) {
        if i3 + 1 < n && s[i3 + 1] is Lit {
            (constness, asyncness, unsafety, Some(s.subrange(i3, i3 + 2)), i3 + 2)
        } else {
            (constness, asyncness, unsafety, Some(s.subrange(i3, i3 + 1)), i3 + 1)
        }
    } else {
        (constness, asyncness, unsafety, None, i3)
    }
}

/// One state of collecting the generics run after its opening `<`:
/// angle depth tracked, `->` arrows passed through, the closing `>`
/// not collected.
pub open spec fn spec_scan_generics(
    s: Seq<TokM>,
    i: int,
    depth: int,
    acc: Seq<TokM>,
) -> Option<(Seq<TokM>, int)>
    decreases s.len() - i,
{
    if depth <= 0 {
        Some((acc, i))
    } else if i >= s.len() {
        None
    } else if s[i] == TokM::Punct('-') && i + 1 < s.len() && s[i + 1] == TokM::Punct('>') {
        spec_scan_generics(s, i + 2, depth, acc + seq![s[i], s[i + 1]])
    } else if s[i] == TokM::Punct('<') {
        spec_scan_generics(s, i + 1, depth + 1, acc.push(s[i]))
    } else if s[i] == TokM::Punct('>') {
        if depth == 1 {
            spec_scan_generics(s, i + 1, 0, acc)
        } else {
            spec_scan_generics(s, i + 1, depth - 1, acc.push(s[i]))
        }
    } else {
        spec_scan_generics(s, i + 1, depth, acc.push(s[i]))
    }
}

/// The generics run at `i`: empty without an opening `<`.
pub open spec fn spec_generics_stage(s: Seq<TokM>, i: int) -> Option<(Seq<TokM>, int)> {
    if i < s.len() && s[i] == TokM::Punct('<') {
        spec_scan_generics(s, i + 1, 1, Seq::empty())
    } else {
        Some((Seq::empty(), i))
    }
}

/// The input chunks from `k` on parsed one by one, extending `acc`.
pub open spec fn spec_parse_inputs_from(
    chunks: Seq<Seq<TokM>>,
    k: int,
    acc: Seq<DelegatedInputM>,
) -> Option<Seq<DelegatedInputM>>
    decreases chunks.len() - k,
{
    if k >= chunks.len() {
        Some(acc)
    } else {
        match spec_parse_one_input(chunks[k]) {
            None => None,
            Some(d) => spec_parse_inputs_from(chunks, k + 1, acc.push(d)),
        }
    }
}

/// Every input chunk parsed, in order.
pub open spec fn spec_parse_inputs(chunks: Seq<Seq<TokM>>) -> Option<Seq<DelegatedInputM>> {
    spec_parse_inputs_from(chunks, 0, Seq::empty())
}

/// Whether some input is a receiver.
pub open spec fn spec_has_receiver(ins: Seq<DelegatedInputM>) -> bool {
    exists|x: int|
        0 <= x < ins.len() && (#[trigger] ins[x]) matches DelegatedInputM::Input {
            ident: None,
            ..
        }
}

/// The inputs carried by the tokens of one parenthesized list: split
/// at top-level commas, each chunk parsed.
pub open spec fn spec_inputs_of(inner: Seq<TokM>) -> Option<Seq<DelegatedInputM>> {
    match spec_split_commas(inner) {
        None => None,
        Some(chunks) => spec_parse_inputs(chunks),
    }
}

/// The parenthesized input list at `i`: its parsed inputs and the
/// position after the group.
pub open spec fn spec_inputs_stage(s: Seq<TokM>, i: int) -> Option<(Seq<DelegatedInputM>, int)> {
    if i < s.len() && s[i] is Group && s[i]->Group_0 == Delim::Paren {
        match spec_inputs_of(s[i]->Group_1) {
            None => None,
            Some(dins) => Some((dins, i + 1)),
        }
    } else {
        None
    }
}

/// Scan a generics run after its opening `<`, up to and past the
/// matching `>`.
#[verifier::loop_isolation(false)]
fn scan_generics(toks: &Vec<Tok>, pos: usize) -> (r: Result<(Vec<Tok>, usize), DelegationError>)
    requires
        1 <= pos <= toks@.len(),
    ensures
        r matches Ok(p) ==> pos <= p.1 <= toks@.len() && spec_scan_generics(
            toks_view(toks@),
            pos as int,
            1,
            Seq::empty(),
        ) == Some((toks_view(p.0@), p.1 as int)),
        r is Err ==> spec_scan_generics(toks_view(toks@), pos as int, 1, Seq::empty()) is None,
{
    let ghost sm = toks_view(toks@);
    let mut generics: Vec<Tok> = Vec::new();
    let mut i: usize = pos;
    let mut depth: usize = 1;
    proof {
        assert(toks_view(generics@) =~= Seq::<TokM>::empty());
    }
    while i < toks.len() && depth > 0
        invariant
            pos <= i <= toks@.len(),
            depth <= 1 + i - pos,
            spec_scan_generics(sm, pos as int, 1, Seq::empty()) == spec_scan_generics(
                sm,
                i as int,
                depth as int,
                toks_view(generics@),
            ),
        decreases toks@.len() - i,
    {
        proof {
            assert(sm[i as int] == toks@[i as int]@);
        }
        if toks[i].is_punct('-') && i + 1 < toks.len() && toks[i + 1].is_punct('>') {
            proof {
                assert(sm[i + 1] == toks@[i + 1]@);
            }
            let ghost acc0 = toks_view(generics@);
            let a = toks[i].duplicate();
            let b = toks[i + 1].duplicate();
            generics.push(a);
            generics.push(b);
            proof {
                assert(toks_view(generics@) =~= acc0 + seq![sm[i as int], sm[i + 1]]);
            }
            i += 2;
        } else if toks[i].is_punct('<') {
            depth += 1;
            let ghost acc0 = toks_view(generics@);
            let t = toks[i].duplicate();
            generics.push(t);
            proof {
                assert(toks_view(generics@) =~= acc0.push(sm[i as int]));
            }
            i += 1;
        } else if toks[i].is_punct('>') {
            depth -= 1;
            if depth > 0 {
                let ghost acc0 = toks_view(generics@);
                let t = toks[i].duplicate();
                generics.push(t);
                proof {
                    assert(toks_view(generics@) =~= acc0.push(sm[i as int]));
                }
            }
            i += 1;
        } else {
            let ghost acc0 = toks_view(generics@);
            let t = toks[i].duplicate();
            generics.push(t);
            proof {
                assert(toks_view(generics@) =~= acc0.push(sm[i as int]));
            }
            i += 1;
        }
    }
    if depth > 0 {
        return Err(DelegationError::Malformed);
    }
    Ok((generics, i))
}

/// Parse every input of one parenthesized list.
#[verifier::loop_isolation(false)]
fn parse_input_chunks(inner: &Vec<Tok>, fn_name: &String) -> (r: Result<
    Vec<DelegatedInput>,
    DelegationError,
>)
    ensures
        r matches Ok(v) ==> spec_inputs_of(toks_view(inner@)) == Some(inputs_view(v@)),
        r is Err ==> spec_inputs_of(toks_view(inner@)) is None,
{
    let chunks = match split_commas(inner) {
        Ok(c) => c,
        Err(e) => {
            return Err(e);
        },
    };
    let ghost chm = runs_view(chunks@);
    let mut dins: Vec<DelegatedInput> = Vec::new();
    let mut c: usize = 0;
    proof {
        assert(inputs_view(dins@) =~= Seq::<DelegatedInputM>::empty());
    }
    while c < chunks.len()
        invariant
            c <= chm.len(),
            spec_parse_inputs(chm) == spec_parse_inputs_from(chm, c as int, inputs_view(dins@)),
        decreases chm.len() - c,
    {
        proof {
            assert(chm[c as int] == toks_view(chunks@[c as int]@));
        }
        match parse_one_input(&chunks[c], fn_name) {
            Ok(d) => {
                let ghost acc0 = inputs_view(dins@);
                dins.push(d);
                proof {
                    assert(inputs_view(dins@) =~= acc0.push(d@));
                }
            },
            Err(e) => {
                return Err(e);
            },
        }
        c += 1;
    }
    Ok(dins)
}

/// Whether some parsed input is a receiver.
fn inputs_have_receiver(dins: &Vec<DelegatedInput>) -> (r: bool)
    ensures
        r == spec_has_receiver(inputs_view(dins@)),
{
    let ghost dv = inputs_view(dins@);
    let mut d: usize = 0;
    while d < dins.len()
        invariant
            d <= dv.len(),
            dv == inputs_view(dins@),
            forall|x: int|
                0 <= x < d ==> !((#[trigger] dv[x]) matches DelegatedInputM::Input {
                    ident: None,
                    ..
                }),
        decreases dv.len() - d,
    {
        proof {
            assert(dv[d as int] == dins@[d as int]@);
        }
        match &dins[d] {
            DelegatedInput::Input { ident: None, .. } => {
                proof {
                    assert(dv[d as int] matches DelegatedInputM::Input { ident: None, .. });
                }
                return true;
            },
            _ => {},
        }
        d += 1;
    }
    false
}

/// The return type at `i`, behind a `->` arrow, and where it ends.
pub open spec fn spec_output_stage(s: Seq<TokM>, i: int) -> Option<(Option<Seq<TokM>>, int)> {
    if i < s.len() && s.len() - i > 1 && s[i] == TokM::Punct('-') && s[i + 1] == TokM::Punct('>') {
        match spec_scan_type(s, i + 2, true) {
            None => None,
            Some((ty, j)) => if ty.len() == 0 {
                None
            } else {
                Some((Some(ty), j))
            },
        }
    } else {
        Some((None, i))
    }
}

/// The where clause at `i`, behind the `where` keyword, and where it
/// ends.
pub open spec fn spec_where_stage(s: Seq<TokM>, i: int) -> Option<(Option<Seq<TokM>>, int)> {
    if i < s.len() && s[i] == TokM::Ident("where"@) {
        match spec_scan_type(s, i + 1, false) {
            None => None,
            Some((wc, j)) => Some((Some(wc), j)),
        }
    } else {
        Some((None, i))
    }
}

/// The head of a method declaration at `pos` — annotations,
/// visibility, qualifiers, `fn`, name, generics — and the position
/// after it.
pub open spec fn spec_method_head(s: Seq<TokM>, pos: int) -> Option<
    (Seq<AttrM>, Seq<TokM>, (bool, bool, bool), Option<Seq<TokM>>, Seq<char>, Seq<TokM>, int),
> {
    match spec_parse_attrs(s, pos) {
        None => None,
        Some((attributes, i0)) => {
            let vis = spec_parse_visibility(s, i0);
            let visibility = vis.0;
            let quals = spec_method_quals(s, vis.1);
            let i2 = quals.4;
            if !(i2 < s.len() && s[i2] == TokM::Ident("fn"@)) {
                None
            } else if !(i2 + 1 < s.len() && s[i2 + 1] is Ident) {
                None
            } else {
                let name = s[i2 + 1]->Ident_0;
                match spec_generics_stage(s, i2 + 2) {
                    None => None,
                    Some((generics, i3)) => Some(
                        (
                            attributes,
                            visibility,
                            (quals.0, quals.1, quals.2),
                            quals.3,
                            name,
                            generics,
                            i3,
                        ),
                    ),
                }
            }
        },
    }
}

/// One delegated method declaration at `pos`: its head, inputs,
/// return type, where clause, terminating semicolon; and the position
/// after it.
pub open spec fn spec_parse_method(s: Seq<TokM>, pos: int) -> Option<(DelegatedMethodM, int)> {
    match spec_method_head(s, pos) {
        None => None,
        Some(h) => {
            match spec_inputs_stage(s, h.6) {
                None => None,
                Some((dins, i4)) => {
                    match spec_output_stage(s, i4) {
                        None => None,
                        Some((output, i5)) => {
                            match spec_where_stage(s, i5) {
                                None => None,
                                Some((where_clause, i6)) => {
                                    if i6 < s.len() && s[i6] == TokM::Punct(';') {
                                        Some(
                                            (
                                                DelegatedMethodM {
                                                    attributes: h.0,
                                                    visibility: h.1,
                                                    sig: MethodSigM {
                                                        constness: h.2.0,
                                                        asyncness: h.2.1,
                                                        unsafety: h.2.2,
                                                        abi: h.3,
                                                        name: h.4,
                                                        generics: h.5,
                                                        inputs: sig_params(dins),
                                                        receiver: spec_has_receiver(dins),
                                                        output,
                                                        where_clause,
                                                    },
                                                    arguments: call_args(dins),
                                                },
                                                i6 + 1,
                                            ),
                                        )
                                    } else {
                                        None
                                    }
                                },
                            }
                        },
                    }
                },
            }
        },
    }
}

/// Parse the qualifier run at `pos`.
#[verifier::rlimit(60)]
fn parse_quals(toks: &Vec<Tok>, pos: usize) -> (r: (bool, bool, bool, Option<Vec<Tok>>, usize))
    requires
        pos <= toks@.len(),
    ensures
        pos <= r.4 <= toks@.len(),
        spec_method_quals(toks_view(toks@), pos as int) == (
            r.0,
            r.1,
            r.2,
            match &r.3 {
                Some(run) => Some(toks_view(run@)),
                None => None,
            },
            r.4 as int,
        ),
{
    let ghost sm = toks_view(toks@);
    let mut i: usize = pos;
    let mut constness = false;
    let mut asyncness = false;
    let mut unsafety = false;
    let mut abi: Option<Vec<Tok>> = None;
    if i < toks.len() && toks[i].is_ident("const") {
        constness = true;
        i += 1;
    }
    if i < toks.len() && toks[i].is_ident("async") {
        asyncness = true;
        i += 1;
    }
    if i < toks.len() && toks[i].is_ident("unsafe") {
        unsafety = true;
        i += 1;
    }
    if i < toks.len() && toks[i].is_ident("extern") {
        let mut run: Vec<Tok> = Vec::new();
        let t = toks[i].duplicate();
        run.push(t);
        i += 1;
        if i < toks.len() {
            match &toks[i] {
                Tok::Lit(_) => {
                    let l = toks[i].duplicate();
                    run.push(l);
                    i += 1;
                    proof {
                        assert(toks_view(run@) =~= sm.subrange(i - 2, i as int));
                    }
                },
                _ => {
                    proof {
                        assert(toks_view(run@) =~= sm.subrange(i - 1, i as int));
                    }
                },
            }
        } else {
            proof {
                assert(toks_view(run@) =~= sm.subrange(i - 1, i as int));
            }
        }
        abi = Some(run);
    }
    (constness, asyncness, unsafety, abi, i)
}

/// Parse the return type at `pos`, when a `->` arrow stands there.
fn parse_output_stage(toks: &Vec<Tok>, pos: usize) -> (r: Result<
    (Option<Vec<Tok>>, usize),
    DelegationError,
>)
    requires
        pos <= toks@.len(),
    ensures
        r matches Ok(p) ==> pos <= p.1 <= toks@.len() && spec_output_stage(
            toks_view(toks@),
            pos as int,
        ) == Some(
            (
                match &p.0 {
                    Some(run) => Some(toks_view(run@)),
                    None => None,
                },
                p.1 as int,
            ),
        ),
        r is Err ==> spec_output_stage(toks_view(toks@), pos as int) is None,
{
    let ghost sm = toks_view(toks@);
    let mut i: usize = pos;
    if i < toks.len() && toks.len() - i > 1 && toks[i].is_punct('-') && toks[i + 1].is_punct('>') {
        proof {
            assert(sm[i as int] == toks@[i as int]@);
            assert(sm[i + 1] == toks@[i + 1]@);
        }
        i += 2;
        let (ty, i3) = match scan_type_tokens(toks, i, true) {
            Ok(x) => x,
            Err(e) => {
                return Err(e);
            },
        };
        if ty.len() == 0 {
            return Err(DelegationError::Malformed);
        }
        Ok((Some(ty), i3))
    } else {
        proof {
            if (pos as int) < sm.len() {
                assert(sm[pos as int] == toks@[pos as int]@);
                if pos + 1 < sm.len() {
                    assert(sm[pos + 1] == toks@[pos + 1]@);
                }
            }
        }
        Ok((None, i))
    }
}

/// Parse the where clause at `pos`, when the `where` keyword stands
/// there.
fn parse_where_stage(toks: &Vec<Tok>, pos: usize) -> (r: Result<
    (Option<Vec<Tok>>, usize),
    DelegationError,
>)
    requires
        pos <= toks@.len(),
    ensures
        r matches Ok(p) ==> pos <= p.1 <= toks@.len() && spec_where_stage(
            toks_view(toks@),
            pos as int,
        ) == Some(
            (
                match &p.0 {
                    Some(run) => Some(toks_view(run@)),
                    None => None,
                },
                p.1 as int,
            ),
        ),
        r is Err ==> spec_where_stage(toks_view(toks@), pos as int) is None,
{
    let ghost sm = toks_view(toks@);
    let mut i: usize = pos;
    if i < toks.len() && toks[i].is_ident("where") {
        proof {
            assert(sm[i as int] == toks@[i as int]@);
        }
        i += 1;
        let (wc, i4) = match scan_type_tokens(toks, i, false) {
            Ok(x) => x,
            Err(e) => {
                return Err(e);
            },
        };
        Ok((Some(wc), i4))
    } else {
        proof {
            if (pos as int) < sm.len() {
                assert(sm[pos as int] == toks@[pos as int]@);
            }
        }
        Ok((None, i))
    }
}

/// Parse the head of a method declaration: annotations, visibility,
/// qualifiers, the `fn` keyword, the name, and the generics.
#[verifier::loop_isolation(false)]
#[verifier::rlimit(60)]
fn parse_method_head(toks: &Vec<Tok>, pos: usize) -> (r: Result<
    (Vec<Attr>, Vec<Tok>, (bool, bool, bool), Option<Vec<Tok>>, String, Vec<Tok>, usize),
    DelegationError,
>)
    requires
        pos <= toks@.len(),
    ensures
        r matches Ok(h) ==> pos <= h.6 <= toks@.len() && spec_method_head(
            toks_view(toks@),
            pos as int,
        ) == Some(
            (
                attrs_view(h.0@),
                toks_view(h.1@),
                h.2,
                match &h.3 {
                    Some(run) => Some(toks_view(run@)),
                    None => None,
                },
                h.4@,
                toks_view(h.5@),
                h.6 as int,
            ),
        ),
        r is Err ==> spec_method_head(toks_view(toks@), pos as int) is None,
{
    let ghost sm = toks_view(toks@);
    let (attributes, mut i) = match parse_outer_attributes(toks, pos) {
        Ok(x) => x,
        Err(e) => {
            return Err(e);
        },
    };
    let (visibility, i2) = parse_visibility(toks, i);
    i = i2;
    let (constness, asyncness, unsafety, abi, i_quals) = parse_quals(toks, i);
    i = i_quals;
    if !(i < toks.len() && toks[i].is_ident("fn")) {
        proof {
            if (i as int) < sm.len() {
                assert(sm[i as int] == toks@[i as int]@);
            }
        }
        return Err(DelegationError::Malformed);
    }
    proof {
        assert(sm[i as int] == toks@[i as int]@);
    }
    i += 1;
    if i >= toks.len() {
        return Err(DelegationError::Malformed);
    }
    let name: String = match &toks[i] {
        Tok::Ident(n) => n.clone(),
        _ => {
            proof {
                assert(sm[i as int] == toks@[i as int]@);
                assert(!(sm[i as int] is Ident));
            }
            return Err(DelegationError::Malformed);
        },
    };
    proof {
        assert(sm[i as int] == toks@[i as int]@);
        assert(name@ == sm[i as int]->Ident_0);
    }
    i += 1;
    let ghost ig = i as int;
    let mut generics: Vec<Tok> = Vec::new();
    if i < toks.len() && toks[i].is_punct('<') {
        proof {
            assert(sm[i as int] == toks@[i as int]@);
        }
        match scan_generics(toks, i + 1) {
            Ok(gp) => {
                generics = gp.0;
                i = gp.1;
            },
            Err(e) => {
                proof {
                    assert(spec_generics_stage(sm, ig) is None);
                }
                return Err(e);
            },
        }
    } else {
        proof {
            if ig < sm.len() {
                assert(sm[ig] == toks@[ig]@);
            }
            assert(toks_view(generics@) =~= Seq::<TokM>::empty());
        }
    }
    proof {
        assert(spec_generics_stage(sm, ig) == Some((toks_view(generics@), i as int)));
    }
    Ok((attributes, visibility, (constness, asyncness, unsafety), abi, name, generics, i))
}

/// Parse one delegated method declaration starting at `pos`: outer
/// annotations, visibility, qualifiers, name, generics, inputs, return
/// type, where clause, and the terminating semicolon.  A brace body in
/// place of the semicolon is a hard error.
#[verifier::rlimit(100)]
pub fn parse_method(toks: &Vec<Tok>, pos: usize) -> (r: Result<
    (DelegatedMethod, usize),
    DelegationError,
>)
    requires
        pos <= toks@.len(),
    ensures
        r matches Ok(p) ==> pos < p.1 <= toks@.len() && spec_parse_method(
            toks_view(toks@),
            pos as int,
        ) == Some((p.0@, p.1 as int)),
        r is Err ==> spec_parse_method(toks_view(toks@), pos as int) is None,
{
    let ghost sm = toks_view(toks@);
    let (attributes, visibility, flags, abi, name, generics, mut i) = match parse_method_head(
        toks,
        pos,
    ) {
        Ok(h) => h,
        Err(e) => {
            return Err(e);
        },
    };
    let (constness, asyncness, unsafety) = flags;
    let ghost ii = i as int;
    if i >= toks.len() {
        proof {
            assert(spec_inputs_stage(sm, ii) is None);
        }
        return Err(DelegationError::Malformed);
    }
    proof {
        assert(sm[ii] == toks@[ii]@);
    }
    let delegated_inputs = match &toks[i] {
        Tok::Group(Delim::Paren, inner) => {
            proof {
                assert(sm[ii]->Group_1 =~= toks_view(inner@));
            }
            match parse_input_chunks(inner, &name) {
                Ok(v) => v,
                Err(e) => {
                    proof {
                        assert(spec_inputs_stage(sm, ii) is None);
                    }
                    return Err(e);
                },
            }
        },
        _ => {
            proof {
                assert(spec_inputs_stage(sm, ii) is None);
            }
            return Err(DelegationError::Malformed);
        },
    };
    i += 1;
    let ghost dv = inputs_view(delegated_inputs@);
    proof {
        assert(spec_inputs_stage(sm, ii) == Some((dv, i as int)));
    }
    let (inputs, arguments) = split_inputs(&delegated_inputs);
    let receiver = inputs_have_receiver(&delegated_inputs);
    let (output, i_out) = match parse_output_stage(toks, i) {
        Ok(x) => x,
        Err(e) => {
            return Err(e);
        },
    };
    i = i_out;
    let (where_clause, i_wc) = match parse_where_stage(toks, i) {
        Ok(x) => x,
        Err(e) => {
            return Err(e);
        },
    };
    i = i_wc;
    if i < toks.len() {
        match &toks[i] {
            Tok::Group(Delim::Brace, _) => {
                proof {
                    assert(sm[i as int] == toks@[i as int]@);
                }
                return Err(DelegationError::MethodBody(name));
            },
            _ => {},
        }
    }
    if !(i < toks.len() && toks[i].is_punct(';')) {
        proof {
            if i < toks.len() {
                assert(sm[i as int] == toks@[i as int]@);
            }
        }
        return Err(DelegationError::MethodBody(name));
    }
    proof {
        assert(sm[i as int] == toks@[i as int]@);
    }
    i += 1;
    let sig = MethodSig {
        constness,
        asyncness,
        unsafety,
        abi,
        name,
        generics,
        inputs,
        receiver,
        output,
        where_clause,
    };
    let result = (DelegatedMethod { attributes, visibility, sig, arguments }, i);
    proof {
        assert(spec_parse_method(sm, pos as int) == Some((result.0@, i as int)));
    }
    Ok(result)
}

/// Build the forwarded-argument expression of one named parameter.
fn argument_expression(id: &String, modifier: &Option<ArgumentModifier>) -> (r: Vec<Tok>)
    ensures
        toks_view(r@) == arg_expr(id@, *modifier),
{
    let mut out: Vec<Tok> = Vec::new();
    out.push(Tok::Ident(id.clone()));
    match modifier {
        None => {},
        Some(ArgumentModifier::Into) => {
            out.push(Tok::Punct('.'));
            out.push(Tok::ident("into"));
            let grp = Tok::Group(Delim::Paren, Vec::new());
            proof {
                assert(grp@->Group_1 =~= Seq::<TokM>::empty());
            }
            out.push(grp);
        },
        Some(ArgumentModifier::AsRef) => {
            out.push(Tok::Punct('.'));
            out.push(Tok::ident("as_ref"));
            let grp = Tok::Group(Delim::Paren, Vec::new());
            proof {
                assert(grp@->Group_1 =~= Seq::<TokM>::empty());
            }
            out.push(grp);
        },
        Some(ArgumentModifier::Newtype) => {
            out.push(Tok::Punct('.'));
            out.push(Tok::lit("0"));
        },
    }
    proof {
        assert(toks_view(out@) =~= arg_expr(id@, *modifier));
    }
    out
}

/// The pattern of one arm from `i` on: everything up to the `=>`
/// arrow, and the position after the arrow.
pub open spec fn spec_scan_pat(s: Seq<TokM>, i: int, acc: Seq<TokM>) -> Option<(Seq<TokM>, int)>
    decreases s.len() - i,
{
    if i >= s.len() {
        None
    } else if s[i] == TokM::Punct('=') && s.len() - i > 1 && s[i + 1] == TokM::Punct('>') {
        Some((acc, i + 2))
    } else {
        spec_scan_pat(s, i + 1, acc.push(s[i]))
    }
}

/// The body of one non-block arm from `i` on: everything up to a
/// top-level comma (consumed) or the end, angle brackets tracked and
/// `->` arrows passed through.
pub open spec fn spec_scan_arm_body(
    s: Seq<TokM>,
    i: int,
    depth: int,
    acc: Seq<TokM>,
) -> (Seq<TokM>, int)
    decreases s.len() - i,
{
    if i >= s.len() {
        (acc, i)
    } else if depth == 0 && s[i] == TokM::Punct(',') {
        (acc, i + 1)
    } else if s[i] == TokM::Punct('-') && s.len() - i > 1 && s[i + 1] == TokM::Punct('>') {
        spec_scan_arm_body(s, i + 2, depth, acc + seq![s[i], s[i + 1]])
    } else if s[i] == TokM::Punct('<') {
        spec_scan_arm_body(s, i + 1, depth + 1, acc.push(s[i]))
    } else if s[i] == TokM::Punct('>') {
        spec_scan_arm_body(s, i + 1, if depth > 0 {
            depth - 1
        } else {
            depth
        }, acc.push(s[i]))
    } else {
        spec_scan_arm_body(s, i + 1, depth, acc.push(s[i]))
    }
}

/// The arms from `i` on, extending `acc`: a pattern up to `=>`, then
/// a brace-block body with an optional comma, or an expression body
/// up to a top-level comma.
pub open spec fn spec_parse_arms_from(
    s: Seq<TokM>,
    i: int,
    acc: Seq<MatchArmM>,
) -> Option<Seq<MatchArmM>>
    decreases s.len() - i,
{
    if i >= s.len() {
        Some(acc)
    } else {
        match spec_scan_pat(s, i, Seq::empty()) {
            None => None,
            Some((pat, j)) => {
                if pat.len() == 0 {
                    None
                } else if j >= s.len() {
                    None
                } else if s[j] is Group && s[j]->Group_0 == Delim::Brace {
                    let body = seq![s[j]];
                    let j2 = if j + 1 < s.len() && s[j + 1] == TokM::Punct(',') {
                        j + 2
                    } else {
                        j + 1
                    };
                    if j2 <= i {
                        None
                    } else {
                        spec_parse_arms_from(s, j2, acc.push(MatchArmM { pat, body }))
                    }
                } else {
                    let scanned = spec_scan_arm_body(s, j, 0, Seq::empty());
                    if scanned.0.len() == 0 {
                        None
                    } else if scanned.1 <= i || scanned.1 > s.len() {
                        None
                    } else {
                        spec_parse_arms_from(
                            s,
                            scanned.1,
                            acc.push(MatchArmM { pat, body: scanned.0 }),
                        )
                    }
                }
            },
        }
    }
}

/// The arms of a match-expression target.
pub open spec fn spec_parse_arms(s: Seq<TokM>) -> Option<Seq<MatchArmM>> {
    spec_parse_arms_from(s, 0, Seq::empty())
}

/// Parse the arms of a match-expression target: `pattern => body`
/// pairs separated by commas, a brace-block body standing alone.
#[verifier::loop_isolation(false)]
#[verifier::rlimit(100)]
fn parse_arms(inner: &Vec<Tok>) -> (r: Result<Vec<MatchArm>, DelegationError>)
    ensures
        r matches Ok(v) ==> spec_parse_arms(toks_view(inner@)) == Some(arms_view(v@)),
        r is Err ==> spec_parse_arms(toks_view(inner@)) is None,
{
    let ghost sm = toks_view(inner@);
    let mut arms: Vec<MatchArm> = Vec::new();
    let mut i: usize = 0;
    proof {
        assert(arms_view(arms@) =~= Seq::<MatchArmM>::empty());
    }
    while i < inner.len()
        invariant
            i <= inner@.len(),
            spec_parse_arms(sm) == spec_parse_arms_from(sm, i as int, arms_view(arms@)),
        decreases inner@.len() - i,
    {
        let ghost i_start = i;
        let mut pat: Vec<Tok> = Vec::new();
        let mut found_arrow = false;
        proof {
            assert(toks_view(pat@) =~= Seq::<TokM>::empty());
        }
        while i < inner.len() && !found_arrow
            invariant
                i_start <= i <= inner@.len(),
                found_arrow ==> i_start < i,
                !found_arrow ==> spec_scan_pat(sm, i_start as int, Seq::empty())
                    == spec_scan_pat(sm, i as int, toks_view(pat@)),
                found_arrow ==> spec_scan_pat(sm, i_start as int, Seq::empty()) == Some(
                    (toks_view(pat@), i as int),
                ),
            decreases inner@.len() - i,
        {
            proof {
                assert(sm[i as int] == inner@[i as int]@);
            }
            if inner[i].is_punct('=') && inner.len() - i > 1 && inner[i + 1].is_punct('>') {
                proof {
                    assert(sm[i + 1] == inner@[i + 1]@);
                }
                i += 2;
                found_arrow = true;
            } else {
                let ghost acc0 = toks_view(pat@);
                let t = inner[i].duplicate();
                pat.push(t);
                proof {
                    assert(toks_view(pat@) =~= acc0.push(sm[i as int]));
                }
                i += 1;
            }
        }
        if !found_arrow {
            return Err(DelegationError::Malformed);
        }
        if pat.len() == 0 {
            return Err(DelegationError::Malformed);
        }
        if i >= inner.len() {
            return Err(DelegationError::Malformed);
        }
        proof {
            assert(sm[i as int] == inner@[i as int]@);
        }
        let mut body: Vec<Tok> = Vec::new();
        let is_block = match &inner[i] {
            Tok::Group(Delim::Brace, _) => true,
            _ => false,
        };
        if is_block {
            let ghost j = i as int;
            let g = inner[i].duplicate();
            body.push(g);
            i += 1;
            if i < inner.len() && inner[i].is_punct(',') {
                proof {
                    assert(sm[i as int] == inner@[i as int]@);
                }
                i += 1;
            } else {
                proof {
                    if (j + 1) < sm.len() {
                        assert(sm[j + 1] == inner@[j + 1]@);
                    }
                }
            }
            proof {
                assert(toks_view(body@) =~= seq![sm[j]]);
            }
        } else {
            let ghost j = i as int;
            let mut depth: usize = 0;
            let mut done = false;
            proof {
                assert(toks_view(body@) =~= Seq::<TokM>::empty());
            }
            while i < inner.len() && !done
                invariant
                    i_start < i <= inner@.len(),
                    j <= i,
                    depth <= i - j,
                    !done ==> spec_scan_arm_body(sm, j, 0, Seq::empty()) == spec_scan_arm_body(
                        sm,
                        i as int,
                        depth as int,
                        toks_view(body@),
                    ),
                    done ==> spec_scan_arm_body(sm, j, 0, Seq::empty()) == (
                        toks_view(body@),
                        i as int,
                    ),
                decreases inner@.len() - i,
            {
                proof {
                    assert(sm[i as int] == inner@[i as int]@);
                }
                if depth == 0 && inner[i].is_punct(',') {
                    i += 1;
                    done = true;
                } else if inner[i].is_punct('-') && inner.len() - i > 1 && inner[i + 1].is_punct(
                    '>',
                ) {
                    proof {
                        assert(sm[i + 1] == inner@[i + 1]@);
                    }
                    let ghost acc0 = toks_view(body@);
                    let a = inner[i].duplicate();
                    let b = inner[i + 1].duplicate();
                    body.push(a);
                    body.push(b);
                    proof {
                        assert(toks_view(body@) =~= acc0 + seq![sm[i as int], sm[i + 1]]);
                    }
                    i += 2;
                } else {
                    if inner[i].is_punct('<') {
                        depth += 1;
                    } else if inner[i].is_punct('>') {
                        if depth > 0 {
                            depth -= 1;
                        }
                    }
                    let ghost acc0 = toks_view(body@);
                    let t = inner[i].duplicate();
                    body.push(t);
                    proof {
                        assert(toks_view(body@) =~= acc0.push(sm[i as int]));
                    }
                    i += 1;
                }
            }
            if body.len() == 0 {
                return Err(DelegationError::Malformed);
            }
        }
        let ghost acc0 = arms_view(arms@);
        let arm = MatchArm { pat, body };
        arms.push(arm);
        proof {
            assert(arms_view(arms@) =~= acc0.push(arm@));
        }
    }
    Ok(arms)
}

/// The tokens before the first top-level brace group from `i` on,
/// and the position of that group.
pub open spec fn spec_scan_until_brace(s: Seq<TokM>, i: int, acc: Seq<TokM>) -> Option<
    (Seq<TokM>, int),
>
    decreases s.len() - i,
{
    if i >= s.len() {
        None
    } else if s[i] is Group && s[i]->Group_0 == Delim::Brace {
        Some((acc, i))
    } else {
        spec_scan_until_brace(s, i + 1, acc.push(s[i]))
    }
}

/// The receiver-producing expression of a target at `pos`: a `match`
/// expression consumes its own brace group of arms; a plain expression
/// stops before the brace group that opens the method block.
pub open spec fn spec_deleg_body(s: Seq<TokM>, pos: int) -> Option<(DelegBodyM, int)> {
    if pos < s.len() && s[pos] == TokM::Ident("match"@) {
        match spec_scan_until_brace(s, pos + 1, Seq::empty()) {
            None => None,
            Some((head, i)) => {
                if head.len() == 0 {
                    None
                } else {
                    match spec_parse_arms(s[i]->Group_1) {
                        None => None,
                        Some(arms) => Some((DelegBodyM::MatchExpr { head, arms }, i + 1)),
                    }
                }
            },
        }
    } else {
        match spec_scan_until_brace(s, pos, Seq::empty()) {
            None => None,
            Some((expr, i)) => {
                if expr.len() == 0 {
                    None
                } else {
                    Some((DelegBodyM::Plain(expr), i))
                }
            },
        }
    }
}

/// Parse the receiver-producing expression of a target, stopping
/// before the brace group that opens the method block.  A `match`
/// expression consumes its own brace group of arms first.
#[verifier::loop_isolation(false)]
fn parse_deleg_body(toks: &Vec<Tok>, pos: usize) -> (r: Result<(DelegBody, usize), DelegationError>)
    requires
        pos <= toks@.len(),
    ensures
        r matches Ok(p) ==> pos <= p.1 <= toks@.len() && spec_deleg_body(
            toks_view(toks@),
            pos as int,
        ) == Some((p.0@, p.1 as int)),
        r is Err ==> spec_deleg_body(toks_view(toks@), pos as int) is None,
{
    let ghost sm = toks_view(toks@);
    let mut i: usize = pos;
    proof {
        if pos < toks@.len() {
            assert(sm[pos as int] == toks@[pos as int]@);
        }
    }
    if i < toks.len() && toks[i].is_ident("match") {
        i += 1;
        let mut head: Vec<Tok> = Vec::new();
        proof {
            assert(toks_view(head@) =~= Seq::<TokM>::empty());
        }
        while i < toks.len()
            invariant
                pos < i <= toks@.len(),
                spec_scan_until_brace(sm, pos + 1, Seq::empty()) == spec_scan_until_brace(
                    sm,
                    i as int,
                    toks_view(head@),
                ),
            decreases toks@.len() - i,
        {
            proof {
                assert(sm[i as int] == toks@[i as int]@);
            }
            match &toks[i] {
                Tok::Group(Delim::Brace, arm_toks) => {
                    if head.len() == 0 {
                        return Err(DelegationError::Malformed);
                    }
                    proof {
                        assert(sm[i as int]->Group_1 =~= toks_view(arm_toks@));
                    }
                    let arms = match parse_arms(arm_toks) {
                        Ok(a) => a,
                        Err(e) => {
                            return Err(e);
                        },
                    };
                    let body = DelegBody::MatchExpr { head, arms };
                    proof {
                        assert(spec_deleg_body(sm, pos as int) == Some((body@, i + 1)));
                    }
                    return Ok((body, i + 1));
                },
                _ => {
                    let ghost acc0 = toks_view(head@);
                    let t = toks[i].duplicate();
                    head.push(t);
                    proof {
                        assert(toks_view(head@) =~= acc0.push(sm[i as int]));
                    }
                    i += 1;
                },
            }
        }
        Err(DelegationError::Malformed)
    } else {
        let mut expr: Vec<Tok> = Vec::new();
        proof {
            assert(toks_view(expr@) =~= Seq::<TokM>::empty());
        }
        while i < toks.len()
            invariant
                pos <= i <= toks@.len(),
                spec_scan_until_brace(sm, pos as int, Seq::empty()) == spec_scan_until_brace(
                    sm,
                    i as int,
                    toks_view(expr@),
                ),
            decreases toks@.len() - i,
        {
            proof {
                assert(sm[i as int] == toks@[i as int]@);
            }
            match &toks[i] {
                Tok::Group(Delim::Brace, _) => {
                    if expr.len() == 0 {
                        return Err(DelegationError::Malformed);
                    }
                    let body = DelegBody::Plain(expr);
                    proof {
                        assert(spec_deleg_body(sm, pos as int) == Some((body@, i as int)));
                    }
                    return Ok((body, i));
                },
                _ => {
                    let ghost acc0 = toks_view(expr@);
                    let t = toks[i].duplicate();
                    expr.push(t);
                    proof {
                        assert(toks_view(expr@) =~= acc0.push(sm[i as int]));
                    }
                    i += 1;
                },
            }
        }
        Err(DelegationError::Malformed)
    }
}

/// Whether a closure parameter chunk holds a top-level `:` type
/// pattern, angle brackets tracked.
pub open spec fn spec_chunk_has_colon(chunk: Seq<TokM>, j: int, depth: int) -> bool
    decreases chunk.len() - j,
{
    if j >= chunk.len() {
        false
    } else if chunk[j] == TokM::Punct('<') {
        spec_chunk_has_colon(chunk, j + 1, depth + 1)
    } else if chunk[j] == TokM::Punct('>') {
        spec_chunk_has_colon(chunk, j + 1, if depth > 0 {
            depth - 1
        } else {
            depth
        })
    } else if depth == 0 && chunk[j] == TokM::Punct(':') {
        true
    } else {
        spec_chunk_has_colon(chunk, j + 1, depth)
    }
}

/// Whether every closure parameter chunk from `k` on is a typed
/// pattern.
pub open spec fn spec_closure_params_typed(chunks: Seq<Seq<TokM>>, k: int) -> bool
    decreases chunks.len() - k,
{
    if k >= chunks.len() {
        true
    } else {
        spec_chunk_has_colon(chunks[k], 0, 0) && spec_closure_params_typed(chunks, k + 1)
    }
}

/// The tokens of a closure parameter list after its opening `|`, and
/// the position after the closing `|`.
pub open spec fn spec_scan_closure_params(s: Seq<TokM>, i: int, acc: Seq<TokM>) -> Option<
    (Seq<TokM>, int),
>
    decreases s.len() - i,
{
    if i >= s.len() {
        None
    } else if s[i] == TokM::Punct('|') {
        Some((acc, i + 1))
    } else {
        spec_scan_closure_params(s, i + 1, acc.push(s[i]))
    }
}

/// A delegation target at `pos`: an optional closure parameter list
/// of typed patterns, then the receiver expression.
pub open spec fn spec_parse_delegator(s: Seq<TokM>, pos: int) -> Option<(DelegatorM, int)> {
    if pos < s.len() && s[pos] == TokM::Punct('|') {
        match spec_scan_closure_params(s, pos + 1, Seq::empty()) {
            None => None,
            Some((param_toks, i)) => {
                match spec_split_commas(param_toks) {
                    None => None,
                    Some(chunks) => {
                        if !spec_closure_params_typed(chunks, 0) {
                            None
                        } else {
                            match spec_deleg_body(s, i) {
                                None => None,
                                Some((body, j)) => Some(
                                    (DelegatorM { closure_params: Some(chunks), body }, j),
                                ),
                            }
                        }
                    },
                }
            },
        }
    } else {
        match spec_deleg_body(s, pos) {
            None => None,
            Some((body, j)) => Some((DelegatorM { closure_params: None, body }, j)),
        }
    }
}

/// Parse a delegation target: an optional closure parameter list
/// (`|a: T, ...|`, type patterns only), then the receiver expression.
#[verifier::loop_isolation(false)]
#[verifier::rlimit(60)]
fn parse_delegator(toks: &Vec<Tok>, pos: usize) -> (r: Result<(Delegator, usize), DelegationError>)
    requires
        pos <= toks@.len(),
    ensures
        r matches Ok(p) ==> pos <= p.1 <= toks@.len() && spec_parse_delegator(
            toks_view(toks@),
            pos as int,
        ) == Some((p.0@, p.1 as int)),
        r is Err ==> spec_parse_delegator(toks_view(toks@), pos as int) is None,
{
    let ghost sm = toks_view(toks@);
    let mut i: usize = pos;
    proof {
        if pos < toks@.len() {
            assert(sm[pos as int] == toks@[pos as int]@);
        }
    }
    let mut closure_params: Option<Vec<Vec<Tok>>> = None;
    if i < toks.len() && toks[i].is_punct('|') {
        i += 1;
        let mut param_toks: Vec<Tok> = Vec::new();
        let mut closed = false;
        proof {
            assert(toks_view(param_toks@) =~= Seq::<TokM>::empty());
        }
        while i < toks.len() && !closed
            invariant
                pos < i <= toks@.len(),
                !closed ==> spec_scan_closure_params(sm, pos + 1, Seq::empty())
                    == spec_scan_closure_params(sm, i as int, toks_view(param_toks@)),
                closed ==> spec_scan_closure_params(sm, pos + 1, Seq::empty()) == Some(
                    (toks_view(param_toks@), i as int),
                ),
            decreases toks@.len() - i,
        {
            proof {
                assert(sm[i as int] == toks@[i as int]@);
            }
            if toks[i].is_punct('|') {
                closed = true;
                i += 1;
            } else {
                let ghost acc0 = toks_view(param_toks@);
                let t = toks[i].duplicate();
                param_toks.push(t);
                proof {
                    assert(toks_view(param_toks@) =~= acc0.push(sm[i as int]));
                }
                i += 1;
            }
        }
        if !closed {
            return Err(DelegationError::Malformed);
        }
        let chunks = match split_commas(&param_toks) {
            Ok(c) => c,
            Err(e) => {
                return Err(e);
            },
        };
        let ghost chm = runs_view(chunks@);
        let mut k: usize = 0;
        while k < chunks.len()
            invariant
                k <= chm.len(),
                spec_closure_params_typed(chm, 0) == spec_closure_params_typed(chm, k as int),
            decreases chm.len() - k,
        {
            proof {
                assert(chm[k as int] == toks_view(chunks@[k as int]@));
            }
            let chunk = &chunks[k];
            let ghost cm = toks_view(chunk@);
            let mut has_colon = false;
            let mut j: usize = 0;
            let mut depth: usize = 0;
            while j < chunk.len() && !has_colon
                invariant
                    j <= chunk@.len(),
                    depth <= j,
                    !has_colon ==> spec_chunk_has_colon(cm, 0, 0) == spec_chunk_has_colon(
                        cm,
                        j as int,
                        depth as int,
                    ),
                    has_colon ==> spec_chunk_has_colon(cm, 0, 0),
                decreases chunk@.len() - j,
            {
                proof {
                    assert(cm[j as int] == chunk@[j as int]@);
                }
                if chunk[j].is_punct('<') {
                    depth += 1;
                } else if chunk[j].is_punct('>') {
                    if depth > 0 {
                        depth -= 1;
                    }
                } else if depth == 0 && chunk[j].is_punct(':') {
                    has_colon = true;
                }
                j += 1;
            }
            if !has_colon {
                proof {
                    assert(!spec_chunk_has_colon(cm, 0, 0));
                    assert(!spec_closure_params_typed(chm, 0));
                }
                return Err(DelegationError::ClosureParamPattern);
            }
            k += 1;
        }
        closure_params = Some(chunks);
    }
    let (body, i2) = match parse_deleg_body(toks, i) {
        Ok(x) => x,
        Err(e) => {
            return Err(e);
        },
    };
    Ok((Delegator { closure_params, body }, i2))
}

/// The method declarations of a segment body from `pos` on,
/// extending `acc`.
pub open spec fn spec_parse_methods(
    s: Seq<TokM>,
    pos: int,
    acc: Seq<DelegatedMethodM>,
) -> Option<Seq<DelegatedMethodM>>
    decreases s.len() - pos,
{
    if pos >= s.len() {
        Some(acc)
    } else {
        match spec_parse_method(s, pos) {
            None => None,
            Some((m, next)) => {
                if next <= pos || next > s.len() {
                    None
                } else {
                    spec_parse_methods(s, next, acc.push(m))
                }
            },
        }
    }
}

/// One segment at `pos`: its annotations resolved, the `to` keyword
/// (the deprecated `target` fails), the target expression, the braced
/// method declarations; and the position after it.
pub open spec fn spec_parse_segment(s: Seq<TokM>, pos: int) -> Option<(DelegatedSegmentM, int)> {
    match spec_parse_attrs(s, pos) {
        None => None,
        Some((attrs, i)) => {
            if !crate::attributes::segment_parse_ok(attrs) {
                None
            } else if !(i < s.len()) {
                None
            } else if s[i] == TokM::Ident("target"@) {
                None
            } else if s[i] != TokM::Ident("to"@) {
                None
            } else {
                match spec_parse_delegator(s, i + 1) {
                    None => None,
                    Some((delegator, j)) => {
                        if !(j < s.len() && s[j] is Group && s[j]->Group_0 == Delim::Brace) {
                            None
                        } else {
                            match spec_parse_methods(s[j]->Group_1, 0, Seq::empty()) {
                                None => None,
                                Some(methods) => Some(
                                    (
                                        DelegatedSegmentM {
                                            segment_attrs: crate::attributes::resolve_segment_attrs(
                                                attrs,
                                            ),
                                            delegator,
                                            methods,
                                        },
                                        j + 1,
                                    ),
                                ),
                            }
                        }
                    },
                }
            }
        },
    }
}

/// Parse one segment: its annotations, the `to` keyword (the old
/// `target` spelling is rejected with a migration hint), the target
/// expression, and the braced method declarations.
#[verifier::loop_isolation(false)]
#[verifier::rlimit(100)]
pub fn parse_segment(toks: &Vec<Tok>, pos: usize) -> (r: Result<
    (DelegatedSegment, usize),
    DelegationError,
>)
    requires
        pos <= toks@.len(),
    ensures
        r matches Ok(p) ==> pos < p.1 <= toks@.len() && spec_parse_segment(
            toks_view(toks@),
            pos as int,
        ) == Some((p.0@, p.1 as int)),
        r is Err ==> spec_parse_segment(toks_view(toks@), pos as int) is None,
{
    let ghost sm = toks_view(toks@);
    let (attrs, mut i) = match parse_outer_attributes(toks, pos) {
        Ok(x) => x,
        Err(e) => {
            return Err(e);
        },
    };
    let segment_attrs = match parse_segment_attributes(&attrs) {
        Ok(sa) => sa,
        Err(e) => {
            return Err(e);
        },
    };
    if i >= toks.len() {
        return Err(DelegationError::Malformed);
    }
    proof {
        assert(sm[i as int] == toks@[i as int]@);
    }
    if toks[i].is_ident("target") {
        return Err(DelegationError::DeprecatedTarget);
    }
    if !toks[i].is_ident("to") {
        return Err(DelegationError::Malformed);
    }
    i += 1;
    let (delegator, i2) = match parse_delegator(toks, i) {
        Ok(x) => x,
        Err(e) => {
            return Err(e);
        },
    };
    i = i2;
    if i >= toks.len() {
        return Err(DelegationError::Malformed);
    }
    proof {
        assert(sm[i as int] == toks@[i as int]@);
    }
    match &toks[i] {
        Tok::Group(Delim::Brace, inner) => {
            proof {
                assert(sm[i as int]->Group_1 =~= toks_view(inner@));
            }
            let ghost mm = toks_view(inner@);
            let mut methods: Vec<DelegatedMethod> = Vec::new();
            let mut mpos: usize = 0;
            proof {
                assert(Seq::new(methods@.len(), |x: int| methods@[x]@) =~= Seq::<
                    DelegatedMethodM,
                >::empty());
            }
            while mpos < inner.len()
                invariant
                    mpos <= inner@.len(),
                    spec_parse_methods(mm, 0, Seq::empty()) == spec_parse_methods(
                        mm,
                        mpos as int,
                        Seq::new(methods@.len(), |x: int| methods@[x]@),
                    ),
                decreases inner@.len() - mpos,
            {
                match parse_method(inner, mpos) {
                    Ok((m, next)) => {
                        let ghost acc0 = Seq::new(methods@.len(), |x: int| methods@[x]@);
                        methods.push(m);
                        proof {
                            assert(Seq::new(methods@.len(), |x: int| methods@[x]@) =~= acc0.push(
                                methods@[methods@.len() - 1]@,
                            ));
                        }
                        mpos = next;
                    },
                    Err(e) => {
                        return Err(e);
                    },
                }
            }
            let seg = DelegatedSegment { segment_attrs, delegator, methods };
            let result = (seg, i + 1);
            proof {
                assert(spec_parse_segment(sm, pos as int) == Some((result.0@, i + 1)));
            }
            Ok(result)
        },
        _ => Err(DelegationError::Malformed),
    }
}

/// The segments of a block from `pos` on, extending `acc`.
pub open spec fn spec_parse_segments(
    s: Seq<TokM>,
    pos: int,
    acc: Seq<DelegatedSegmentM>,
) -> Option<Seq<DelegatedSegmentM>>
    decreases s.len() - pos,
{
    if pos >= s.len() {
        Some(acc)
    } else {
        match spec_parse_segment(s, pos) {
            None => None,
            Some((seg, next)) => {
                if next <= pos || next > s.len() {
                    None
                } else {
                    spec_parse_segments(s, next, acc.push(seg))
                }
            },
        }
    }
}

/// A whole delegation block: segments until the tokens end.
pub open spec fn spec_parse_block(s: Seq<TokM>) -> Option<DelegationBlockM> {
    match spec_parse_segments(s, 0, Seq::empty()) {
        None => None,
        Some(segments) => Some(DelegationBlockM { segments }),
    }
}

/// Parse a whole delegation block: segments until the tokens end.
#[verifier::loop_isolation(false)]
pub fn parse_delegation_block(toks: &Vec<Tok>) -> (r: Result<DelegationBlock, DelegationError>)
    ensures
        r matches Ok(b) ==> spec_parse_block(toks_view(toks@)) == Some(b@),
        r is Err ==> spec_parse_block(toks_view(toks@)) is None,
        toks@.len() == 0 ==> (r matches Ok(b) && b.segments@.len() == 0),
{
    let ghost sm = toks_view(toks@);
    let mut segments: Vec<DelegatedSegment> = Vec::new();
    let mut pos: usize = 0;
    proof {
        assert(Seq::new(segments@.len(), |x: int| segments@[x]@) =~= Seq::<
            DelegatedSegmentM,
        >::empty());
    }
    while pos < toks.len()
        invariant
            pos <= toks@.len(),
            toks@.len() == 0 ==> segments@.len() == 0,
            spec_parse_segments(sm, 0, Seq::empty()) == spec_parse_segments(
                sm,
                pos as int,
                Seq::new(segments@.len(), |x: int| segments@[x]@),
            ),
        decreases toks@.len() - pos,
    {
        match parse_segment(toks, pos) {
            Ok((seg, next)) => {
                let ghost acc0 = Seq::new(segments@.len(), |x: int| segments@[x]@);
                segments.push(seg);
                proof {
                    assert(Seq::new(segments@.len(), |x: int| segments@[x]@) =~= acc0.push(
                        segments@[segments@.len() - 1]@,
                    ));
                }
                pos = next;
            },
            Err(e) => {
                return Err(e);
            },
        }
    }
    let b = DelegationBlock { segments };
    proof {
        assert(spec_parse_block(sm) == Some(b@));
    }
    Ok(b)
}

} // verus!
