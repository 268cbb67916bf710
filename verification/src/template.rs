//! The template mini-language of the `expr` attribute.
//!
//! A template is the attribute's token sequence with every `$` token
//! tagged as a placeholder and every delimited group parsed recursively.
//! Substitution replaces each placeholder with a full copy of the
//! replacement token sequence, recursing through groups and keeping
//! every other token as it stands.

use vstd::prelude::*;

use crate::tokens::{toks_view, Delim, Tok, TokM};

verus! {

/// The placeholder marker (`$`) found inside an `expr` template.
#[derive(Clone, Copy, PartialEq, Eq, Structural, Debug)]
pub struct ExprPlaceHolder;

/// One token of a parsed template.
#[derive(PartialEq, Eq, Debug)]
pub enum TemplateToken {
    /// A token passed through unchanged.
    Normal(Tok),
    /// The replacement site.
    Placeholder(ExprPlaceHolder),
    /// A delimited group, itself a template.
    Group(Delim, TemplateExpr),
}

/// A parsed `expr` template.
#[derive(PartialEq, Eq, Debug)]
pub struct TemplateExpr {
    pub tokens: Vec<TemplateToken>,
}

/// The mathematical model of a template token.
pub enum TemplateTokM {
    Normal(TokM),
    Placeholder,
    Group(Delim, Seq<TemplateTokM>),
}

/// The model of a template token.
pub open spec fn ttok_m(t: TemplateToken) -> TemplateTokM
    decreases t,
{
    match t {
        TemplateToken::Normal(tok) => TemplateTokM::Normal(tok@),
        TemplateToken::Placeholder(_) => TemplateTokM::Placeholder,
        TemplateToken::Group(d, te) => TemplateTokM::Group(
            d,
            Seq::new(
                te.tokens@.len(),
                |i: int|
                    if 0 <= i < te.tokens@.len() {
                        ttok_m(te.tokens@[i])
                    } else {
                        TemplateTokM::Placeholder
                    },
            ),
        ),
    }
}

impl View for TemplateToken {
    type V = TemplateTokM;

    open spec fn view(&self) -> TemplateTokM {
        ttok_m(*self)
    }
}

impl View for TemplateExpr {
    type V = Seq<TemplateTokM>;

    open spec fn view(&self) -> Seq<TemplateTokM> {
        Seq::new(self.tokens@.len(), |i: int| ttok_m(self.tokens@[i]))
    }
}

/// What parsing turns one token into: `$` becomes the placeholder, a
/// group is parsed recursively, anything else passes through.
pub open spec fn template_of_tok(t: TokM) -> TemplateTokM
    decreases t,
{
    match t {
        TokM::Punct(c) => if c == '$' {
            TemplateTokM::Placeholder
        } else {
            TemplateTokM::Normal(t)
        },
        TokM::Group(d, inner) => TemplateTokM::Group(
            d,
            Seq::new(
                inner.len(),
                |i: int|
                    if 0 <= i < inner.len() {
                        template_of_tok(inner[i])
                    } else {
                        TemplateTokM::Placeholder
                    },
            ),
        ),
        _ => TemplateTokM::Normal(t),
    }
}

/// What parsing turns a token sequence into, element by element.
pub open spec fn template_of(s: Seq<TokM>) -> Seq<TemplateTokM> {
    Seq::new(s.len(), |i: int| template_of_tok(s[i]))
}

/// What substituting `r` into one template token yields.
pub open spec fn subst_tok(t: TemplateTokM, r: Seq<TokM>) -> Seq<TokM>
    decreases t,
{
    match t {
        TemplateTokM::Normal(tok) => seq![tok],
        TemplateTokM::Placeholder => r,
        TemplateTokM::Group(d, inner) => seq![TokM::Group(d, subst_seq(inner, r))],
    }
}

/// What substituting `r` into a template yields: the concatenation of
/// each token's substitution, in order.
pub open spec fn subst_seq(ts: Seq<TemplateTokM>, r: Seq<TokM>) -> Seq<TokM>
    decreases ts,
{
    if ts.len() == 0 {
        Seq::empty()
    } else {
        subst_tok(ts[0], r) + subst_seq(ts.skip(1), r)
    }
}

/// A group template token's model is the group of its template's model.
pub proof fn lemma_ttok_group(d: Delim, te: TemplateExpr)
    ensures
        ttok_m(TemplateToken::Group(d, te)) == TemplateTokM::Group(d, te@),
{
    assert(ttok_m(TemplateToken::Group(d, te))->Group_1 =~= te@);
}

/// Substituting into a single template token.
pub proof fn lemma_subst_singleton(t: TemplateTokM, r: Seq<TokM>)
    ensures
        subst_seq(seq![t], r) == subst_tok(t, r),
{
    assert(seq![t].skip(1) =~= Seq::<TemplateTokM>::empty());
    assert(subst_tok(t, r) + subst_seq(seq![t].skip(1), r) =~= subst_tok(t, r));
}

/// Substitution distributes over concatenation of templates.
pub proof fn lemma_subst_append(a: Seq<TemplateTokM>, b: Seq<TemplateTokM>, r: Seq<TokM>)
    ensures
        subst_seq(a + b, r) == subst_seq(a, r) + subst_seq(b, r),
    decreases a.len(),
{
    if a.len() == 0 {
        assert(a + b =~= b);
        assert(subst_seq(a, r) + subst_seq(b, r) =~= subst_seq(b, r));
    } else {
        lemma_subst_append(a.skip(1), b, r);
        assert((a + b).skip(1) =~= a.skip(1) + b);
        assert(subst_seq(a + b, r) =~= subst_seq(a, r) + subst_seq(b, r));
    }
}

impl TemplateExpr {
    /// Parse a token sequence as a template: tag each `$`, recurse into
    /// each group, keep everything else.  Parsing is total.
    #[verifier::loop_isolation(false)]
    pub fn parse(toks: &Vec<Tok>) -> (r: TemplateExpr)
        ensures
            r@ == template_of(toks_view(toks@)),
        decreases *toks,
    {
        let mut out: Vec<TemplateToken> = Vec::new();
        let mut i: usize = 0;
        while i < toks.len()
            invariant
                i <= toks.len(),
                out@.len() == i,
                forall|j: int| 0 <= j < i ==> out@[j]@ == template_of_tok(toks@[j]@),
            decreases toks.len() - i,
        {
            let tt = match &toks[i] {
                Tok::Punct(c) => {
                    if *c == '$' {
                        TemplateToken::Placeholder(ExprPlaceHolder)
                    } else {
                        TemplateToken::Normal(Tok::Punct(*c))
                    }
                },
                Tok::Group(d, inner) => {
                    let sub = TemplateExpr::parse(inner);
                    proof {
                        assert(sub@ =~= ttok_m(TemplateToken::Group(*d, sub))->Group_1);
                        assert(template_of(toks_view(inner@)) =~= template_of_tok(
                            toks@[i as int]@,
                        )->Group_1);
                    }
                    TemplateToken::Group(*d, sub)
                },
                other => TemplateToken::Normal(other.duplicate()),
            };
            out.push(tt);
            i += 1;
        }
        let r = TemplateExpr { tokens: out };
        proof {
            assert(r@ =~= template_of(toks_view(toks@)));
        }
        r
    }

    /// A deep copy of the template.
    #[verifier::loop_isolation(false)]
    pub fn duplicate(&self) -> (r: TemplateExpr)
        ensures
            r@ == self@,
        decreases self.tokens,
    {
        let mut out: Vec<TemplateToken> = Vec::new();
        let mut i: usize = 0;
        while i < self.tokens.len()
            invariant
                i <= self.tokens.len(),
                out@.len() == i,
                forall|j: int| 0 <= j < i ==> out@[j]@ == self.tokens@[j]@,
            decreases self.tokens.len() - i,
        {
            let tt = match &self.tokens[i] {
                TemplateToken::Normal(tok) => TemplateToken::Normal(tok.duplicate()),
                TemplateToken::Placeholder(_) => TemplateToken::Placeholder(ExprPlaceHolder),
                TemplateToken::Group(d, te) => {
                    let copy = te.duplicate();
                    proof {
                        lemma_ttok_group(*d, copy);
                        lemma_ttok_group(*d, *te);
                    }
                    TemplateToken::Group(*d, copy)
                },
            };
            out.push(tt);
            i += 1;
        }
        let r = TemplateExpr { tokens: out };
        proof {
            assert(r@ =~= self@);
        }
        r
    }

    /// Expand the template: emit each token, substituting a copy of
    /// `replacement` at every placeholder, recursing through groups.
    #[verifier::loop_isolation(false)]
    pub fn expand_template(&self, replacement: &Vec<Tok>) -> (r: Vec<Tok>)
        ensures
            toks_view(r@) == subst_seq(self@, toks_view(replacement@)),
        decreases self.tokens,
    {
        let mut out: Vec<Tok> = Vec::new();
        let mut i: usize = 0;
        proof {
            assert(self@.take(0) =~= Seq::<TemplateTokM>::empty());
        }
        while i < self.tokens.len()
            invariant
                i <= self.tokens.len(),
                toks_view(out@) == subst_seq(self@.take(i as int), toks_view(replacement@)),
            decreases self.tokens.len() - i,
        {
            match &self.tokens[i] {
                TemplateToken::Normal(tok) => {
                    out.push(tok.duplicate());
                },
                TemplateToken::Placeholder(_) => {
                    let mut rep = crate::tokens::copy_toks(replacement);
                    out.append(&mut rep);
                },
                TemplateToken::Group(d, te) => {
                    let sub = te.expand_template(replacement);
                    proof {
                        crate::tokens::lemma_group_view(*d, sub);
                        lemma_ttok_group(*d, *te);
                    }
                    out.push(Tok::Group(*d, sub));
                },
            }
            proof {
                lemma_subst_append(
                    self@.take(i as int),
                    seq![self@[i as int]],
                    toks_view(replacement@),
                );
                lemma_subst_singleton(self@[i as int], toks_view(replacement@));
                assert(self@.take(i + 1 as int) =~= self@.take(i as int) + seq![self@[i as int]]);
                assert(toks_view(out@) =~= subst_seq(self@.take(i as int), toks_view(replacement@))
                    + subst_tok(self@[i as int], toks_view(replacement@)));
            }
            i += 1;
        }
        proof {
            assert(self@.take(self.tokens@.len() as int) =~= self@);
        }
        out
    }
}

/// The model of a group token built from already-modeled contents.
pub open spec fn tok_group_model(d: Delim, ts: Seq<Tok>) -> TokM {
    TokM::Group(d, toks_view(ts))
}

} // verus!
