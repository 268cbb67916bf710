//! The token-tree data model.
//!
//! A `Tok` is one host-language token: an identifier (keywords included),
//! a single punctuation character, a literal, or a delimited group of
//! nested tokens.  `TokM` is the mathematical model of a token used in
//! contracts; a token's view (`t@`) is its `TokM`.

use vstd::prelude::*;

verus! {

/// The delimiter of a token group.
#[derive(Clone, Copy, PartialEq, Eq, Structural, Debug)]
pub enum Delim {
    Paren,
    Bracket,
    Brace,
}

/// One token of the host language, as the generator sees it.
///
/// Multi-character operators (`->`, `::`, `=>`) are sequences of
/// single-character `Punct` tokens, as in the host compiler's own
/// token stream.
#[derive(PartialEq, Eq, Debug)]
pub enum Tok {
    Ident(String),
    Punct(char),
    Lit(String),
    Group(Delim, Vec<Tok>),
}

/// The mathematical model of a token: identifier and literal text as
/// character sequences, groups as sequences of modeled tokens.
pub enum TokM {
    Ident(Seq<char>),
    Punct(char),
    Lit(Seq<char>),
    Group(Delim, Seq<TokM>),
}

/// The model of a token.
pub open spec fn tok_m(t: Tok) -> TokM
    decreases t,
{
    match t {
        Tok::Ident(s) => TokM::Ident(s@),
        Tok::Punct(c) => TokM::Punct(c),
        Tok::Lit(s) => TokM::Lit(s@),
        Tok::Group(d, ts) => TokM::Group(
            d,
            Seq::new(
                ts@.len(),
                |i: int|
                    if 0 <= i < ts@.len() {
                        tok_m(ts@[i])
                    } else {
                        TokM::Punct(' ')
                    },
            ),
        ),
    }
}

impl View for Tok {
    type V = TokM;

    open spec fn view(&self) -> TokM {
        tok_m(*self)
    }
}

/// The model of a token sequence, element by element.
pub open spec fn toks_view(s: Seq<Tok>) -> Seq<TokM> {
    Seq::new(s.len(), |i: int| tok_m(s[i]))
}

/// A group's view is the group of its elements' views.
pub broadcast proof fn lemma_group_view(d: Delim, ts: Vec<Tok>)
    ensures
        #[trigger] tok_m(Tok::Group(d, ts)) == TokM::Group(d, toks_view(ts@)),
{
    assert(tok_m(Tok::Group(d, ts))->Group_1 =~= toks_view(ts@));
}

impl Tok {
    /// An identifier token from borrowed text.
    pub fn ident(s: &str) -> (r: Tok)
        ensures
            r@ == TokM::Ident(s@),
    {
        Tok::Ident(s.to_owned())
    }

    /// A literal token from borrowed text.
    pub fn lit(s: &str) -> (r: Tok)
        ensures
            r@ == TokM::Lit(s@),
    {
        Tok::Lit(s.to_owned())
    }

    /// Whether this token is the identifier with the given text.
    pub fn is_ident(&self, s: &str) -> (r: bool)
        ensures
            r == (self@ matches TokM::Ident(n) && n == s@),
    {
        match self {
            Tok::Ident(n) => str_eq(n.as_str(), s),
            _ => false,
        }
    }

    /// Whether this token is the given punctuation character.
    pub fn is_punct(&self, c: char) -> (r: bool)
        ensures
            r == (self@ matches TokM::Punct(d) && d == c),
    {
        match self {
            Tok::Punct(d) => *d == c,
            _ => false,
        }
    }
}

impl Tok {
    /// A deep copy of the token.
    #[verifier::loop_isolation(false)]
    pub fn duplicate(&self) -> (r: Tok)
        ensures
            r@ == self@,
        decreases *self,
    {
        match self {
            Tok::Ident(s) => Tok::Ident(s.clone()),
            Tok::Punct(c) => Tok::Punct(*c),
            Tok::Lit(s) => Tok::Lit(s.clone()),
            Tok::Group(d, ts) => {
                let mut out: Vec<Tok> = Vec::new();
                let mut i: usize = 0;
                while i < ts.len()
                    invariant
                        i <= ts.len(),
                        out@.len() == i,
                        forall|j: int| 0 <= j < i ==> out@[j]@ == ts@[j]@,
                    decreases ts.len() - i,
                {
                    let t = ts[i].duplicate();
                    out.push(t);
                    i += 1;
                }
                proof {
                    lemma_group_view(*d, out);
                    lemma_group_view(*d, *ts);
                    assert(toks_view(out@) =~= toks_view(ts@));
                }
                Tok::Group(*d, out)
            },
        }
    }
}

/// A deep copy of a token sequence.
pub fn copy_toks(ts: &Vec<Tok>) -> (r: Vec<Tok>)
    ensures
        toks_view(r@) == toks_view(ts@),
{
    let mut out: Vec<Tok> = Vec::new();
    let mut i: usize = 0;
    while i < ts.len()
        invariant
            i <= ts.len(),
            out@.len() == i,
            forall|j: int| 0 <= j < i ==> out@[j]@ == ts@[j]@,
        decreases ts.len() - i,
    {
        let t = ts[i].duplicate();
        out.push(t);
        i += 1;
    }
    proof {
        assert(toks_view(out@) =~= toks_view(ts@));
    }
    out
}

/// Relies on `<str as PartialEq>::eq`, which compares the text of the two
/// slices.
#[verifier::external_body]
pub fn str_eq(a: &str, b: &str) -> (r: bool)
    ensures
        r == (a@ == b@),
{
    a == b
}

} // verus!
