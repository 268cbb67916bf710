//! The expander.
//!
//! For every declared method of every segment, synthesize one complete
//! method definition: preserved annotations, an inlining hint,
//! visibility, the reconstructed signature, and a body that invokes
//! the delegation target, applying trait-qualified dispatch,
//! associated-constant access, match fan-out, await suffixing, return
//! transforms, statement termination, and the custom template.

use vstd::prelude::*;

use crate::attributes::{
    attr_ident, attrs_view, AttrArgs, AttrArgsM, AttrM, Attr, MethodAttributes,
    MethodAttributesM, ReturnExprM, ReturnExpression, AssociatedConstantM,
};
use crate::parser::{
    arms_view, runs_view, DelegBody, DelegBodyM, DelegatedMethod, DelegatedMethodM, Delegator,
    DelegatorM, MatchArmM, MethodSigM,
};
use crate::template::subst_seq;
use crate::tokens::{copy_toks, toks_view, Delim, Tok, TokM};

verus! {

/// Token runs joined by commas.
pub open spec fn joined(args: Seq<Seq<TokM>>) -> Seq<TokM>
    decreases args.len(),
{
    if args.len() == 0 {
        Seq::empty()
    } else if args.len() == 1 {
        args[0]
    } else {
        args[0] + seq![TokM::Punct(',')] + joined(args.skip(1))
    }
}

/// Joining one more run appends a comma and the run.
pub proof fn lemma_joined_push(s: Seq<Seq<TokM>>, k: int)
    requires
        0 <= k < s.len(),
    ensures
        joined(s.take(k + 1)) == if k == 0 {
            s[0]
        } else {
            joined(s.take(k)) + seq![TokM::Punct(',')] + s[k]
        },
    decreases k,
{
    if k == 0 {
        assert(s.take(1) =~= seq![s[0]]);
        assert(joined(seq![s[0]]) == s[0]);
    } else {
        lemma_joined_push(s.skip(1), k - 1);
        assert(s.take(k + 1).skip(1) =~= s.skip(1).take(k));
        assert(s.take(k).skip(1) =~= s.skip(1).take(k - 1));
        assert(s.take(k + 1)[0] == s[0]);
        assert(s.take(k)[0] == s[0]);
        if k == 1 {
            assert(joined(s.take(2)) == s[0] + seq![TokM::Punct(',')] + joined(s.skip(1).take(1)));
            assert(s.skip(1).take(1) =~= seq![s.skip(1)[0]]);
            assert(joined(s.take(1)) == s.take(1)[0]);
            assert(s.take(1)[0] == s[0]);
            assert(joined(s.take(k + 1)) =~= joined(s.take(k)) + seq![TokM::Punct(',')] + s[k]);
        } else {
            assert(joined(s.take(k + 1)) =~= joined(s.take(k)) + seq![TokM::Punct(',')] + s[k]);
        }
    }
}

/// The `::` separator.
pub open spec fn path_sep() -> Seq<TokM> {
    seq![TokM::Punct(':'), TokM::Punct(':')]
}

/// A parenthesized argument list.
pub open spec fn paren_args(args: Seq<Seq<TokM>>) -> Seq<TokM> {
    seq![TokM::Group(Delim::Paren, joined(args))]
}

/// The path `::core::convert::<which>`.
pub open spec fn convert_path(which: Seq<char>) -> Seq<TokM> {
    path_sep() + seq![TokM::Ident("core"@)] + path_sep() + seq![TokM::Ident("convert"@)]
        + path_sep() + seq![TokM::Ident(which)]
}

/// One return transform applied around a body.
pub open spec fn apply_rexpr(body: Seq<TokM>, e: ReturnExprM) -> Seq<TokM> {
    match e {
        ReturnExprM::Into(None) => convert_path("Into"@) + path_sep() + seq![TokM::Ident("into"@)]
            + paren_args(seq![body]),
        ReturnExprM::Into(Some(ty)) => convert_path("Into"@) + path_sep() + seq![TokM::Punct('<')]
            + ty + seq![TokM::Punct('>')] + path_sep() + seq![TokM::Ident("into"@)] + paren_args(
            seq![body],
        ),
        ReturnExprM::TryInto => convert_path("TryInto"@) + path_sep() + seq![
            TokM::Ident("try_into"@),
        ] + paren_args(seq![body]),
        ReturnExprM::Unwrap => body + seq![
            TokM::Punct('.'),
            TokM::Ident("unwrap"@),
            TokM::Group(Delim::Paren, Seq::empty()),
        ],
    }
}

/// The queued return transforms applied in order, innermost first.
pub open spec fn apply_rexprs(body: Seq<TokM>, es: Seq<ReturnExprM>) -> Seq<TokM>
    decreases es.len(),
{
    if es.len() == 0 {
        body
    } else {
        apply_rexprs(apply_rexpr(body, es[0]), es.skip(1))
    }
}

/// Applying transforms one more step.
pub proof fn lemma_apply_rexprs_step(body: Seq<TokM>, es: Seq<ReturnExprM>, k: int)
    requires
        0 <= k < es.len(),
    ensures
        apply_rexprs(body, es.take(k + 1)) == apply_rexpr(apply_rexprs(body, es.take(k)), es[k]),
    decreases k,
{
    if k == 0 {
        assert(es.take(1) =~= seq![es[0]]);
        assert(seq![es[0]].skip(1) =~= Seq::<ReturnExprM>::empty());
        reveal_with_fuel(apply_rexprs, 3);
    } else {
        lemma_apply_rexprs_step(apply_rexpr(body, es[0]), es.skip(1), k - 1);
        assert(es.take(k + 1).skip(1) =~= es.skip(1).take(k));
        assert(es.take(k).skip(1) =~= es.skip(1).take(k - 1));
        assert(es.take(k + 1)[0] == es[0]);
        assert(es.take(k)[0] == es[0]);
        assert(es.skip(1)[k - 1] == es[k]);
    }
}

/// The `.await` suffix, when the resolved decision asks for it.
pub open spec fn maybe_await(body: Seq<TokM>, aw: bool) -> Seq<TokM> {
    if aw {
        body + seq![TokM::Punct('.'), TokM::Ident("await"@)]
    } else {
        body
    }
}

/// The generated helper that reads a trait-qualified associated
/// constant through a generic binding: a block holding
/// `const fn get_const<T: Trait>(t: &T) -> Ret { <T as Trait>::CONST }`
/// followed by `get_const(<receiver>)`.
pub open spec fn const_access(
    c: AssociatedConstantM,
    output: Option<Seq<TokM>>,
    expr: Seq<TokM>,
) -> Seq<TokM> {
    seq![
        TokM::Group(
            Delim::Brace,
            seq![
                TokM::Ident("const"@),
                TokM::Ident("fn"@),
                TokM::Ident("get_const"@),
                TokM::Punct('<'),
                TokM::Ident("T"@),
                TokM::Punct(':'),
            ] + c.trait_path + seq![
                TokM::Punct('>'),
                TokM::Group(
                    Delim::Paren,
                    seq![
                        TokM::Ident("t"@),
                        TokM::Punct(':'),
                        TokM::Punct('&'),
                        TokM::Ident("T"@),
                    ],
                ),
            ] + (match output {
                Some(ty) => seq![TokM::Punct('-'), TokM::Punct('>')] + ty,
                None => Seq::<TokM>::empty(),
            }) + seq![
                TokM::Group(
                    Delim::Brace,
                    seq![TokM::Punct('<'), TokM::Ident("T"@), TokM::Ident("as"@)] + c.trait_path
                        + seq![TokM::Punct('>')] + path_sep() + c.const_name,
                ),
                TokM::Ident("get_const"@),
                TokM::Group(Delim::Paren, expr),
            ],
        ),
    ]
}

/// The base call on one receiver expression: trait-qualified when a
/// `through` trait was given, the constant helper when a `const` was
/// given, a method call on the receiver when the declaration has one,
/// an associated-function call otherwise.
pub open spec fn base_call(
    a: MethodAttributesM,
    output: Option<Seq<TokM>>,
    name: Seq<char>,
    tf: Seq<TokM>,
    is_method: bool,
    args: Seq<Seq<TokM>>,
    expr: Seq<TokM>,
) -> Seq<TokM> {
    if a.target_trait is Some {
        a.target_trait->0 + path_sep() + seq![TokM::Ident(name)] + tf + paren_args(
            seq![expr] + args,
        )
    } else if a.associated_constant is Some {
        const_access(a.associated_constant->0, output, expr)
    } else if is_method {
        expr + seq![TokM::Punct('.'), TokM::Ident(name)] + tf + paren_args(args)
    } else {
        expr + path_sep() + seq![TokM::Ident(name)] + tf + paren_args(args)
    }
}

/// The full per-receiver expression: the base call, the await suffix,
/// then each queued return transform.
pub open spec fn modify_expr(
    a: MethodAttributesM,
    output: Option<Seq<TokM>>,
    name: Seq<char>,
    tf: Seq<TokM>,
    is_method: bool,
    args: Seq<Seq<TokM>>,
    aw: bool,
    expr: Seq<TokM>,
) -> Seq<TokM> {
    apply_rexprs(maybe_await(base_call(a, output, name, tf, is_method, args, expr), aw), a.expressions)
}

/// The rewritten arms of a match target: each arm's body becomes the
/// per-receiver expression built on it.
pub open spec fn rewritten_arms(
    arms: Seq<MatchArmM>,
    a: MethodAttributesM,
    output: Option<Seq<TokM>>,
    name: Seq<char>,
    tf: Seq<TokM>,
    is_method: bool,
    args: Seq<Seq<TokM>>,
    aw: bool,
) -> Seq<TokM>
    decreases arms.len(),
{
    if arms.len() == 0 {
        Seq::empty()
    } else {
        arms[0].pat + seq![TokM::Punct('='), TokM::Punct('>')] + modify_expr(
            a,
            output,
            name,
            tf,
            is_method,
            args,
            aw,
            arms[0].body,
        ) + seq![TokM::Punct(',')] + rewritten_arms(arms.skip(1), a, output, name, tf, is_method, args, aw)
    }
}

/// Arm rewriting on one more arm.
#[verifier::rlimit(60)]
pub proof fn lemma_rewritten_arms_step(
    arms: Seq<MatchArmM>,
    a: MethodAttributesM,
    output: Option<Seq<TokM>>,
    name: Seq<char>,
    tf: Seq<TokM>,
    is_method: bool,
    args: Seq<Seq<TokM>>,
    aw: bool,
    k: int,
)
    requires
        0 <= k < arms.len(),
    ensures
        rewritten_arms(arms.take(k + 1), a, output, name, tf, is_method, args, aw)
            == rewritten_arms(arms.take(k), a, output, name, tf, is_method, args, aw)
            + arms[k].pat + seq![TokM::Punct('='), TokM::Punct('>')] + modify_expr(
            a,
            output,
            name,
            tf,
            is_method,
            args,
            aw,
            arms[k].body,
        ) + seq![TokM::Punct(',')],
    decreases k,
{
    reveal_with_fuel(rewritten_arms, 3);
    if k == 0 {
        assert(arms.take(1) =~= seq![arms[0]]);
        assert(seq![arms[0]].skip(1) =~= Seq::<MatchArmM>::empty());
        assert(rewritten_arms(arms.take(1), a, output, name, tf, is_method, args, aw) =~=
            rewritten_arms(arms.take(0), a, output, name, tf, is_method, args, aw) + arms[0].pat
            + seq![TokM::Punct('='), TokM::Punct('>')] + modify_expr(
            a,
            output,
            name,
            tf,
            is_method,
            args,
            aw,
            arms[0].body,
        ) + seq![TokM::Punct(',')]);
    } else {
        lemma_rewritten_arms_step(arms.skip(1), a, output, name, tf, is_method, args, aw, k - 1);
        assert(arms.take(k + 1).skip(1) =~= arms.skip(1).take(k));
        assert(arms.take(k).skip(1) =~= arms.skip(1).take(k - 1));
        assert(arms.take(k + 1)[0] == arms[0]);
        assert(arms.take(k)[0] == arms[0]);
        assert(arms.skip(1)[k - 1] == arms[k]);
        assert(rewritten_arms(arms.take(k + 1), a, output, name, tf, is_method, args, aw) =~=
            rewritten_arms(arms.take(k), a, output, name, tf, is_method, args, aw) + arms[k].pat
            + seq![TokM::Punct('='), TokM::Punct('>')] + modify_expr(
            a,
            output,
            name,
            tf,
            is_method,
            args,
            aw,
            arms[k].body,
        ) + seq![TokM::Punct(',')]);
    }
}

/// The body of the generated method before statement termination and
/// templating: the match fan-out over a match target, the plain
/// per-receiver expression otherwise.
pub open spec fn method_body_m(
    db: DelegBodyM,
    a: MethodAttributesM,
    output: Option<Seq<TokM>>,
    name: Seq<char>,
    tf: Seq<TokM>,
    is_method: bool,
    args: Seq<Seq<TokM>>,
    aw: bool,
) -> Seq<TokM> {
    match db {
        DelegBodyM::Plain(e) => modify_expr(a, output, name, tf, is_method, args, aw, e),
        DelegBodyM::MatchExpr { head, arms } => seq![TokM::Ident("match"@)] + head + seq![
            TokM::Group(
                Delim::Brace,
                rewritten_arms(arms, a, output, name, tf, is_method, args, aw),
            ),
        ],
    }
}

/// A declaration without a return type has its expression terminated
/// as a statement.
pub open spec fn stmt_terminated(body: Seq<TokM>, has_output: bool) -> Seq<TokM> {
    if has_output {
        body
    } else {
        body + seq![TokM::Punct(';')]
    }
}

/// The tokens of one reattached annotation.
pub open spec fn attr_tokens(a: AttrM) -> Seq<TokM> {
    seq![
        TokM::Punct('#'),
        TokM::Group(
            Delim::Bracket,
            a.path + (match a.args {
                AttrArgsM::Empty => Seq::<TokM>::empty(),
                AttrArgsM::Delimited(d, ts) => seq![TokM::Group(d, ts)],
                AttrArgsM::NameValue(v) => seq![TokM::Punct('=')] + v,
            }),
        ),
    ]
}

/// The tokens of a run of reattached annotations, in order.
pub open spec fn attrs_tokens(s: Seq<AttrM>) -> Seq<TokM>
    decreases s.len(),
{
    if s.len() == 0 {
        Seq::empty()
    } else {
        attr_tokens(s[0]) + attrs_tokens(s.skip(1))
    }
}

/// Annotation emission on one more annotation.
pub proof fn lemma_attrs_tokens_step(s: Seq<AttrM>, k: int)
    requires
        0 <= k < s.len(),
    ensures
        attrs_tokens(s.take(k + 1)) == attrs_tokens(s.take(k)) + attr_tokens(s[k]),
    decreases k,
{
    reveal_with_fuel(attrs_tokens, 3);
    if k == 0 {
        assert(s.take(1) =~= seq![s[0]]);
        assert(seq![s[0]].skip(1) =~= Seq::<AttrM>::empty());
        assert(attrs_tokens(s.take(1)) =~= attrs_tokens(s.take(0)) + attr_tokens(s[0]));
    } else {
        lemma_attrs_tokens_step(s.skip(1), k - 1);
        assert(s.take(k + 1).skip(1) =~= s.skip(1).take(k));
        assert(s.take(k).skip(1) =~= s.skip(1).take(k - 1));
        assert(s.take(k + 1)[0] == s[0]);
        assert(s.take(k)[0] == s[0]);
        assert(s.skip(1)[k - 1] == s[k]);
        assert(attrs_tokens(s.take(k + 1)) =~= attrs_tokens(s.take(k)) + attr_tokens(s[k]));
    }
}

/// Whether the annotation run already holds an `inline` annotation.
pub open spec fn has_inline(s: Seq<AttrM>) -> bool {
    exists|i: int| 0 <= i < s.len() && #[trigger] attr_ident(s[i]) == Some("inline"@)
}

/// The injected inlining hint: `#[inline]` unless the user supplied an
/// inline annotation of their own.
pub open spec fn inline_tokens(s: Seq<AttrM>) -> Seq<TokM> {
    if has_inline(s) {
        Seq::empty()
    } else {
        seq![
            TokM::Punct('#'),
            TokM::Group(Delim::Bracket, seq![TokM::Ident("inline"@)]),
        ]
    }
}

/// The signature parameters with a closure target's parameters
/// inserted: after the receiver when one leads, else in front.
pub open spec fn inserted_params(
    inputs: Seq<Seq<TokM>>,
    first_recv: bool,
    extra: Option<Seq<Seq<TokM>>>,
) -> Seq<Seq<TokM>> {
    match extra {
        None => inputs,
        Some(add) => if inputs.len() == 0 {
            add
        } else if first_recv {
            seq![inputs[0]] + add + inputs.skip(1)
        } else {
            add + seq![inputs[0]] + inputs.skip(1)
        },
    }
}

/// The tokens of the reconstructed signature over the given parameter
/// runs.
pub open spec fn sig_tokens(sig: MethodSigM, params: Seq<Seq<TokM>>) -> Seq<TokM> {
    (if sig.constness {
        seq![TokM::Ident("const"@)]
    } else {
        Seq::<TokM>::empty()
    }) + (if sig.asyncness {
        seq![TokM::Ident("async"@)]
    } else {
        Seq::<TokM>::empty()
    }) + (if sig.unsafety {
        seq![TokM::Ident("unsafe"@)]
    } else {
        Seq::<TokM>::empty()
    }) + (match sig.abi {
        Some(run) => run,
        None => Seq::<TokM>::empty(),
    }) + seq![TokM::Ident("fn"@), TokM::Ident(sig.name)] + (if sig.generics.len() > 0 {
        seq![TokM::Punct('<')] + sig.generics + seq![TokM::Punct('>')]
    } else {
        Seq::<TokM>::empty()
    }) + seq![TokM::Group(Delim::Paren, joined(params))] + (match sig.output {
        Some(ty) => seq![TokM::Punct('-'), TokM::Punct('>')] + ty,
        None => Seq::<TokM>::empty(),
    }) + (match sig.where_clause {
        Some(w) => seq![TokM::Ident("where"@)] + w,
        None => Seq::<TokM>::empty(),
    })
}

/// The complete expansion of one method, over the turbofish run `tf`
/// threaded from its generics: reattached annotations, the inlining
/// hint, visibility, signature, and the braced body.
pub open spec fn spec_expand_method(
    m: DelegatedMethodM,
    a: MethodAttributesM,
    d: DelegatorM,
    tf: Seq<TokM>,
) -> Seq<TokM> {
    let name = match a.target_method {
        Some(n) => n,
        None => m.sig.name,
    };
    let aw = crate::attributes::resolved_await(a.generate_await, m.sig.asyncness);
    let body0 = method_body_m(d.body, a, m.sig.output, name, tf, m.sig.receiver, m.arguments, aw);
    let body1 = stmt_terminated(body0, m.sig.output is Some);
    let body2 = match a.expr_attr {
        Some(t) => subst_seq(t, body1),
        None => body1,
    };
    attrs_tokens(a.attributes) + inline_tokens(a.attributes) + m.visibility + sig_tokens(
        m.sig,
        inserted_params(m.sig.inputs, m.sig.receiver, d.closure_params),
    ) + seq![TokM::Group(Delim::Brace, body2)]
}

/// The round-trip law: a declaration `fn m(&self, x: T) -> U;` with no
/// modifiers — no recognized annotations resolved, no segment
/// defaults, no generics, not async, a plain target — expands to a
/// method whose body is exactly the receiver expression followed by
/// `.m(x)`: the call of `m` on the configured target with the declared
/// parameter passed through.  The expansion is a function of its
/// input, so repeating it on identical input yields the identical
/// output.
pub proof fn lemma_plain_roundtrip(m: DelegatedMethodM, a: MethodAttributesM, d: DelegatorM)
    requires
        a.target_method is None,
        a.expressions.len() == 0,
        a.generate_await is None,
        a.target_trait is None,
        a.associated_constant is None,
        a.expr_attr is None,
        !m.sig.asyncness,
        m.sig.receiver,
        m.sig.output is Some,
        d.body is Plain,
        d.closure_params is None,
    ensures
        spec_expand_method(m, a, d, Seq::<TokM>::empty()) == attrs_tokens(a.attributes)
            + inline_tokens(a.attributes) + m.visibility + sig_tokens(m.sig, m.sig.inputs) + seq![
            TokM::Group(
                Delim::Brace,
                d.body->Plain_0 + seq![TokM::Punct('.'), TokM::Ident(m.sig.name)] + seq![
                    TokM::Group(Delim::Paren, joined(m.arguments)),
                ],
            ),
        ],
{
    let body = d.body->Plain_0 + seq![TokM::Punct('.'), TokM::Ident(m.sig.name)] + seq![
        TokM::Group(Delim::Paren, joined(m.arguments)),
    ];
    assert(base_call(
        a,
        m.sig.output,
        m.sig.name,
        Seq::<TokM>::empty(),
        true,
        m.arguments,
        d.body->Plain_0,
    ) =~= body);
    assert(modify_expr(
        a,
        m.sig.output,
        m.sig.name,
        Seq::<TokM>::empty(),
        true,
        m.arguments,
        false,
        d.body->Plain_0,
    ) == body);
}

/// Join argument runs with commas.
#[verifier::loop_isolation(false)]
fn join_args(args: &Vec<Vec<Tok>>) -> (r: Vec<Tok>)
    ensures
        toks_view(r@) == joined(runs_view(args@)),
{
    let ghost rs = runs_view(args@);
    let mut out: Vec<Tok> = Vec::new();
    let mut k: usize = 0;
    proof {
        assert(rs.take(0) =~= Seq::<Seq<TokM>>::empty());
    }
    while k < args.len()
        invariant
            k <= rs.len(),
            toks_view(out@) == joined(rs.take(k as int)),
        decreases rs.len() - k,
    {
        proof {
            lemma_joined_push(rs, k as int);
            assert(rs[k as int] == toks_view(args@[k as int]@));
        }
        if k > 0 {
            out.push(Tok::Punct(','));
        }
        let mut run = copy_toks(&args[k]);
        out.append(&mut run);
        proof {
            assert(toks_view(out@) =~= joined(rs.take(k + 1)));
        }
        k += 1;
    }
    proof {
        assert(rs.take(rs.len() as int) =~= rs);
    }
    out
}

/// A parenthesized argument list, as one group token.
fn build_paren_args(args: &Vec<Vec<Tok>>) -> (r: Tok)
    ensures
        r@ == TokM::Group(Delim::Paren, joined(runs_view(args@))),
{
    let inner = join_args(args);
    let grp = Tok::Group(Delim::Paren, inner);
    proof {
        assert(grp@->Group_1 =~= joined(runs_view(args@)));
    }
    grp
}

/// The spec view of an optional token run.
pub open spec fn opt_run(o: Option<Vec<Tok>>) -> Option<Seq<TokM>> {
    match o {
        Some(ts) => Some(toks_view(ts@)),
        None => None,
    }
}

/// Emit `::core::convert::<which>`.
fn push_convert_path(out: &mut Vec<Tok>, which: &str)
    ensures
        toks_view(final(out)@) == toks_view(old(out)@) + convert_path(which@),
{
    out.push(Tok::Punct(':'));
    out.push(Tok::Punct(':'));
    out.push(Tok::ident("core"));
    out.push(Tok::Punct(':'));
    out.push(Tok::Punct(':'));
    out.push(Tok::ident("convert"));
    out.push(Tok::Punct(':'));
    out.push(Tok::Punct(':'));
    out.push(Tok::ident(which));
    proof {
        assert(toks_view(final(out)@) =~= toks_view(old(out)@) + convert_path(which@));
    }
}

/// Apply one return transform around the body.
fn apply_one_transform(body: Vec<Tok>, e: &ReturnExpression) -> (r: Vec<Tok>)
    ensures
        toks_view(r@) == apply_rexpr(toks_view(body@), e@),
{
    let ghost b0 = toks_view(body@);
    match e {
        ReturnExpression::Into(o) => {
            let mut out: Vec<Tok> = Vec::new();
            push_convert_path(&mut out, "Into");
            match o {
                Some(ty) => {
                    out.push(Tok::Punct(':'));
                    out.push(Tok::Punct(':'));
                    out.push(Tok::Punct('<'));
                    let mut tyr = copy_toks(ty);
                    out.append(&mut tyr);
                    out.push(Tok::Punct('>'));
                },
                None => {},
            }
            out.push(Tok::Punct(':'));
            out.push(Tok::Punct(':'));
            out.push(Tok::ident("into"));
            let grp = Tok::Group(Delim::Paren, body);
            proof {
                assert(grp@->Group_1 =~= joined(seq![b0]));
            }
            out.push(grp);
            proof {
                assert(toks_view(out@) =~= apply_rexpr(b0, e@));
            }
            out
        },
        ReturnExpression::TryInto => {
            let mut out: Vec<Tok> = Vec::new();
            push_convert_path(&mut out, "TryInto");
            out.push(Tok::Punct(':'));
            out.push(Tok::Punct(':'));
            out.push(Tok::ident("try_into"));
            let grp = Tok::Group(Delim::Paren, body);
            proof {
                assert(grp@->Group_1 =~= joined(seq![b0]));
            }
            out.push(grp);
            proof {
                assert(toks_view(out@) =~= apply_rexpr(b0, e@));
            }
            out
        },
        ReturnExpression::Unwrap => {
            let mut out = body;
            out.push(Tok::Punct('.'));
            out.push(Tok::ident("unwrap"));
            let grp = Tok::Group(Delim::Paren, Vec::new());
            proof {
                assert(grp@->Group_1 =~= Seq::<TokM>::empty());
            }
            out.push(grp);
            proof {
                assert(toks_view(out@) =~= apply_rexpr(b0, e@));
            }
            out
        },
    }
}

/// The per-receiver expression: base call, await suffix, transforms.
#[verifier::loop_isolation(false)]
fn build_modified_expr(
    attrs: &MethodAttributes,
    output: &Option<Vec<Tok>>,
    name: &String,
    tf: &Vec<Tok>,
    is_method: bool,
    args: &Vec<Vec<Tok>>,
    aw: bool,
    expr: &Vec<Tok>,
) -> (r: Vec<Tok>)
    ensures
        toks_view(r@) == modify_expr(
            attrs@,
            opt_run(*output),
            name@,
            toks_view(tf@),
            is_method,
            runs_view(args@),
            aw,
            toks_view(expr@),
        ),
{
    let ghost am = attrs@;
    let ghost em = toks_view(expr@);
    let mut body: Vec<Tok>;
    match &attrs.target_trait {
        Some(tp) => {
            body = copy_toks(tp);
            body.push(Tok::Punct(':'));
            body.push(Tok::Punct(':'));
            body.push(Tok::Ident(name.clone()));
            let mut tfr = copy_toks(tf);
            body.append(&mut tfr);
            let mut all_args: Vec<Vec<Tok>> = Vec::new();
            let e = copy_toks(expr);
            all_args.push(e);
            proof {
                assert(runs_view(all_args@) =~= seq![em] + runs_view(args@).take(0));
            }
            let mut k: usize = 0;
            while k < args.len()
                invariant
                    k <= args@.len(),
                    runs_view(all_args@) == seq![em] + runs_view(args@).take(k as int),
                decreases args@.len() - k,
            {
                let a = copy_toks(&args[k]);
                all_args.push(a);
                proof {
                    let lhs = runs_view(all_args@);
                    let rhs = seq![em] + runs_view(args@).take(k + 1);
                    assert forall|j: int| 0 <= j < lhs.len() implies lhs[j] == rhs[j] by {
                        if j < k + 1 {
                            assert(lhs[j] == (seq![em] + runs_view(args@).take(k as int))[j]);
                        } else {
                            assert(lhs[j] == toks_view(a@));
                        }
                    }
                    assert(lhs =~= rhs);
                }
                k += 1;
            }
            proof {
                assert(runs_view(args@).take(args@.len() as int) =~= runs_view(args@));
            }
            let grp = build_paren_args(&all_args);
            body.push(grp);
            proof {
                assert(toks_view(body@) =~= base_call(
                    am,
                    opt_run(*output),
                    name@,
                    toks_view(tf@),
                    is_method,
                    runs_view(args@),
                    em,
                ));
            }
        },
        None => {
            match &attrs.associated_constant {
                Some(c) => {
                    let mut inner: Vec<Tok> = Vec::new();
                    inner.push(Tok::ident("const"));
                    inner.push(Tok::ident("fn"));
                    inner.push(Tok::ident("get_const"));
                    inner.push(Tok::Punct('<'));
                    inner.push(Tok::ident("T"));
                    inner.push(Tok::Punct(':'));
                    let mut tpr = copy_toks(&c.trait_path);
                    inner.append(&mut tpr);
                    inner.push(Tok::Punct('>'));
                    let mut targ: Vec<Tok> = Vec::new();
                    targ.push(Tok::ident("t"));
                    targ.push(Tok::Punct(':'));
                    targ.push(Tok::Punct('&'));
                    targ.push(Tok::ident("T"));
                    let targ_grp = Tok::Group(Delim::Paren, targ);
                    proof {
                        reveal_with_fuel(crate::tokens::tok_m, 2);
                        assert(targ_grp@->Group_1 =~= seq![
                            TokM::Ident("t"@),
                            TokM::Punct(':'),
                            TokM::Punct('&'),
                            TokM::Ident("T"@),
                        ]);
                    }
                    inner.push(targ_grp);
                    match output {
                        Some(ty) => {
                            inner.push(Tok::Punct('-'));
                            inner.push(Tok::Punct('>'));
                            let mut tyr = copy_toks(ty);
                            inner.append(&mut tyr);
                        },
                        None => {},
                    }
                    let mut cbody: Vec<Tok> = Vec::new();
                    cbody.push(Tok::Punct('<'));
                    cbody.push(Tok::ident("T"));
                    cbody.push(Tok::ident("as"));
                    let mut tpr2 = copy_toks(&c.trait_path);
                    cbody.append(&mut tpr2);
                    cbody.push(Tok::Punct('>'));
                    cbody.push(Tok::Punct(':'));
                    cbody.push(Tok::Punct(':'));
                    let mut cnr = copy_toks(&c.const_name);
                    cbody.append(&mut cnr);
                    let cbody_grp = Tok::Group(Delim::Brace, cbody);
                    proof {
                        reveal_with_fuel(crate::tokens::tok_m, 2);
                        assert(cbody_grp@->Group_1 =~= seq![
                            TokM::Punct('<'),
                            TokM::Ident("T"@),
                            TokM::Ident("as"@),
                        ] + c@.trait_path + seq![TokM::Punct('>')] + path_sep() + c@.const_name);
                    }
                    inner.push(cbody_grp);
                    inner.push(Tok::ident("get_const"));
                    let er = copy_toks(expr);
                    let e_grp = Tok::Group(Delim::Paren, er);
                    proof {
                        assert(e_grp@->Group_1 =~= em);
                    }
                    inner.push(e_grp);
                    let whole = Tok::Group(Delim::Brace, inner);
                    proof {
                        assert(whole@->Group_1 =~= const_access(c@, opt_run(*output), em)[0]->Group_1);
                    }
                    body = Vec::new();
                    body.push(whole);
                    proof {
                        assert(toks_view(body@) =~= const_access(c@, opt_run(*output), em));
                        assert(toks_view(body@) =~= base_call(
                            am,
                            opt_run(*output),
                            name@,
                            toks_view(tf@),
                            is_method,
                            runs_view(args@),
                            em,
                        ));
                    }
                },
                None => {
                    body = copy_toks(expr);
                    if is_method {
                        body.push(Tok::Punct('.'));
                        body.push(Tok::Ident(name.clone()));
                    } else {
                        body.push(Tok::Punct(':'));
                        body.push(Tok::Punct(':'));
                        body.push(Tok::Ident(name.clone()));
                    }
                    let mut tfr = copy_toks(tf);
                    body.append(&mut tfr);
                    let grp = build_paren_args(args);
                    body.push(grp);
                    proof {
                        assert(toks_view(body@) =~= base_call(
                            am,
                            opt_run(*output),
                            name@,
                            toks_view(tf@),
                            is_method,
                            runs_view(args@),
                            em,
                        ));
                    }
                },
            }
        },
    }
    if aw {
        body.push(Tok::Punct('.'));
        body.push(Tok::ident("await"));
    }
    proof {
        assert(toks_view(body@) =~= maybe_await(
            base_call(am, opt_run(*output), name@, toks_view(tf@), is_method, runs_view(args@), em),
            aw,
        ));
    }
    let ghost awaited = toks_view(body@);
    let ghost es = am.expressions;
    let mut k: usize = 0;
    proof {
        assert(es.take(0) =~= Seq::<ReturnExprM>::empty());
    }
    while k < attrs.expressions.len()
        invariant
            k <= es.len(),
            toks_view(body@) == apply_rexprs(awaited, es.take(k as int)),
        decreases es.len() - k,
    {
        proof {
            lemma_apply_rexprs_step(awaited, es, k as int);
            assert(es[k as int] == attrs.expressions@[k as int]@);
        }
        body = apply_one_transform(body, &attrs.expressions[k]);
        k += 1;
    }
    proof {
        assert(es.take(es.len() as int) =~= es);
    }
    body
}

/// The reattachment tokens of one annotation.
fn build_attr_tokens(a: &Attr) -> (r: Vec<Tok>)
    ensures
        toks_view(r@) == attr_tokens(a@),
{
    let mut inner = copy_toks(&a.path);
    match &a.args {
        AttrArgs::Empty => {},
        AttrArgs::Delimited(d, ts) => {
            let grp = Tok::Group(*d, copy_toks(ts));
            proof {
                assert(grp@->Group_1 =~= toks_view(ts@));
            }
            inner.push(grp);
        },
        AttrArgs::NameValue(v) => {
            inner.push(Tok::Punct('='));
            let mut vr = copy_toks(v);
            inner.append(&mut vr);
        },
    }
    let ghost innerm = toks_view(inner@);
    proof {
        reveal_with_fuel(crate::tokens::tok_m, 2);
        assert(innerm =~= a@.path + (match a@.args {
            AttrArgsM::Empty => Seq::<TokM>::empty(),
            AttrArgsM::Delimited(d, ts) => seq![TokM::Group(d, ts)],
            AttrArgsM::NameValue(v) => seq![TokM::Punct('=')] + v,
        }));
    }
    let mut out: Vec<Tok> = Vec::new();
    out.push(Tok::Punct('#'));
    let grp = Tok::Group(Delim::Bracket, inner);
    proof {
        assert(grp@->Group_1 =~= innerm);
    }
    out.push(grp);
    proof {
        assert(toks_view(out@) =~= attr_tokens(a@));
    }
    out
}

/// Whether the annotation list holds an `inline` annotation.
pub fn has_inline_attribute(attrs: &Vec<Attr>) -> (r: bool)
    ensures
        r == has_inline(attrs_view(attrs@)),
{
    let mut i: usize = 0;
    while i < attrs.len()
        invariant
            i <= attrs@.len(),
            forall|j: int|
                0 <= j < i ==> !(#[trigger] attr_ident(attrs_view(attrs@)[j]) == Some("inline"@)),
        decreases attrs@.len() - i,
    {
        match attrs[i].name() {
            Some(n) => {
                if crate::tokens::str_eq(n.as_str(), "inline") {
                    proof {
                        assert(attr_ident(attrs_view(attrs@)[i as int]) == Some("inline"@));
                    }
                    return true;
                }
            },
            None => {},
        }
        i += 1;
    }
    false
}

/// The signature parameters with a closure target's parameters
/// inserted.
#[verifier::loop_isolation(false)]
fn build_inserted_params(
    inputs: &Vec<Vec<Tok>>,
    first_recv: bool,
    extra: &Option<Vec<Vec<Tok>>>,
) -> (r: Vec<Vec<Tok>>)
    ensures
        runs_view(r@) == inserted_params(
            runs_view(inputs@),
            first_recv,
            match extra {
                Some(add) => Some(runs_view(add@)),
                None => None,
            },
        ),
{
    let mut out: Vec<Vec<Tok>> = Vec::new();
    match extra {
        None => {
            let mut k: usize = 0;
            while k < inputs.len()
                invariant
                    k <= inputs@.len(),
                    runs_view(out@) == runs_view(inputs@).take(k as int),
                decreases inputs@.len() - k,
            {
                let run = copy_toks(&inputs[k]);
                out.push(run);
                proof {
                    assert(runs_view(out@) =~= runs_view(inputs@).take(k + 1));
                }
                k += 1;
            }
            proof {
                assert(runs_view(inputs@).take(inputs@.len() as int) =~= runs_view(inputs@));
            }
        },
        Some(add) => {
            let ghost im = runs_view(inputs@);
            let ghost addm = runs_view(add@);
            if inputs.len() > 0 && first_recv {
                let run = copy_toks(&inputs[0]);
                out.push(run);
            }
            let ghost phase_a = if inputs@.len() > 0 && first_recv {
                seq![im[0]]
            } else {
                Seq::<Seq<TokM>>::empty()
            };
            proof {
                assert(runs_view(out@) =~= phase_a);
            }
            let mut k: usize = 0;
            proof {
                assert(runs_view(out@) =~= phase_a + addm.take(0));
            }
            while k < add.len()
                invariant
                    k <= addm.len(),
                    runs_view(out@) == phase_a + addm.take(k as int),
                decreases addm.len() - k,
            {
                let run = copy_toks(&add[k]);
                out.push(run);
                proof {
                    let lhs = runs_view(out@);
                    let rhs = phase_a + addm.take(k + 1);
                    assert forall|j: int| 0 <= j < lhs.len() implies lhs[j] == rhs[j] by {
                        if j < lhs.len() - 1 {
                            assert(lhs[j] == (phase_a + addm.take(k as int))[j]);
                        } else {
                            assert(lhs[j] == toks_view(run@));
                        }
                    }
                    assert(lhs =~= rhs);
                }
                k += 1;
            }
            proof {
                assert(addm.take(addm.len() as int) =~= addm);
            }
            if inputs.len() > 0 && !first_recv {
                let run = copy_toks(&inputs[0]);
                out.push(run);
            }
            let ghost phase_c = if inputs@.len() > 0 {
                if first_recv {
                    seq![im[0]] + addm
                } else {
                    addm + seq![im[0]]
                }
            } else {
                addm
            };
            proof {
                assert(runs_view(out@) =~= phase_c);
            }
            let mut k2: usize = 1;
            proof {
                if im.len() > 0 {
                    assert(runs_view(out@) =~= phase_c + im.skip(1).take(0));
                }
            }
            while k2 < inputs.len()
                invariant
                    1 <= k2,
                    im.len() > 0 ==> k2 <= im.len(),
                    im.len() > 0 ==> runs_view(out@) == phase_c + im.skip(1).take(k2 - 1),
                    im.len() == 0 ==> runs_view(out@) == phase_c,
                decreases im.len() - k2,
            {
                let run = copy_toks(&inputs[k2]);
                out.push(run);
                proof {
                    let lhs = runs_view(out@);
                    let rhs = phase_c + im.skip(1).take(k2 as int);
                    assert(im.skip(1)[k2 - 1] == im[k2 as int]);
                    assert forall|j: int| 0 <= j < lhs.len() implies lhs[j] == rhs[j] by {
                        if j < lhs.len() - 1 {
                            assert(lhs[j] == (phase_c + im.skip(1).take(k2 - 1))[j]);
                        } else {
                            assert(lhs[j] == toks_view(run@));
                        }
                    }
                    assert(lhs =~= rhs);
                }
                k2 += 1;
            }
            proof {
                if im.len() > 0 {
                    assert(im.skip(1).take(im.len() - 1) =~= im.skip(1));
                    assert(runs_view(out@) =~= phase_c + im.skip(1));
                    if first_recv {
                        assert(phase_c + im.skip(1) =~= seq![im[0]] + addm + im.skip(1));
                    } else {
                        assert(phase_c + im.skip(1) =~= addm + seq![im[0]] + im.skip(1));
                    }
                } else {
                    assert(runs_view(out@) =~= addm);
                }
                assert(runs_view(out@) =~= inserted_params(im, first_recv, Some(addm)));
            }
        },
    }
    out
}

/// The reconstructed signature tokens over the given parameter runs.
#[verifier::rlimit(100)]
fn build_sig_tokens(sig: &crate::parser::MethodSig, params: &Vec<Vec<Tok>>) -> (r: Vec<Tok>)
    ensures
        toks_view(r@) == sig_tokens(sig@, runs_view(params@)),
{
    let mut out: Vec<Tok> = Vec::new();
    if sig.constness {
        out.push(Tok::ident("const"));
    }
    if sig.asyncness {
        out.push(Tok::ident("async"));
    }
    if sig.unsafety {
        out.push(Tok::ident("unsafe"));
    }
    match &sig.abi {
        Some(run) => {
            let mut rr = copy_toks(run);
            out.append(&mut rr);
        },
        None => {},
    }
    let ghost quals = (if sig@.constness {
        seq![TokM::Ident("const"@)]
    } else {
        Seq::<TokM>::empty()
    }) + (if sig@.asyncness {
        seq![TokM::Ident("async"@)]
    } else {
        Seq::<TokM>::empty()
    }) + (if sig@.unsafety {
        seq![TokM::Ident("unsafe"@)]
    } else {
        Seq::<TokM>::empty()
    }) + (match sig@.abi {
        Some(run) => run,
        None => Seq::<TokM>::empty(),
    });
    proof {
        assert(toks_view(out@) =~= quals);
    }
    out.push(Tok::ident("fn"));
    out.push(Tok::Ident(sig.name.clone()));
    if sig.generics.len() > 0 {
        out.push(Tok::Punct('<'));
        let mut g = copy_toks(&sig.generics);
        out.append(&mut g);
        out.push(Tok::Punct('>'));
    }
    let ghost upto_gen = quals + seq![TokM::Ident("fn"@), TokM::Ident(sig@.name)] + (
    if sig@.generics.len() > 0 {
        seq![TokM::Punct('<')] + sig@.generics + seq![TokM::Punct('>')]
    } else {
        Seq::<TokM>::empty()
    });
    proof {
        assert(toks_view(out@) =~= upto_gen);
    }
    let grp = build_paren_args(params);
    out.push(grp);
    match &sig.output {
        Some(ty) => {
            out.push(Tok::Punct('-'));
            out.push(Tok::Punct('>'));
            let mut t = copy_toks(ty);
            out.append(&mut t);
        },
        None => {},
    }
    let ghost upto_out = upto_gen + seq![
        TokM::Group(Delim::Paren, joined(runs_view(params@))),
    ] + (match sig@.output {
        Some(ty) => seq![TokM::Punct('-'), TokM::Punct('>')] + ty,
        None => Seq::<TokM>::empty(),
    });
    proof {
        assert(toks_view(out@) =~= upto_out);
    }
    match &sig.where_clause {
        Some(w) => {
            out.push(Tok::ident("where"));
            let mut ww = copy_toks(w);
            out.append(&mut ww);
        },
        None => {},
    }
    proof {
        assert(toks_view(out@) =~= upto_out + (match sig@.where_clause {
            Some(w) => seq![TokM::Ident("where"@)] + w,
            None => Seq::<TokM>::empty(),
        }));
        assert(toks_view(out@) =~= sig_tokens(sig@, runs_view(params@)));
    }
    out
}

/// The parameter name one generics chunk contributes to the
/// turbofish: leading annotations are skipped, a lifetime contributes
/// nothing, a `const` parameter contributes the following identifier,
/// a type parameter contributes its leading identifier.
pub open spec fn generic_param_name(chunk: Seq<TokM>) -> Option<Seq<TokM>>
    decreases chunk.len(),
{
    if chunk.len() == 0 {
        None
    } else if chunk[0] == TokM::Punct('#') && chunk.len() >= 2 && chunk[1] is Group
        && chunk[1]->Group_0 == Delim::Bracket {
        generic_param_name(chunk.skip(2))
    } else if chunk[0] == TokM::Punct('\'') {
        None
    } else if chunk[0] is Ident {
        if chunk[0]->Ident_0 == "const"@ {
            if chunk.len() >= 2 && chunk[1] is Ident {
                Some(seq![chunk[1]])
            } else {
                None
            }
        } else {
            Some(seq![chunk[0]])
        }
    } else {
        None
    }
}

/// The turbofish parameter names of a chunk sequence, in order.
pub open spec fn turbofish_names(chunks: Seq<Seq<TokM>>) -> Seq<Seq<TokM>>
    decreases chunks.len(),
{
    if chunks.len() == 0 {
        Seq::empty()
    } else {
        (match generic_param_name(chunks[0]) {
            Some(n) => seq![n],
            None => Seq::<Seq<TokM>>::empty(),
        }) + turbofish_names(chunks.skip(1))
    }
}

/// Name collection on one more chunk.
pub proof fn lemma_turbofish_names_step(chunks: Seq<Seq<TokM>>, k: int)
    requires
        0 <= k < chunks.len(),
    ensures
        turbofish_names(chunks.take(k + 1)) == turbofish_names(chunks.take(k)) + (
        match generic_param_name(chunks[k]) {
            Some(n) => seq![n],
            None => Seq::<Seq<TokM>>::empty(),
        }),
    decreases k,
{
    reveal_with_fuel(turbofish_names, 3);
    if k == 0 {
        assert(chunks.take(1) =~= seq![chunks[0]]);
        assert(seq![chunks[0]].skip(1) =~= Seq::<Seq<TokM>>::empty());
        assert(turbofish_names(chunks.take(1)) =~= turbofish_names(chunks.take(0)) + (
        match generic_param_name(chunks[0]) {
            Some(n) => seq![n],
            None => Seq::<Seq<TokM>>::empty(),
        }));
    } else {
        lemma_turbofish_names_step(chunks.skip(1), k - 1);
        assert(chunks.take(k + 1).skip(1) =~= chunks.skip(1).take(k));
        assert(chunks.take(k).skip(1) =~= chunks.skip(1).take(k - 1));
        assert(chunks.take(k + 1)[0] == chunks[0]);
        assert(chunks.take(k)[0] == chunks[0]);
        assert(chunks.skip(1)[k - 1] == chunks[k]);
        assert(turbofish_names(chunks.take(k + 1)) =~= turbofish_names(chunks.take(k)) + (
        match generic_param_name(chunks[k]) {
            Some(n) => seq![n],
            None => Seq::<Seq<TokM>>::empty(),
        }));
    }
}

/// The explicit turbofish of a generics run: `::<` the type and const
/// parameter names in declaration order `>`, lifetimes omitted; empty
/// when there are no such parameters or the run does not split.
pub open spec fn turbofish_of(generics: Seq<TokM>) -> Seq<TokM> {
    if generics.len() == 0 {
        Seq::empty()
    } else {
        match crate::parser::spec_split_commas(generics) {
            None => Seq::empty(),
            Some(chunks) => {
                let names = turbofish_names(chunks);
                if names.len() == 0 {
                    Seq::empty()
                } else {
                    path_sep() + seq![TokM::Punct('<')] + joined(names) + seq![TokM::Punct('>')]
                }
            },
        }
    }
}

/// Build the explicit turbofish of the declared generics.
#[verifier::loop_isolation(false)]
pub fn method_turbofish(generics: &Vec<Tok>) -> (r: Vec<Tok>)
    ensures
        toks_view(r@) == turbofish_of(toks_view(generics@)),
{
    let ghost gm = toks_view(generics@);
    if generics.len() == 0 {
        let r: Vec<Tok> = Vec::new();
        proof {
            assert(toks_view(r@) =~= turbofish_of(gm));
        }
        return r;
    }
    let chunks = match crate::parser::split_commas(generics) {
        Ok(c) => c,
        Err(_) => {
            let r: Vec<Tok> = Vec::new();
            proof {
                assert(toks_view(r@) =~= turbofish_of(gm));
            }
            return r;
        },
    };
    let ghost cm = runs_view(chunks@);
    let mut names: Vec<Vec<Tok>> = Vec::new();
    let mut k: usize = 0;
    proof {
        assert(runs_view(names@) =~= turbofish_names(cm.take(0)));
    }
    while k < chunks.len()
        invariant
            k <= cm.len(),
            runs_view(names@) == turbofish_names(cm.take(k as int)),
        decreases cm.len() - k,
    {
        proof {
            lemma_turbofish_names_step(cm, k as int);
            assert(cm[k as int] == toks_view(chunks@[k as int]@));
        }
        let chunk = &chunks[k];
        let ghost chm = toks_view(chunk@);
        let mut p: usize = 0;
        proof {
            assert(chm.skip(0) =~= chm);
        }
        while p < chunk.len() && chunk[p].is_punct('#')
            invariant
                p <= chunk@.len(),
                generic_param_name(chm) == generic_param_name(chm.skip(p as int)),
            decreases chunk@.len() - p,
        {
            proof {
                assert(chm.skip(p as int)[0] == chm[p as int]);
                assert(chm[p as int] == chunk@[p as int]@);
            }
            if p + 1 < chunk.len() {
                match &chunk[p + 1] {
                    Tok::Group(Delim::Bracket, _) => {
                        proof {
                            assert(chm.skip(p as int)[1] == chm[p + 1]);
                            assert(chm.skip(p as int).skip(2) =~= chm.skip(p + 2));
                        }
                        p += 2;
                    },
                    _ => {
                        break;
                    },
                }
            } else {
                break;
            }
        }
        proof {
            if p < chunk@.len() {
                assert(chm.skip(p as int)[0] == chm[p as int]);
                assert(chm[p as int] == chunk@[p as int]@);
                if (p as int) + 1 < chunk@.len() {
                    assert(chm.skip(p as int)[1] == chm[p + 1]);
                    assert(chm[p + 1] == chunk@[p + 1]@);
                }
            } else {
                assert(chm.skip(p as int) =~= Seq::<TokM>::empty());
            }
        }
        let ghost names0 = runs_view(names@);
        if p < chunk.len() {
            let is_lifetime = chunk[p].is_punct('\'');
            if !is_lifetime {
                if chunk[p].is_ident("const") {
                    if p + 1 < chunk.len() {
                        match &chunk[p + 1] {
                            Tok::Ident(_) => {
                                let mut run: Vec<Tok> = Vec::new();
                                let t = chunk[p + 1].duplicate();
                                run.push(t);
                                proof {
                                    assert(toks_view(run@) =~= seq![chm[p + 1]]);
                                }
                                names.push(run);
                                proof {
                                    assert(runs_view(names@) =~= names0.push(seq![chm[p + 1]]));
                                }
                            },
                            _ => {},
                        }
                    }
                } else {
                    match &chunk[p] {
                        Tok::Ident(_) => {
                            let mut run: Vec<Tok> = Vec::new();
                            let t = chunk[p].duplicate();
                            run.push(t);
                            proof {
                                assert(toks_view(run@) =~= seq![chm[p as int]]);
                            }
                            names.push(run);
                            proof {
                                assert(runs_view(names@) =~= names0.push(seq![chm[p as int]]));
                            }
                        },
                        _ => {},
                    }
                }
            }
        }
        proof {
            assert(runs_view(names@) =~= turbofish_names(cm.take(k + 1)));
        }
        k += 1;
    }
    proof {
        assert(cm.take(cm.len() as int) =~= cm);
    }
    if names.len() == 0 {
        let r: Vec<Tok> = Vec::new();
        proof {
            assert(toks_view(r@) =~= turbofish_of(gm));
        }
        return r;
    }
    let mut out: Vec<Tok> = Vec::new();
    out.push(Tok::Punct(':'));
    out.push(Tok::Punct(':'));
    out.push(Tok::Punct('<'));
    let mut j = join_args(&names);
    out.append(&mut j);
    out.push(Tok::Punct('>'));
    proof {
        assert(toks_view(out@) =~= path_sep() + seq![TokM::Punct('<')] + joined(runs_view(names@))
            + seq![TokM::Punct('>')]);
    }
    out
}

/// Expand one method against its resolved attributes and its
/// segment's target: the complete synthesized definition, token by
/// token.
#[verifier::loop_isolation(false)]
#[verifier::rlimit(100)]
pub fn expand_method(
    method: &DelegatedMethod,
    attrs: &MethodAttributes,
    delegator: &Delegator,
) -> (r: Vec<Tok>)
    ensures
        toks_view(r@) == spec_expand_method(
            method@,
            attrs@,
            delegator@,
            turbofish_of(method@.sig.generics),
        ),
{
    let name: String = match &attrs.target_method {
        Some(n) => n.clone(),
        None => method.sig.name.clone(),
    };
    let aw: bool = match attrs.generate_await {
        Some(b) => b,
        None => method.sig.asyncness,
    };
    let tf = method_turbofish(&method.sig.generics);
    let ghost tfm = toks_view(tf@);
    let ghost nm = name@;
    let mut body: Vec<Tok>;
    match &delegator.body {
        DelegBody::Plain(e) => {
            body = build_modified_expr(
                attrs,
                &method.sig.output,
                &name,
                &tf,
                method.sig.receiver,
                &method.arguments,
                aw,
                e,
            );
        },
        DelegBody::MatchExpr { head, arms } => {
            body = Vec::new();
            body.push(Tok::ident("match"));
            let mut h = copy_toks(head);
            body.append(&mut h);
            let mut arm_toks: Vec<Tok> = Vec::new();
            let ghost armsm = arms_view(arms@);
            let mut k: usize = 0;
            proof {
                assert(armsm.take(0) =~= Seq::<MatchArmM>::empty());
            }
            while k < arms.len()
                invariant
                    k <= armsm.len(),
                    toks_view(arm_toks@) == rewritten_arms(
                        armsm.take(k as int),
                        attrs@,
                        opt_run(method.sig.output),
                        nm,
                        tfm,
                        method.sig.receiver,
                        runs_view(method.arguments@),
                        aw,
                    ),
                decreases armsm.len() - k,
            {
                proof {
                    lemma_rewritten_arms_step(
                        armsm,
                        attrs@,
                        opt_run(method.sig.output),
                        nm,
                        tfm,
                        method.sig.receiver,
                        runs_view(method.arguments@),
                        aw,
                        k as int,
                    );
                    assert(armsm[k as int] == arms@[k as int]@);
                }
                let mut p = copy_toks(&arms[k].pat);
                arm_toks.append(&mut p);
                arm_toks.push(Tok::Punct('='));
                arm_toks.push(Tok::Punct('>'));
                let mut m = build_modified_expr(
                    attrs,
                    &method.sig.output,
                    &name,
                    &tf,
                    method.sig.receiver,
                    &method.arguments,
                    aw,
                    &arms[k].body,
                );
                arm_toks.append(&mut m);
                arm_toks.push(Tok::Punct(','));
                proof {
                    assert(toks_view(arm_toks@) =~= rewritten_arms(
                        armsm.take(k + 1),
                        attrs@,
                        opt_run(method.sig.output),
                        nm,
                        tfm,
                        method.sig.receiver,
                        runs_view(method.arguments@),
                        aw,
                    ));
                }
                k += 1;
            }
            proof {
                assert(armsm.take(armsm.len() as int) =~= armsm);
            }
            let grp = Tok::Group(Delim::Brace, arm_toks);
            proof {
                assert(grp@->Group_1 =~= rewritten_arms(
                    armsm,
                    attrs@,
                    opt_run(method.sig.output),
                    nm,
                    tfm,
                    method.sig.receiver,
                    runs_view(method.arguments@),
                    aw,
                ));
            }
            body.push(grp);
            proof {
                assert(toks_view(body@) =~= method_body_m(
                    delegator@.body,
                    attrs@,
                    opt_run(method.sig.output),
                    nm,
                    tfm,
                    method.sig.receiver,
                    runs_view(method.arguments@),
                    aw,
                ));
            }
        },
    }
    let has_output = match &method.sig.output {
        Some(_) => true,
        None => false,
    };
    if !has_output {
        body.push(Tok::Punct(';'));
    }
    proof {
        assert(toks_view(body@) =~= stmt_terminated(
            method_body_m(
                delegator@.body,
                attrs@,
                opt_run(method.sig.output),
                nm,
                tfm,
                method.sig.receiver,
                runs_view(method.arguments@),
                aw,
            ),
            method@.sig.output is Some,
        ));
    }
    let final_body = match &attrs.expr_attr {
        Some(t) => t.expand_template(&body),
        None => body,
    };
    let mut out: Vec<Tok> = Vec::new();
    let ghost am = attrs_view(attrs.attributes@);
    let mut k: usize = 0;
    proof {
        assert(am.take(0) =~= Seq::<AttrM>::empty());
    }
    while k < attrs.attributes.len()
        invariant
            k <= am.len(),
            toks_view(out@) == attrs_tokens(am.take(k as int)),
        decreases am.len() - k,
    {
        proof {
            lemma_attrs_tokens_step(am, k as int);
            assert(am[k as int] == attrs.attributes@[k as int]@);
        }
        let mut a = build_attr_tokens(&attrs.attributes[k]);
        out.append(&mut a);
        k += 1;
    }
    proof {
        assert(am.take(am.len() as int) =~= am);
    }
    if !has_inline_attribute(&attrs.attributes) {
        out.push(Tok::Punct('#'));
        let mut inner: Vec<Tok> = Vec::new();
        inner.push(Tok::ident("inline"));
        let grp = Tok::Group(Delim::Bracket, inner);
        proof {
            assert(grp@->Group_1 =~= seq![TokM::Ident("inline"@)]);
        }
        out.push(grp);
    }
    proof {
        assert(toks_view(out@) =~= attrs_tokens(am) + inline_tokens(am));
    }
    let mut vis = copy_toks(&method.visibility);
    out.append(&mut vis);
    proof {
        assert(toks_view(out@) =~= attrs_tokens(am) + inline_tokens(am) + method@.visibility);
    }
    let params = build_inserted_params(
        &method.sig.inputs,
        method.sig.receiver,
        &delegator.closure_params,
    );
    proof {
        assert(runs_view(params@) == inserted_params(
            method@.sig.inputs,
            method@.sig.receiver,
            delegator@.closure_params,
        ));
    }
    let mut sig = build_sig_tokens(&method.sig, &params);
    out.append(&mut sig);
    proof {
        assert(toks_view(out@) =~= attrs_tokens(am) + inline_tokens(am) + method@.visibility
            + sig_tokens(
            method@.sig,
            inserted_params(method@.sig.inputs, method@.sig.receiver, delegator@.closure_params),
        ));
    }
    let ghost fbm = toks_view(final_body@);
    let body_grp = Tok::Group(Delim::Brace, final_body);
    proof {
        assert(body_grp@->Group_1 =~= fbm);
    }
    out.push(body_grp);
    proof {
        assert(toks_view(out@) =~= spec_expand_method(method@, attrs@, delegator@, tfm));
        assert(tfm == turbofish_of(method@.sig.generics));
    }
    out
}

/// The expansion of a run of method declarations under one segment's
/// defaults and target, concatenated in declaration order.
pub open spec fn methods_expansion(
    ms: Seq<DelegatedMethodM>,
    sa: crate::attributes::SegmentAttributesM,
    d: DelegatorM,
) -> Seq<TokM>
    decreases ms.len(),
{
    if ms.len() == 0 {
        Seq::empty()
    } else {
        spec_expand_method(
            ms[0],
            crate::attributes::spec_combine(
                crate::attributes::resolve_method_attrs(ms[0].attributes),
                sa,
            ),
            d,
            turbofish_of(ms[0].sig.generics),
        ) + methods_expansion(ms.skip(1), sa, d)
    }
}

/// Method expansion distributes over concatenation.
pub proof fn lemma_methods_expansion_append(
    a: Seq<DelegatedMethodM>,
    b: Seq<DelegatedMethodM>,
    sa: crate::attributes::SegmentAttributesM,
    d: DelegatorM,
)
    ensures
        methods_expansion(a + b, sa, d) == methods_expansion(a, sa, d) + methods_expansion(
            b,
            sa,
            d,
        ),
    decreases a.len(),
{
    if a.len() == 0 {
        assert(a + b =~= b);
        assert(methods_expansion(a, sa, d) + methods_expansion(b, sa, d) =~= methods_expansion(
            b,
            sa,
            d,
        ));
    } else {
        lemma_methods_expansion_append(a.skip(1), b, sa, d);
        assert((a + b).skip(1) =~= a.skip(1) + b);
        assert(methods_expansion(a + b, sa, d) =~= methods_expansion(a, sa, d)
            + methods_expansion(b, sa, d));
    }
}

/// Method expansion on one more declaration.
pub proof fn lemma_methods_expansion_step(
    ms: Seq<DelegatedMethodM>,
    sa: crate::attributes::SegmentAttributesM,
    d: DelegatorM,
    k: int,
)
    requires
        0 <= k < ms.len(),
    ensures
        methods_expansion(ms.take(k + 1), sa, d) == methods_expansion(ms.take(k), sa, d)
            + spec_expand_method(
            ms[k],
            crate::attributes::spec_combine(
                crate::attributes::resolve_method_attrs(ms[k].attributes),
                sa,
            ),
            d,
            turbofish_of(ms[k].sig.generics),
        ),
{
    reveal_with_fuel(methods_expansion, 3);
    assert(ms.take(k + 1) =~= ms.take(k) + seq![ms[k]]);
    lemma_methods_expansion_append(ms.take(k), seq![ms[k]], sa, d);
    assert(seq![ms[k]].skip(1) =~= Seq::<DelegatedMethodM>::empty());
    assert(methods_expansion(seq![ms[k]], sa, d) =~= spec_expand_method(
        ms[k],
        crate::attributes::spec_combine(
            crate::attributes::resolve_method_attrs(ms[k].attributes),
            sa,
        ),
        d,
        turbofish_of(ms[k].sig.generics),
    ));
}

/// The expansion of a run of segments, concatenated in order.
pub open spec fn segments_expansion(ss: Seq<crate::parser::DelegatedSegmentM>) -> Seq<TokM>
    decreases ss.len(),
{
    if ss.len() == 0 {
        Seq::empty()
    } else {
        methods_expansion(ss[0].methods, ss[0].segment_attrs, ss[0].delegator)
            + segments_expansion(ss.skip(1))
    }
}

/// Segment expansion distributes over concatenation.
pub proof fn lemma_segments_expansion_append(
    a: Seq<crate::parser::DelegatedSegmentM>,
    b: Seq<crate::parser::DelegatedSegmentM>,
)
    ensures
        segments_expansion(a + b) == segments_expansion(a) + segments_expansion(b),
    decreases a.len(),
{
    if a.len() == 0 {
        assert(a + b =~= b);
        assert(segments_expansion(a) + segments_expansion(b) =~= segments_expansion(b));
    } else {
        lemma_segments_expansion_append(a.skip(1), b);
        assert((a + b).skip(1) =~= a.skip(1) + b);
        assert(segments_expansion(a + b) =~= segments_expansion(a) + segments_expansion(b));
    }
}

/// Segment expansion on one more segment.
pub proof fn lemma_segments_expansion_step(ss: Seq<crate::parser::DelegatedSegmentM>, k: int)
    requires
        0 <= k < ss.len(),
    ensures
        segments_expansion(ss.take(k + 1)) == segments_expansion(ss.take(k)) + methods_expansion(
            ss[k].methods,
            ss[k].segment_attrs,
            ss[k].delegator,
        ),
{
    reveal_with_fuel(segments_expansion, 3);
    assert(ss.take(k + 1) =~= ss.take(k) + seq![ss[k]]);
    lemma_segments_expansion_append(ss.take(k), seq![ss[k]]);
    assert(seq![ss[k]].skip(1) =~= Seq::<crate::parser::DelegatedSegmentM>::empty());
    assert(segments_expansion(seq![ss[k]]) =~= methods_expansion(
        ss[k].methods,
        ss[k].segment_attrs,
        ss[k].delegator,
    ));
}

/// The expansion of a whole parsed block: every method of every
/// segment, in declaration order.
pub open spec fn spec_expand_block(b: crate::parser::DelegationBlockM) -> Seq<TokM> {
    segments_expansion(b.segments)
}

/// Whether every method declaration in the block resolves its
/// annotations without failure.
pub open spec fn all_methods_ok(b: crate::parser::DelegationBlockM) -> bool {
    forall|i: int, j: int|
        0 <= i < b.segments.len() && 0 <= j < b.segments[i].methods.len()
            ==> #[trigger] crate::attributes::method_parse_ok(
            b.segments[i].methods[j].attributes,
        )
}

/// Expand a parsed block: resolve and merge each method's
/// annotations, synthesize each forwarding method, and concatenate
/// the definitions in declaration order.  The first failing method
/// aborts the whole expansion.
#[verifier::loop_isolation(false)]
pub fn expand_block(block: &crate::parser::DelegationBlock) -> (r: Result<
    Vec<Tok>,
    crate::errors::DelegationError,
>)
    ensures
        r is Ok <==> all_methods_ok(block@),
        r matches Ok(out) ==> toks_view(out@) == spec_expand_block(block@),
        block@.segments.len() == 0 ==> (r matches Ok(out) && out@.len() == 0),
{
    let ghost bm = block@;
    let mut out: Vec<Tok> = Vec::new();
    let mut si: usize = 0;
    proof {
        assert(toks_view(out@) =~= segments_expansion(bm.segments.take(0)));
    }
    while si < block.segments.len()
        invariant
            si <= block.segments@.len(),
            toks_view(out@) == segments_expansion(bm.segments.take(si as int)),
            forall|i: int, j: int|
                0 <= i < si && 0 <= j < bm.segments[i].methods.len()
                    ==> #[trigger] crate::attributes::method_parse_ok(
                    bm.segments[i].methods[j].attributes,
                ),
        decreases block.segments@.len() - si,
    {
        let seg = &block.segments[si];
        let ghost sgm = bm.segments[si as int];
        proof {
            assert(sgm == block.segments@[si as int]@);
        }
        let mut mj: usize = 0;
        proof {
            assert(toks_view(out@) =~= segments_expansion(bm.segments.take(si as int))
                + methods_expansion(sgm.methods.take(0), sgm.segment_attrs, sgm.delegator));
        }
        while mj < seg.methods.len()
            invariant
                mj <= seg.methods@.len(),
                toks_view(out@) == segments_expansion(bm.segments.take(si as int))
                    + methods_expansion(
                    sgm.methods.take(mj as int),
                    sgm.segment_attrs,
                    sgm.delegator,
                ),
                forall|j: int|
                    0 <= j < mj ==> #[trigger] crate::attributes::method_parse_ok(
                        sgm.methods[j].attributes,
                    ),
            decreases seg.methods@.len() - mj,
        {
            let method = &seg.methods[mj];
            proof {
                assert(sgm.methods[mj as int] == seg.methods@[mj as int]@);
            }
            let ma = match crate::attributes::parse_method_attributes(
                &method.attributes,
                &method.sig.name,
            ) {
                Ok(ma) => ma,
                Err(e) => {
                    proof {
                        assert(!crate::attributes::method_parse_ok(
                            sgm.methods[mj as int].attributes,
                        ));
                    }
                    return Err(e);
                },
            };
            let combined = crate::attributes::combine_attributes(ma, &seg.segment_attrs);
            let mut toks = expand_method(method, &combined, &seg.delegator);
            proof {
                lemma_methods_expansion_step(sgm.methods, sgm.segment_attrs, sgm.delegator, mj as int);
                assert(combined@ == crate::attributes::spec_combine(
                    crate::attributes::resolve_method_attrs(sgm.methods[mj as int].attributes),
                    sgm.segment_attrs,
                ));
                assert(toks_view(toks@) == spec_expand_method(
                    sgm.methods[mj as int],
                    crate::attributes::spec_combine(
                        crate::attributes::resolve_method_attrs(
                            sgm.methods[mj as int].attributes,
                        ),
                        sgm.segment_attrs,
                    ),
                    sgm.delegator,
                    turbofish_of(sgm.methods[mj as int].sig.generics),
                ));
            }
            let ghost out0 = out@;
            let ghost tv = toks_view(toks@);
            out.append(&mut toks);
            proof {
                assert(toks_view(out@) =~= toks_view(out0) + tv) by {
                    assert forall|j: int|
                        0 <= j < toks_view(out@).len() implies toks_view(out@)[j] == (toks_view(
                        out0,
                    ) + tv)[j] by {
                        if j < out0.len() {
                            assert(out@[j] == out0[j]);
                        } else {
                            assert(toks_view(out@)[j] == tv[j - out0.len()]);
                        }
                    }
                }
                assert(toks_view(out@) =~= segments_expansion(bm.segments.take(si as int))
                    + methods_expansion(
                    sgm.methods.take(mj + 1),
                    sgm.segment_attrs,
                    sgm.delegator,
                ));
            }
            mj += 1;
        }
        proof {
            assert(sgm.methods.take(sgm.methods.len() as int) =~= sgm.methods);
            lemma_segments_expansion_step(bm.segments, si as int);
            assert(toks_view(out@) =~= segments_expansion(bm.segments.take(si + 1)));
        }
        si += 1;
    }
    proof {
        assert(bm.segments.take(bm.segments.len() as int) =~= bm.segments);
    }
    Ok(out)
}

} // verus!
