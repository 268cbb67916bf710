use std::str::FromStr;

use delegate::attributes::{
    combine_attributes, parse_method_attributes, parse_segment_attributes, Attr, AttrArgs,
    ReturnExpression,
};
use delegate::errors::DelegationError;
use delegate::template::TemplateExpr;
use delegate::tokens::{Delim, Tok};

fn conv(t: proc_macro2::TokenTree) -> Tok {
    match t {
        proc_macro2::TokenTree::Ident(i) => Tok::Ident(i.to_string()),
        proc_macro2::TokenTree::Punct(p) => Tok::Punct(p.as_char()),
        proc_macro2::TokenTree::Literal(l) => Tok::Lit(l.to_string()),
        proc_macro2::TokenTree::Group(g) => {
            let d = match g.delimiter() {
                proc_macro2::Delimiter::Parenthesis => Delim::Paren,
                proc_macro2::Delimiter::Bracket => Delim::Bracket,
                proc_macro2::Delimiter::Brace => Delim::Brace,
                proc_macro2::Delimiter::None => Delim::Paren,
            };
            Tok::Group(d, g.stream().into_iter().map(conv).collect())
        }
    }
}

fn lex(src: &str) -> Vec<Tok> {
    proc_macro2::TokenStream::from_str(src)
        .expect("lexing failed")
        .into_iter()
        .map(conv)
        .collect()
}

fn expand(src: &str) -> Vec<Tok> {
    delegate::delegate(&lex(src)).expect("expansion failed")
}

fn expand_err(src: &str) -> DelegationError {
    delegate::delegate(&lex(src)).expect_err("expansion unexpectedly succeeded")
}

fn bare_attr(name: &str) -> Attr {
    Attr { path: vec![Tok::Ident(name.to_string())], args: AttrArgs::Empty }
}

fn paren_attr(name: &str, args: &str) -> Attr {
    Attr {
        path: vec![Tok::Ident(name.to_string())],
        args: AttrArgs::Delimited(Delim::Paren, lex(args)),
    }
}

#[test]
fn empty_block_expands_to_nothing() {
    assert_eq!(expand(""), Vec::<Tok>::new());
}

#[test]
fn into_converts_to_declared_type() {
    let out = expand("to self.inner { #[into] pub fn method(&self, num: u32) -> u64; }");
    let expected = lex(
        "#[inline] pub fn method(&self, num: u32) -> u64 { ::core::convert::Into::into(self.inner.method(num)) }",
    );
    assert_eq!(out, expected);
}

#[test]
fn argument_modifier_into() {
    let out = expand("to self.0 { fn bar(&self, #[into] x: Self); }");
    let expected = lex("#[inline] fn bar(&self, x: Self) { self.0.bar(x.into()); }");
    assert_eq!(out, expected);
}

#[test]
fn argument_modifier_as_ref() {
    let out = expand("to self.foo { fn eq(&self, #[as_ref] other: &T) -> bool; }");
    let expected = lex("#[inline] fn eq(&self, other: &T) -> bool { self.foo.eq(other.as_ref()) }");
    assert_eq!(out, expected);
}

#[test]
fn argument_modifier_newtype() {
    let out = expand("to self.0 { fn push(&mut self, #[newtype] v: Wrapped); }");
    let expected = lex("#[inline] fn push(&mut self, v: Wrapped) { self.0.push(v.0); }");
    assert_eq!(out, expected);
}

#[test]
fn through_combines_with_into() {
    let out = expand("to &self.0 { #[through(A)] #[into] fn f(&self) -> B; }");
    let expected =
        lex("#[inline] fn f(&self) -> B { ::core::convert::Into::into(A::f(&self.0)) }");
    assert_eq!(out, expected);
}

#[test]
fn segment_expr_template_applies_to_each_method() {
    let out = expand("#[expr($.clone())] to self.inner { fn get(&self) -> u8; }");
    let expected = lex("#[inline] fn get(&self) -> u8 { self.inner.get().clone() }");
    assert_eq!(out, expected);
}

#[test]
fn segment_transforms_prepend_one_by_one() {
    let out = expand(
        "#[try_into]
        #[unwrap]
        to self.inner {
            fn method(&self) -> u32;
        }",
    );
    let expected = lex(
        "#[inline] fn method(&self) -> u32 { ::core::convert::TryInto::try_into(self.inner.method().unwrap()) }",
    );
    assert_eq!(out, expected);
}

#[test]
fn path_attribute_passes_through() {
    let out = expand("to self.inner { #[aux::traced] fn method(&self) -> u32; }");
    let expected =
        lex("#[aux::traced] #[inline] fn method(&self) -> u32 { self.inner.method() }");
    assert_eq!(out, expected);
}

#[test]
fn duplicate_await_aborts() {
    let e = expand_err(
        "to self.inner {
            #[await(true)]
            #[await(false)]
            fn method(&self);
        }",
    );
    assert_eq!(e, DelegationError::MultipleAwait("method".to_string()));
    assert_eq!(
        e.message(),
        "Multiple `await` attributes specified for method"
    );
}

#[test]
fn call_with_const_aborts() {
    let e = expand_err(
        "to self.inner {
            #[call(foo)]
            #[const(WithConst::TOTO)]
            fn method(&self) -> u8;
        }",
    );
    assert_eq!(e, DelegationError::CallAndConst);
    assert_eq!(e.message(), "Cannot use both `call` and `const` attributes.");
}

#[test]
fn deprecated_target_keyword_aborts() {
    let e = expand_err("target self.inner { fn method(&self); }");
    assert_eq!(e, DelegationError::DeprecatedTarget);
}

#[test]
fn method_body_aborts() {
    let e = expand_err("to self.inner { fn method(&self) { 1 } }");
    assert_eq!(e, DelegationError::MethodBody("method".to_string()));
}

#[test]
fn non_identifier_parameter_aborts() {
    let e = expand_err("to self.inner { fn method(&self, (a, b): (u32, u32)); }");
    assert_eq!(e, DelegationError::NonIdentParam("method".to_string()));
}

#[test]
fn try_into_unwrap_aborts() {
    let e = expand_err("to self.inner { #[try_into(unwrap)] fn method(&self) -> u32; }");
    assert_eq!(e, DelegationError::TryIntoUnwrap);
}

#[test]
fn into_name_value_aborts() {
    let e = expand_err("to self.inner { #[into = \"u64\"] fn method(&self) -> u64; }");
    assert_eq!(e, DelegationError::IntoNameValue);
}

#[test]
fn await_without_bool_aborts() {
    let e = expand_err("to self.inner { #[await] async fn method(&self); }");
    assert_eq!(e, DelegationError::AwaitSyntax);
}

#[test]
fn multiple_parameter_modifiers_abort() {
    let e = expand_err("to self.0 { fn bar(&self, #[into] #[as_ref] x: Self); }");
    assert_eq!(e, DelegationError::MultipleParamModifiers);
}

#[test]
fn unknown_parameter_modifier_aborts() {
    let e = expand_err("to self.0 { fn bar(&self, #[borrow] x: Self); }");
    assert_eq!(e, DelegationError::UnknownParamModifier);
}

#[test]
fn closure_parameter_without_type_aborts() {
    let e = expand_err("to |k| self.content(k) { fn method(&self, num: u32) -> u32; }");
    assert_eq!(e, DelegationError::ClosureParamPattern);
}

#[test]
fn segment_call_aborts() {
    let e = expand_err("#[call(foo)] to self.inner { fn method(&self); }");
    assert_eq!(e, DelegationError::SegmentCall);
}

#[test]
fn segment_const_aborts() {
    let e = expand_err("#[const(Foo::A)] to self.inner { fn method(&self) -> u32; }");
    assert_eq!(e, DelegationError::SegmentConst);
}

#[test]
fn segment_duplicate_await_aborts() {
    let e = expand_err("#[await(true)] #[await(false)] to self.inner { async fn method(&self); }");
    assert_eq!(e, DelegationError::SegmentMultipleAwait);
}

#[test]
fn duplicate_call_aborts() {
    let e = expand_err("to self.inner { #[call(a)] #[call(b)] fn method(&self); }");
    assert_eq!(e, DelegationError::MultipleCall("method".to_string()));
}

#[test]
fn duplicate_through_aborts() {
    let e = expand_err("to self.inner { #[through(A)] #[through(B)] fn method(&self); }");
    assert_eq!(e, DelegationError::MultipleThrough("method".to_string()));
}

#[test]
fn duplicate_const_aborts() {
    let e = expand_err("to self.inner { #[const(A::B)] #[const(A::C)] fn method(&self) -> u32; }");
    assert_eq!(e, DelegationError::MultipleConst("method".to_string()));
}

#[test]
fn duplicate_expr_aborts() {
    let e = expand_err("to self.inner { #[expr($)] #[expr($)] fn method(&self) -> u32; }");
    assert_eq!(e, DelegationError::MultipleExpr("method".to_string()));
}

#[test]
fn const_path_with_leading_colons() {
    let out = expand("to &self.0 { #[const(::aux::Foo::A)] fn a(&self) -> u32; }");
    let expected = lex(
        "#[inline] fn a(&self) -> u32 { { const fn get_const<T: ::aux::Foo>(t: &T) -> u32 { <T as ::aux::Foo>::A } get_const(&self.0) } }",
    );
    assert_eq!(out, expected);
}

#[test]
fn const_single_segment_aborts() {
    let e = expand_err("to self.inner { #[const(TOTO)] fn method(&self) -> u8; }");
    assert_eq!(e, DelegationError::ConstNotMultipart);
}

#[test]
fn call_without_identifier_aborts() {
    let e = expand_err("to self.inner { #[call(1 + 2)] fn method(&self); }");
    assert_eq!(e, DelegationError::CallSyntax);
}

#[test]
fn into_with_empty_parens_aborts() {
    let e = expand_err("to self.inner { #[into()] fn method(&self) -> u64; }");
    assert_eq!(e, DelegationError::IntoSyntax);
}

#[test]
fn through_with_empty_parens_aborts() {
    let e = expand_err("to self.inner { #[through()] fn method(&self); }");
    assert_eq!(e, DelegationError::ThroughSyntax);
}

#[test]
fn const_with_non_path_aborts() {
    let e = expand_err("to self.inner { #[const(1 + 2)] fn method(&self) -> u8; }");
    assert_eq!(e, DelegationError::ConstSyntax);
}

#[test]
fn expr_without_template_aborts() {
    let e = expand_err("to self.inner { #[expr] fn method(&self) -> u8; }");
    assert_eq!(e, DelegationError::ExprSyntax);
}

#[test]
fn segment_without_method_block_aborts() {
    let e = expand_err("to self.inner");
    assert_eq!(e, DelegationError::Malformed);
}

#[test]
fn method_attribute_parse_resolves_fields() {
    let attrs = vec![paren_attr("call", "foo"), bare_attr("unwrap"), bare_attr("into")];
    let name = "method".to_string();
    let ma = parse_method_attributes(&attrs, &name).expect("parse failed");
    assert_eq!(ma.target_method, Some("foo".to_string()));
    assert_eq!(
        ma.expressions,
        vec![ReturnExpression::Unwrap, ReturnExpression::Into(None)]
    );
    assert_eq!(ma.generate_await, None);
    assert!(ma.attributes.is_empty());
    assert!(ma.target_trait.is_none());
    assert!(ma.associated_constant.is_none());
    assert!(ma.expr_attr.is_none());
}

#[test]
fn segment_attribute_parse_keeps_passthrough() {
    let attrs = vec![paren_attr("await", "false"), paren_attr("allow", "unused")];
    let sa = parse_segment_attributes(&attrs).expect("parse failed");
    assert_eq!(sa.generate_await, Some(false));
    assert_eq!(sa.other_attrs, vec![paren_attr("allow", "unused")]);
}

#[test]
fn combine_prefers_method_await() {
    let m_attrs = vec![paren_attr("await", "true")];
    let s_attrs = vec![paren_attr("await", "false")];
    let name = "m".to_string();
    let ma = parse_method_attributes(&m_attrs, &name).unwrap();
    let sa = parse_segment_attributes(&s_attrs).unwrap();
    let combined = combine_attributes(ma, &sa);
    assert_eq!(combined.generate_await, Some(true));
}

#[test]
fn combine_takes_segment_await_as_default() {
    let m_attrs: Vec<Attr> = vec![];
    let s_attrs = vec![paren_attr("await", "false")];
    let name = "m".to_string();
    let ma = parse_method_attributes(&m_attrs, &name).unwrap();
    let sa = parse_segment_attributes(&s_attrs).unwrap();
    let combined = combine_attributes(ma, &sa);
    assert_eq!(combined.generate_await, Some(false));
}

#[test]
fn combine_deduplicates_into() {
    let m_attrs = vec![bare_attr("into")];
    let s_attrs = vec![paren_attr("into", "u64")];
    let name = "m".to_string();
    let ma = parse_method_attributes(&m_attrs, &name).unwrap();
    let sa = parse_segment_attributes(&s_attrs).unwrap();
    let combined = combine_attributes(ma, &sa);
    assert_eq!(combined.expressions, vec![ReturnExpression::Into(None)]);
}

#[test]
fn combine_prepends_segment_transforms() {
    let m_attrs = vec![bare_attr("unwrap")];
    let s_attrs = vec![bare_attr("try_into")];
    let name = "m".to_string();
    let ma = parse_method_attributes(&m_attrs, &name).unwrap();
    let sa = parse_segment_attributes(&s_attrs).unwrap();
    let combined = combine_attributes(ma, &sa);
    assert_eq!(
        combined.expressions,
        vec![ReturnExpression::TryInto, ReturnExpression::Unwrap]
    );
}

#[test]
fn template_substitutes_every_placeholder() {
    let template = TemplateExpr::parse(&lex("a $ (b $)"));
    let out = template.expand_template(&lex("x + 1"));
    assert_eq!(out, lex("a x + 1 (b x + 1)"));
}

#[test]
fn template_without_placeholder_is_verbatim() {
    let template = TemplateExpr::parse(&lex("Some(\"test\")"));
    let out = template.expand_template(&lex("dropped()"));
    assert_eq!(out, lex("Some(\"test\")"));
}
