use std::str::FromStr;

use delegate::tokens::{Delim, Tok};

fn conv(t: proc_macro2::TokenTree) -> Tok {
    match t {
        proc_macro2::TokenTree::Ident(i) => Tok::Ident(i.to_string()),
        proc_macro2::TokenTree::Punct(p) => Tok::Punct(p.as_char()),
        proc_macro2::TokenTree::Literal(l) => Tok::Lit(l.to_string()),
        proc_macro2::TokenTree::Group(g) => {
            let d = match g.delimiter() {
                proc_macro2::Delimiter::Parenthesis => Delim::Paren,
                proc_macro2::Delimiter::Bracket => Delim::Bracket,
                proc_macro2::Delimiter::Brace => Delim::Brace,
                proc_macro2::Delimiter::None => Delim::Paren,
            };
            Tok::Group(d, g.stream().into_iter().map(conv).collect())
        }
    }
}

fn lex(src: &str) -> Vec<Tok> {
    proc_macro2::TokenStream::from_str(src)
        .expect("lexing failed")
        .into_iter()
        .map(conv)
        .collect()
}

fn expand(src: &str) -> Vec<Tok> {
    delegate::delegate(&lex(src)).expect("expansion failed")
}

#[test]
fn test_generic_returntype() {
    let out = expand("to self.inner { pub(crate) fn method(&self) -> T; }");
    let expected = lex("#[inline] pub(crate) fn method(&self) -> T { self.inner.method() }");
    assert_eq!(out, expected);
}

#[test]
fn test_into() {
    let out = expand(
        "to self.inner {
            pub(crate) fn method(&self, num: u32);

            #[into]
            #[call(method)]
            pub(crate) fn method_conv(&self, num: u32) -> u64;
        }",
    );
    let expected = lex(
        "#[inline] pub(crate) fn method(&self, num: u32) { self.inner.method(num); }
         #[inline] pub(crate) fn method_conv(&self, num: u32) -> u64 { ::core::convert::Into::into(self.inner.method(num)) }",
    );
    assert_eq!(out, expected);
}

#[test]
fn test_try_into() {
    let out = expand(
        "to self.inner {
            #[try_into]
            fn method(&self) -> Result<B, u32>;
        }",
    );
    let expected = lex(
        "#[inline] fn method(&self) -> Result<B, u32> { ::core::convert::TryInto::try_into(self.inner.method()) }",
    );
    assert_eq!(out, expected);
}

#[test]
fn test_try_into_unwrap() {
    let out = expand(
        "to self.inner {
            #[try_into]
            #[unwrap]
            fn method(&self) -> B;
        }",
    );
    let expected = lex(
        "#[inline] fn method(&self) -> B { ::core::convert::TryInto::try_into(self.inner.method()).unwrap() }",
    );
    assert_eq!(out, expected);
}

#[test]
fn test_unwrap_result() {
    let out = expand(
        "to self.inner {
            #[unwrap]
            fn method(&self) -> u32;
        }",
    );
    let expected = lex("#[inline] fn method(&self) -> u32 { self.inner.method().unwrap() }");
    assert_eq!(out, expected);
}

#[test]
fn test_unwrap_option() {
    let out = expand(
        "to self.inner {
            #[unwrap]
            fn method(&self) -> u32;
        }",
    );
    let expected = lex("#[inline] fn method(&self) -> u32 { self.inner.method().unwrap() }");
    assert_eq!(out, expected);
}

#[test]
fn test_unwrap_no_return() {
    let out = expand(
        "to self.inner {
            #[unwrap]
            fn method(&self);
        }",
    );
    let expected = lex("#[inline] fn method(&self) { self.inner.method().unwrap(); }");
    assert_eq!(out, expected);
}

#[test]
fn test_unwrap_into() {
    let out = expand(
        "to self.inner {
            #[unwrap]
            #[into]
            fn method(&self) -> A;
        }",
    );
    let expected = lex(
        "#[inline] fn method(&self) -> A { ::core::convert::Into::into(self.inner.method().unwrap()) }",
    );
    assert_eq!(out, expected);
}

#[test]
fn test_into_unwrap() {
    let out = expand(
        "to self.inner {
            #[into(Result<u32, ()>)]
            #[unwrap]
            fn method(&self) -> u32;
        }",
    );
    let expected = lex(
        "#[inline] fn method(&self) -> u32 { ::core::convert::Into::<Result<u32, ()>>::into(self.inner.method()).unwrap() }",
    );
    assert_eq!(out, expected);
}

#[test]
fn test_segment_unwrap() {
    let out = expand(
        "#[unwrap]
        to self.inner {
            fn foo(&self, a: u32) -> u32;
            fn bar(&self, a: u32) -> u32;
        }",
    );
    let expected = lex(
        "#[inline] fn foo(&self, a: u32) -> u32 { self.inner.foo(a).unwrap() }
         #[inline] fn bar(&self, a: u32) -> u32 { self.inner.bar(a).unwrap() }",
    );
    assert_eq!(out, expected);
}

#[test]
fn test_segment_try_into() {
    let out = expand(
        "#[try_into]
        to self.inner {
            fn method(&self) -> Result<B, u32>;
        }",
    );
    let expected = lex(
        "#[inline] fn method(&self) -> Result<B, u32> { ::core::convert::TryInto::try_into(self.inner.method()) }",
    );
    assert_eq!(out, expected);
}

#[test]
fn test_segment_into() {
    let out = expand(
        "#[into(Result<u32, ()>)]
        to self.inner {
            #[unwrap]
            fn method(&self) -> u32;

            #[into]
            #[call(method)]
            fn method2(&self) -> u64;
        }",
    );
    let expected = lex(
        "#[inline] fn method(&self) -> u32 { ::core::convert::Into::<Result<u32, ()>>::into(self.inner.method()).unwrap() }
         #[inline] fn method2(&self) -> u64 { ::core::convert::Into::into(self.inner.method()) }",
    );
    assert_eq!(out, expected);
}

#[test]
fn test_segment_await() {
    let out = expand(
        "#[await(false)]
        to self.0.lock().await {
            async fn foo(&self);
            #[await(true)]
            async fn bar(&self) -> u32;
        }",
    );
    let expected = lex(
        "#[inline] async fn foo(&self) { self.0.lock().await.foo(); }
         #[inline] async fn bar(&self) -> u32 { self.0.lock().await.bar().await }",
    );
    assert_eq!(out, expected);
}

#[test]
fn test_segment_through_trait() {
    let out = expand(
        "#[through(A)]
        to &self.0 {
            fn f(&self) -> u32;
            #[call(f)]
            #[through(B)]
            fn f2(&self) -> u32;
        }",
    );
    let expected = lex(
        "#[inline] fn f(&self) -> u32 { A::f(&self.0) }
         #[inline] fn f2(&self) -> u32 { B::f(&self.0) }",
    );
    assert_eq!(out, expected);
}

#[test]
fn test_segment_inline() {
    let out = expand(
        "#[inline(always)]
        to self.0 {
            fn f(&self) -> u32;
        }",
    );
    let expected = lex("#[inline(always)] fn f(&self) -> u32 { self.0.f() }");
    assert_eq!(out, expected);
}
