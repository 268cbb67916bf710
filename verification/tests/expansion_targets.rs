use std::str::FromStr;

use delegate::tokens::{Delim, Tok};

fn conv(t: proc_macro2::TokenTree) -> Tok {
    match t {
        proc_macro2::TokenTree::Ident(i) => Tok::Ident(i.to_string()),
        proc_macro2::TokenTree::Punct(p) => Tok::Punct(p.as_char()),
        proc_macro2::TokenTree::Literal(l) => Tok::Lit(l.to_string()),
        proc_macro2::TokenTree::Group(g) => {
            let d = match g.delimiter() {
                proc_macro2::Delimiter::Parenthesis => Delim::Paren,
                proc_macro2::Delimiter::Bracket => Delim::Bracket,
                proc_macro2::Delimiter::Brace => Delim::Brace,
                proc_macro2::Delimiter::None => Delim::Paren,
            };
            Tok::Group(d, g.stream().into_iter().map(conv).collect())
        }
    }
}

fn lex(src: &str) -> Vec<Tok> {
    proc_macro2::TokenStream::from_str(src)
        .expect("lexing failed")
        .into_iter()
        .map(conv)
        .collect()
}

fn expand(src: &str) -> Vec<Tok> {
    delegate::delegate(&lex(src)).expect("expansion failed")
}

#[test]
fn test_delegate_enum_method() {
    let out = expand(
        "to match self {
            Enum::A(a) => a,
            Enum::B(b) => { println!(\"i am b\"); b },
            Enum::C { v: c } => { c },
        } {
            fn dbg_inner(&self) -> usize;
        }",
    );
    let expected = lex(
        "#[inline] fn dbg_inner(&self) -> usize {
            match self {
                Enum::A(a) => a.dbg_inner(),
                Enum::B(b) => { println!(\"i am b\"); b }.dbg_inner(),
                Enum::C { v: c } => { c }.dbg_inner(),
            }
        }",
    );
    assert_eq!(out, expected);
}

#[test]
fn test_delegate_enum_into() {
    let out = expand(
        "to match self {
            Enum::A(a) => a,
            Enum::B(b) => { println!(\"i am b\"); b },
            Enum::C { v: c } => { c },
        } {
            #[into]
            fn into_num(&self) -> IntoUsize;
        }",
    );
    let expected = lex(
        "#[inline] fn into_num(&self) -> IntoUsize {
            match self {
                Enum::A(a) => ::core::convert::Into::into(a.into_num()),
                Enum::B(b) => ::core::convert::Into::into({ println!(\"i am b\"); b }.into_num()),
                Enum::C { v: c } => ::core::convert::Into::into({ c }.into_num()),
            }
        }",
    );
    assert_eq!(out, expected);
}

#[test]
fn test_delegate_constant() {
    let out = expand(
        "to match self {
            Self::A(a) => a,
            Self::B(b) => b,
            Self::C(c) => { println!(\"hello from c\"); c },
        } {
            #[const(WithConst::TOTO)]
            fn get_toto(&self) -> u8;
        }",
    );
    let expected = lex(
        "#[inline] fn get_toto(&self) -> u8 {
            match self {
                Self::A(a) => { const fn get_const<T: WithConst>(t: &T) -> u8 { <T as WithConst>::TOTO } get_const(a) },
                Self::B(b) => { const fn get_const<T: WithConst>(t: &T) -> u8 { <T as WithConst>::TOTO } get_const(b) },
                Self::C(c) => { const fn get_const<T: WithConst>(t: &T) -> u8 { <T as WithConst>::TOTO } get_const({ println!(\"hello from c\"); c }) },
            }
        }",
    );
    assert_eq!(out, expected);
}

#[test]
fn multiple_consts() {
    let out = expand(
        "to &self.0 {
            #[const(Foo::A)]
            fn a(&self) -> u32;

            #[const(Foo::B)]
            fn b(&self) -> u32;
        }",
    );
    let expected = lex(
        "#[inline] fn a(&self) -> u32 { { const fn get_const<T: Foo>(t: &T) -> u32 { <T as Foo>::A } get_const(&self.0) } }
         #[inline] fn b(&self) -> u32 { { const fn get_const<T: Foo>(t: &T) -> u32 { <T as Foo>::B } get_const(&self.0) } }",
    );
    assert_eq!(out, expected);
}

#[test]
fn test_delegate_closure() {
    let out = expand(
        "to |k: u32| self.content(k) {
            pub fn method(&self, num: u32) -> u32;
            pub fn method2(&self, num: u32) -> u32;
        }",
    );
    let expected = lex(
        "#[inline] pub fn method(&self, k: u32, num: u32) -> u32 { self.content(k).method(num) }
         #[inline] pub fn method2(&self, k: u32, num: u32) -> u32 { self.content(k).method2(num) }",
    );
    assert_eq!(out, expected);
}

#[test]
fn test_delegate_closure_associated_function() {
    let out = expand(
        "to |k: u32| Inner {
            pub fn method(num: u32) -> u32;
            pub fn method2(num: u32) -> u32;
        }",
    );
    let expected = lex(
        "#[inline] pub fn method(k: u32, num: u32) -> u32 { Inner::method(num) }
         #[inline] pub fn method2(k: u32, num: u32) -> u32 { Inner::method2(num) }",
    );
    assert_eq!(out, expected);
}

#[test]
fn test_async_await() {
    let out = expand(
        "to self.inner {
            pub(crate) async fn method(&self, num: u32) -> u32;

            #[call(method)]
            pub(crate) async fn unit(&self, num: u32);

            #[into]
            #[call(method)]
            pub(crate) async fn with_into(&self, num: u32) -> u64;
        }",
    );
    let expected = lex(
        "#[inline] pub(crate) async fn method(&self, num: u32) -> u32 { self.inner.method(num).await }
         #[inline] pub(crate) async fn unit(&self, num: u32) { self.inner.method(num).await; }
         #[inline] pub(crate) async fn with_into(&self, num: u32) -> u64 { ::core::convert::Into::into(self.inner.method(num).await) }",
    );
    assert_eq!(out, expected);
}

#[test]
fn test_async_trait() {
    let out = expand(
        "to self.inner {
            pub(crate) async fn method(&self, num: u32) -> u32;

            #[call(method)]
            pub(crate) async fn unit(&self, num: u32);

            #[into]
            #[call(method)]
            pub(crate) async fn with_into(&self, num: u32) -> u64;
        }",
    );
    let expected = lex(
        "#[inline] pub(crate) async fn method(&self, num: u32) -> u32 { self.inner.method(num).await }
         #[inline] pub(crate) async fn unit(&self, num: u32) { self.inner.method(num).await; }
         #[inline] pub(crate) async fn with_into(&self, num: u32) -> u64 { ::core::convert::Into::into(self.inner.method(num).await) }",
    );
    assert_eq!(out, expected);
}

#[test]
fn test_bridge_async_to_sync() {
    let out = expand(
        "to self.0.lock().await {
            #[await(false)]
            async fn foo(&self);
        }",
    );
    let expected = lex("#[inline] async fn foo(&self) { self.0.lock().await.foo(); }");
    assert_eq!(out, expected);
}

#[test]
fn test_bridge_sync_to_async() {
    let out = expand(
        "to self.0 {
            #[await(true)]
            async fn foo(&self) -> u32;
        }",
    );
    let expected = lex("#[inline] async fn foo(&self) -> u32 { self.0.foo().await }");
    assert_eq!(out, expected);
}

#[test]
fn test_generics_method() {
    let out = expand(
        "to &self.0 {
            fn foo<'a, P, X>(&self);
        }",
    );
    let expected = lex("#[inline] fn foo<'a, P, X>(&self) { &self.0.foo::<P, X>(); }");
    assert_eq!(out, expected);
}

#[test]
fn test_generics_function() {
    let out = expand(
        "to Foo {
            fn foo<P, X>();
        }",
    );
    let expected = lex("#[inline] fn foo<P, X>() { Foo::foo::<P, X>(); }");
    assert_eq!(out, expected);
}

#[test]
fn test_generics_through_trait() {
    let out = expand(
        "to &self.0 {
            #[through(A)]
            fn f<P>(&self) -> u32;
        }",
    );
    let expected = lex("#[inline] fn f<P>(&self) -> u32 { A::f::<P>(&self.0) }");
    assert_eq!(out, expected);
}

#[test]
fn test_generics_complex() {
    let out = expand(
        "to &self.0 {
            fn foo<'a: 'static, X: Copy, #[allow(unused)] T>(&self);
        }",
    );
    let expected = lex(
        "#[inline] fn foo<'a: 'static, X: Copy, #[allow(unused)] T>(&self) { &self.0.foo::<X, T>(); }",
    );
    assert_eq!(out, expected);
}

#[test]
fn test_lifetime_late_bound() {
    let out = expand(
        "to self {
            #[through(HashSet)]
            fn iter<'a>(&'a self) -> impl Iterator<Item = &T>
            where
                Self: Sized, T: 'a;
        }",
    );
    let expected = lex(
        "#[inline] fn iter<'a>(&'a self) -> impl Iterator<Item = &T> where Self: Sized, T: 'a { HashSet::iter(self) }",
    );
    assert_eq!(out, expected);
}

#[test]
fn test_call_through_trait() {
    let out = expand(
        "to &self.0 {
            #[through(A)]
            fn f(&self) -> u32;
            #[call(f)]
            #[through(B)]
            fn f2(&self) -> u32;
        }",
    );
    let expected = lex(
        "#[inline] fn f(&self) -> u32 { A::f(&self.0) }
         #[inline] fn f2(&self) -> u32 { B::f(&self.0) }",
    );
    assert_eq!(out, expected);
}

#[test]
fn delegate_with_custom_expr() {
    let out = expand(
        "to self.0 {
            #[expr(*$.unwrap())]
            fn get(&self, idx: usize) -> u8;

            #[call(get)]
            #[expr($?.checked_pow(2))]
            fn get_checked_pow_2(&self, idx: usize) -> Option<u8>;
        }",
    );
    let expected = lex(
        "#[inline] fn get(&self, idx: usize) -> u8 { *self.0.get(idx).unwrap() }
         #[inline] fn get_checked_pow_2(&self, idx: usize) -> Option<u8> { self.0.get(idx)?.checked_pow(2) }",
    );
    assert_eq!(out, expected);
}

#[test]
fn delegate_without_placeholder() {
    let out = expand(
        "to self.0 {
            #[expr(Some(\"test\"))]
            fn get_name(&self) -> Option<&'static str>;
        }",
    );
    let expected = lex("#[inline] fn get_name(&self) -> Option<&'static str> { Some(\"test\") }");
    assert_eq!(out, expected);
}
