use std::str::FromStr;

use delegate::tokens::{Delim, Tok};

fn conv(t: proc_macro2::TokenTree) -> Tok {
    match t {
        proc_macro2::TokenTree::Ident(i) => Tok::Ident(i.to_string()),
        proc_macro2::TokenTree::Punct(p) => Tok::Punct(p.as_char()),
        proc_macro2::TokenTree::Literal(l) => Tok::Lit(l.to_string()),
        proc_macro2::TokenTree::Group(g) => {
            let d = match g.delimiter() {
                proc_macro2::Delimiter::Parenthesis => Delim::Paren,
                proc_macro2::Delimiter::Bracket => Delim::Bracket,
                proc_macro2::Delimiter::Brace => Delim::Brace,
                proc_macro2::Delimiter::None => Delim::Paren,
            };
            Tok::Group(d, g.stream().into_iter().map(conv).collect())
        }
    }
}

fn lex(src: &str) -> Vec<Tok> {
    proc_macro2::TokenStream::from_str(src)
        .expect("lexing failed")
        .into_iter()
        .map(conv)
        .collect()
}

fn expand(src: &str) -> Vec<Tok> {
    delegate::delegate(&lex(src)).expect("expansion failed")
}

#[test]
fn test_delegation() {
    let out = expand(
        "to self.inner {
            fn fun_generic<S: Copy>(self, s: S) -> S;
            fn fun1(self, a: u32, b: u32) -> u32;
            fn fun2(mut self, a: u32, b: u32) -> u32;
            fn fun3(&self, a: u32, b: u32) -> u32;
        }
        to self.inner2 {
            fn fun4(&mut self, a: u32, b: u32) -> u32;
            fn fun5(self: Self, a: u32, b: u32) -> u32;
            fn fun6(mut self: Self, a: u32, b: u32) -> u32;
        }",
    );
    let expected = lex(
        "#[inline] fn fun_generic<S: Copy>(self, s: S) -> S { self.inner.fun_generic::<S>(s) }
         #[inline] fn fun1(self, a: u32, b: u32) -> u32 { self.inner.fun1(a, b) }
         #[inline] fn fun2(mut self, a: u32, b: u32) -> u32 { self.inner.fun2(a, b) }
         #[inline] fn fun3(&self, a: u32, b: u32) -> u32 { self.inner.fun3(a, b) }
         #[inline] fn fun4(&mut self, a: u32, b: u32) -> u32 { self.inner2.fun4(a, b) }
         #[inline] fn fun5(self: Self, a: u32, b: u32) -> u32 { self.inner2.fun5(a, b) }
         #[inline] fn fun6(mut self: Self, a: u32, b: u32) -> u32 { self.inner2.fun6(a, b) }",
    );
    assert_eq!(out, expected);
}

#[test]
fn test_delegate_self() {
    let out = expand("to self { fn foo(&self) -> u32; }");
    let expected = lex("#[inline] fn foo(&self) -> u32 { self.foo() }");
    assert_eq!(out, expected);
}

#[test]
fn test_delegate_tuple() {
    let out = expand("to self.0 { fn foo(&self) -> u32; }");
    let expected = lex("#[inline] fn foo(&self) -> u32 { self.0.foo() }");
    assert_eq!(out, expected);
}

#[test]
fn test_stack() {
    let out = expand(
        "to self.inner {
            #[inline(never)]
            #[call(len)]
            pub(crate) fn size(&self) -> usize;

            /// doc comment
            fn is_empty(&self) -> bool;

            #[inline(never)]
            fn push(&mut self, v: T);
            pub fn pop(&mut self) -> Option<T>;

            #[call(last)]
            #[inline(never)]
            fn peek(&self) -> Option<&T>;
            fn clear(&mut self);
            fn into_boxed_slice(self) -> Box<[T]>;
        }",
    );
    let expected = lex(
        "#[inline(never)] pub(crate) fn size(&self) -> usize { self.inner.len() }
         /// doc comment
         #[inline] fn is_empty(&self) -> bool { self.inner.is_empty() }
         #[inline(never)] fn push(&mut self, v: T) { self.inner.push(v); }
         #[inline] pub fn pop(&mut self) -> Option<T> { self.inner.pop() }
         #[inline(never)] fn peek(&self) -> Option<&T> { self.inner.last() }
         #[inline] fn clear(&mut self) { self.inner.clear(); }
         #[inline] fn into_boxed_slice(self) -> Box<[T]> { self.inner.into_boxed_slice() }",
    );
    assert_eq!(out, expected);
}

#[test]
fn test_nested() {
    let out = expand("to self.inner.inner { pub(crate) fn method(&self, num: u32) -> u32; }");
    let expected =
        lex("#[inline] pub(crate) fn method(&self, num: u32) -> u32 { self.inner.inner.method(num) }");
    assert_eq!(out, expected);
}

#[test]
fn test_delegate_function() {
    let out = expand("to A { fn foo(a: u32) -> u32; }");
    let expected = lex("#[inline] fn foo(a: u32) -> u32 { A::foo(a) }");
    assert_eq!(out, expected);
}

#[test]
fn test_mutex() {
    let out = expand(
        "to self.inner.lock().unwrap() {
            pub(crate) fn method(&self, num: u32) -> u32;
        }
        to global_fn() {
            pub(crate) fn method2(&self, num: u32) -> u32;
        }",
    );
    let expected = lex(
        "#[inline] pub(crate) fn method(&self, num: u32) -> u32 { self.inner.lock().unwrap().method(num) }
         #[inline] pub(crate) fn method2(&self, num: u32) -> u32 { global_fn().method2(num) }",
    );
    assert_eq!(out, expected);
}

#[test]
fn test_index() {
    let out = expand("to self.items[self.index] { fn method(&self, num: u32) -> u32; }");
    let expected =
        lex("#[inline] fn method(&self, num: u32) -> u32 { self.items[self.index].method(num) }");
    assert_eq!(out, expected);
}

#[test]
fn test() {
    let out = expand("to self.0 { fn method_to_delegate(&self) -> bool; }");
    let expected = lex("#[inline] fn method_to_delegate(&self) -> bool { self.0.method_to_delegate() }");
    assert_eq!(out, expected);
}

#[test]
fn test_fields() {
    let out = expand(
        "to self.0 {
            /// Expands to `self.0.value`
            #[field]
            fn value(&self) -> u32;

            /// Expands to `self.0.value`
            #[field(value)]
            fn renamed_value(&self) -> u32;

            /// Expands to `&self.0.value`
            #[field(&value)]
            fn renamed_value_ref(&self) -> &u32;

            /// Expands to `&mut self.0.value`
            #[field(&mut value)]
            fn renamed_value_ref_mut(&mut self) -> &mut u32;

            /// Expands to `&self.0.error` (demonstrates `&` without a field name)
            #[field(&)]
            fn error(&self) -> &u32;
        }
        to self.0.xy {
            /// Expands to `self.0.xy.0` (demonstrates unnamed field access by value)
            #[field(0)]
            fn x(&self) -> f32;
            /// Expands to `&self.0.xy.1` (demonstrates unnamed field access by reference)
            #[field(&1)]
            fn y(&self) -> &f32;
        }
        to self.get_inner() {
            /// Expands to `&self.get_inner().value`
            #[field(&value)]
            fn value_ref_via_get_inner(&self) -> &u32;
        }",
    );
    let expected = lex(
        "/// Expands to `self.0.value`
         #[field]
         #[inline] fn value(&self) -> u32 { self.0.value() }
         /// Expands to `self.0.value`
         #[field(value)]
         #[inline] fn renamed_value(&self) -> u32 { self.0.renamed_value() }
         /// Expands to `&self.0.value`
         #[field(&value)]
         #[inline] fn renamed_value_ref(&self) -> &u32 { self.0.renamed_value_ref() }
         /// Expands to `&mut self.0.value`
         #[field(&mut value)]
         #[inline] fn renamed_value_ref_mut(&mut self) -> &mut u32 { self.0.renamed_value_ref_mut() }
         /// Expands to `&self.0.error` (demonstrates `&` without a field name)
         #[field(&)]
         #[inline] fn error(&self) -> &u32 { self.0.error() }
         /// Expands to `self.0.xy.0` (demonstrates unnamed field access by value)
         #[field(0)]
         #[inline] fn x(&self) -> f32 { self.0.xy.x() }
         /// Expands to `&self.0.xy.1` (demonstrates unnamed field access by reference)
         #[field(&1)]
         #[inline] fn y(&self) -> &f32 { self.0.xy.y() }
         /// Expands to `&self.get_inner().value`
         #[field(&value)]
         #[inline] fn value_ref_via_get_inner(&self) -> &u32 { self.get_inner().value_ref_via_get_inner() }",
    );
    assert_eq!(out, expected);
}

#[test]
fn test_append_args() {
    let out = expand(
        "to self.inner {
            #[append_args()]
            fn fun0(self) -> u32;
            #[append_args()]
            fn fun1(self, a: u32) -> u32;
            #[append_args(0)]
            #[call(fun1)]
            fn fun1_with_0(self) -> u32;
            #[append_args(self.value)]
            #[call(fun1)]
            fn fun1_with_def(self) -> u32;
            #[append_args(1, 2)]
            fn fun2(self) -> u32;
            #[append_args(1, 2)]
            fn fun3(self, a: u32) -> u32;
        }",
    );
    let expected = lex(
        "#[append_args()] #[inline] fn fun0(self) -> u32 { self.inner.fun0() }
         #[append_args()] #[inline] fn fun1(self, a: u32) -> u32 { self.inner.fun1(a) }
         #[append_args(0)] #[inline] fn fun1_with_0(self) -> u32 { self.inner.fun1() }
         #[append_args(self.value)] #[inline] fn fun1_with_def(self) -> u32 { self.inner.fun1() }
         #[append_args(1, 2)] #[inline] fn fun2(self) -> u32 { self.inner.fun2() }
         #[append_args(1, 2)] #[inline] fn fun3(self, a: u32) -> u32 { self.inner.fun3(a) }",
    );
    assert_eq!(out, expected);
}

#[test]
fn test_inline_args() {
    let out = expand(
        "to self.inner {
            #[call(fun_generic)]
            fn fun_generic(self, [ 42 ]) -> u32;
            #[call(fun1)]
            fn fun1_with_0(self, [ 0 ]) -> u32;
            #[call(fun1)]
            fn fun1_with_0_no_spaces(self, [0]) -> u32;
            #[call(fun1)]
            fn fun1_with_def(self, [ self.value ] ) -> u32;
            fn fun2(self, [ 0 ], b: u32) -> u32;
        }",
    );
    let expected = lex(
        "#[inline] fn fun_generic(self) -> u32 { self.inner.fun_generic(42) }
         #[inline] fn fun1_with_0(self) -> u32 { self.inner.fun1(0) }
         #[inline] fn fun1_with_0_no_spaces(self) -> u32 { self.inner.fun1(0) }
         #[inline] fn fun1_with_def(self) -> u32 { self.inner.fun1(self.value) }
         #[inline] fn fun2(self, b: u32) -> u32 { self.inner.fun2(0, b) }",
    );
    assert_eq!(out, expected);
}

#[test]
fn test_mixed_args() {
    let out = expand(
        "to self.inner {
            pub fn polynomial(&self, [ self.a ], x: i32, [ self.b ], y: i32, [ self.c ]) -> i32 ;

            #[call(polynomial)]
            pub fn linear(&self, [ 0 ], [ 0 ], [ self.b ], y: i32, [ self.c ]) -> i32 ;
        }",
    );
    let expected = lex(
        "#[inline] pub fn polynomial(&self, x: i32, y: i32) -> i32 { self.inner.polynomial(self.a, x, self.b, y, self.c) }
         #[inline] pub fn linear(&self, y: i32) -> i32 { self.inner.polynomial(0, 0, self.b, y, self.c) }",
    );
    assert_eq!(out, expected);
}
