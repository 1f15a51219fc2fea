use proc_macro2::TokenStream;
use quote::ToTokens;
use stylus_proc::solidity_error::{
    derive_solidity_error, expand_enum, DeriveSolidityError, Item, SolidityErrorExtension,
};
use stylus_proc::syntax::{Attribute, EnumItem, Field, Fields, Segment, Type, Variant};

fn stream(source: &str) -> TokenStream {
    source.parse().unwrap()
}

fn item(source: &str) -> EnumItem {
    EnumItem::read(&syn::parse_str::<syn::ItemEnum>(source).unwrap())
}

fn assert_impl_eq(actual: TokenStream, expected: &str) {
    assert_eq!(
        syn::parse2::<syn::ItemImpl>(actual).unwrap(),
        syn::parse_str::<syn::ItemImpl>(expected).unwrap(),
    );
}

fn assert_file_eq(actual: TokenStream, expected: &str) {
    assert_eq!(
        syn::parse2::<syn::File>(actual).unwrap(),
        syn::parse_str::<syn::File>(expected).unwrap(),
    );
}

fn path_type(name: &str, bare: bool) -> Type {
    Type {
        tokens: stream(name),
        path: Some(vec![Segment { ident: name.to_string(), bare }]),
    }
}

fn tuple_variant(name: &str, types: Vec<Type>) -> Variant {
    let fields: Vec<Field> = types
        .into_iter()
        .map(|ty| Field { name: None, tokens: ty.tokens.clone(), ty })
        .collect();
    Variant {
        name: stream(name),
        fields: Fields::Unnamed(fields),
        fields_tokens: stream("(fields)"),
        tokens: stream(name),
    }
}

fn plain_enum(name: &str, attributes: Vec<Attribute>, variants: Vec<Variant>) -> EnumItem {
    EnumItem { ident: name.to_string(), name: stream(name), attributes, variants }
}

fn derive_attribute(list: &str) -> Attribute {
    Attribute { ident: Some("derive".to_string()), list: Some(stream(list)) }
}

#[test]
fn test_derive_solidity_error() {
    let derived = DeriveSolidityError::from(&item(
        "enum MyError {
            Foo(FooError),
            Bar(BarError),
        }",
    ));
    assert_impl_eq(
        derived.from_impls[0].clone(),
        "impl From<FooError> for MyError {
            fn from(value: FooError) -> Self {
                MyError::Foo(value)
            }
        }",
    );
    assert_impl_eq(
        derived.vec_u8_from_impl(),
        "impl From<MyError> for alloc::vec::Vec<u8> {
            fn from(err: MyError) -> Self {
                match err {
                    MyError::Foo(e) => stylus_sdk::call::MethodError::encode(e),
                    MyError::Bar(e) => stylus_sdk::call::MethodError::encode(e),
                }
            }
        }",
    );
}

#[test]
fn derive_emits_conversions_in_order() {
    let expansion = derive_solidity_error(stream(
        "enum MyError { Foo(FooError), Bar(crate::errors::Bar<u8>), }",
    ));
    assert!(expansion.diagnostics.is_empty());
    assert_file_eq(
        expansion.tokens,
        "impl From<FooError> for MyError {
            fn from(value: FooError) -> Self {
                MyError::Foo(value)
            }
        }
        impl From<crate::errors::Bar<u8>> for MyError {
            fn from(value: crate::errors::Bar<u8>) -> Self {
                MyError::Bar(value)
            }
        }
        impl From<MyError> for alloc::vec::Vec<u8> {
            fn from(err: MyError) -> Self {
                match err {
                    MyError::Foo(e) => stylus_sdk::call::MethodError::encode(e),
                    MyError::Bar(e) => stylus_sdk::call::MethodError::encode(e),
                }
            }
        }",
    );
}

#[test]
fn derive_of_an_empty_enum_has_no_arms() {
    let expansion = derive_solidity_error(stream("enum Never {}"));
    assert!(expansion.diagnostics.is_empty());
    assert_file_eq(
        expansion.tokens,
        "impl From<Never> for alloc::vec::Vec<u8> {
            fn from(err: Never) -> Self {
                match err {}
            }
        }",
    );
}

#[test]
fn derive_reports_variants_that_are_not_one_tuples() {
    let expansion = derive_solidity_error(stream(
        "enum E { #[doc = \"x\"] A, B(u8, u16), C { a: u8 }, D(FooError), F() }",
    ));
    let reports: Vec<(String, String)> = expansion
        .diagnostics
        .iter()
        .map(|report| (report.at.to_string(), report.message.clone()))
        .collect();
    let message = "variant not a 1-tuple".to_string();
    assert_eq!(
        reports,
        vec![
            (stream("#[doc = \"x\"] A").to_string(), message.clone()),
            (stream("(u8, u16)").to_string(), message.clone()),
            (stream("{ a: u8 }").to_string(), message.clone()),
            (stream("()").to_string(), message),
        ],
    );
    assert_file_eq(
        expansion.tokens,
        "impl From<FooError> for E {
            fn from(value: FooError) -> Self {
                E::D(value)
            }
        }
        impl From<E> for alloc::vec::Vec<u8> {
            fn from(err: E) -> Self {
                match err {
                    E::D(e) => stylus_sdk::call::MethodError::encode(e),
                }
            }
        }",
    );
}

#[test]
fn derive_turns_a_parse_error_into_a_compile_error() {
    let expansion = derive_solidity_error(stream("struct NotAnEnum;"));
    assert!(expansion.diagnostics.is_empty());
    assert_eq!(
        expansion.tokens.to_string(),
        stream("::core::compile_error! { \"expected `enum`\" }").to_string(),
    );
}

#[test]
fn enum_that_does_not_derive_does_not_nest_itself() {
    let expansion =
        derive_solidity_error(stream("#[derive(Debug)] enum E { Own(E), Foo(FooError) }"));
    assert!(expansion.diagnostics.is_empty());
    assert_file_eq(
        expansion.tokens,
        "impl From<E> for E {
            fn from(value: E) -> Self {
                E::Own(value)
            }
        }
        impl From<FooError> for E {
            fn from(value: FooError) -> Self {
                E::Foo(value)
            }
        }
        impl From<E> for alloc::vec::Vec<u8> {
            fn from(err: E) -> Self {
                match err {
                    E::Own(e) => stylus_sdk::call::MethodError::encode(e),
                    E::Foo(e) => stylus_sdk::call::MethodError::encode(e),
                }
            }
        }",
    );
}

#[test]
fn enum_is_not_nested_in_itself() {
    let expected = "impl From<A> for FooError {
            fn from(value: A) -> Self {
                FooError::First(value)
            }
        }
        impl From<other::FooError> for FooError {
            fn from(value: other::FooError) -> Self {
                FooError::Inner(value)
            }
        }
        impl From<FooError> for alloc::vec::Vec<u8> {
            fn from(err: FooError) -> Self {
                match err {
                    FooError::First(e) => stylus_sdk::call::MethodError::encode(e),
                    FooError::Inner(e) => stylus_sdk::call::MethodError::encode(e),
                }
            }
        }";
    let source =
        "#[derive(Debug, SolidityError)] enum FooError { First(A), Inner(other::FooError) }";
    let expansion = derive_solidity_error(stream(source));
    assert!(expansion.diagnostics.is_empty());
    assert_file_eq(expansion.tokens, expected);
    assert_file_eq(expand_enum(&item(source)).tokens, expected);
}

#[test]
fn enums_that_lead_back_to_themselves_are_not_nested() {
    let mut derive = DeriveSolidityError::new(stream("Outer"));
    derive.add_item(Item::Enum(item("#[derive(SolidityError)] enum A { X(B), Y(C) }")));
    derive.add_item(Item::Enum(item("#[derive(SolidityError)] enum B { Z(A), W(C) }")));
    derive.add_item(Item::Enum(item("#[derive(SolidityError)] enum C { V(D) }")));
    derive.collect_variants(&item("enum Outer { First(A), Second(C), Third(B) }"));
    let names: Vec<String> =
        derive.variants_to_process.iter().map(|variant| variant.0.to_string()).collect();
    assert_eq!(names, vec!["First", "V", "Third"]);
    assert!(derive.is_enum_type(&path_type("A", true)));
}

#[test]
fn known_enum_of_the_same_name_is_nested() {
    let mut derive = DeriveSolidityError::new(stream("E"));
    derive.add_item(Item::Enum(item("#[derive(SolidityError)] enum E { X(A), Y(B) }")));
    derive.collect_variants(&item("enum E { Other(x::E) }"));
    let names: Vec<String> =
        derive.variants_to_process.iter().map(|variant| variant.0.to_string()).collect();
    assert_eq!(names, vec!["X", "Y"]);
}

#[test]
fn the_last_segment_of_a_path_counts() {
    let segment = |ident: &str, bare: bool| Segment { ident: ident.to_string(), bare };
    let derive = DeriveSolidityError::new(stream("E"));
    let ty = |path: Vec<Segment>| Type { tokens: stream("T"), path: Some(path) };
    assert!(derive.is_enum_type(&ty(vec![segment("Foo", false), segment("BarError", true)])));
    assert!(!derive.is_enum_type(&ty(vec![segment("FooError", true), segment("Bar", true)])));
    assert!(!derive.is_enum_type(&ty(vec![])));
    assert!(ty(vec![]).last().is_none());
    assert_eq!(ty(vec![segment("a", true), segment("b", true)]).last().unwrap().ident, "b");
}

#[test]
fn unknown_types_count_as_enums_by_their_name() {
    let derive = DeriveSolidityError::new(stream("E"));
    assert!(derive.is_enum_type(&path_type("FooError", true)));
    assert!(derive.is_enum_type(&path_type("Error", true)));
    assert!(!derive.is_enum_type(&path_type("MyError", true)));
    assert!(!derive.is_enum_type(&path_type("Errors", true)));
    assert!(!derive.is_enum_type(&path_type("FooError", false)));
    assert!(!derive.is_enum_type(&Type { tokens: stream("(u8,)"), path: None }));
}

#[test]
fn known_types_count_as_enums_by_their_derives() {
    let mut derive = DeriveSolidityError::new(stream("E"));
    derive.add_item(Item::Enum(plain_enum("FooError", vec![], vec![])));
    assert!(!derive.is_enum_type(&path_type("FooError", true)));
    derive.add_item(Item::Enum(plain_enum("FooError", vec![derive_attribute("SolidityError")], vec![])));
    assert!(derive.is_enum_type(&path_type("FooError", true)));
    assert!(!derive.is_enum_type(&path_type("FooError", false)));
    derive.add_item(Item::Enum(plain_enum("FooError", vec![derive_attribute("Debug, Clone")], vec![])));
    assert!(!derive.is_enum_type(&path_type("FooError", true)));
    derive.add_item(Item::Enum(plain_enum(
        "FooError",
        vec![derive_attribute("Clone"), derive_attribute("Debug, SolidityError")],
        vec![],
    )));
    assert!(derive.is_enum_type(&path_type("FooError", true)));
    derive.add_item(Item::Enum(plain_enum(
        "FooError",
        vec![Attribute { ident: Some("cfg".to_string()), list: Some(stream("SolidityError")) }],
        vec![],
    )));
    assert!(!derive.is_enum_type(&path_type("FooError", true)));
    derive.add_item(Item::Enum(plain_enum("FooError", vec![derive_attribute("Solidity, Error")], vec![])));
    assert!(!derive.is_enum_type(&path_type("FooError", true)));
    derive.add_item(Item::Other(stream("struct FooError;")));
    assert!(!derive.is_enum_type(&path_type("FooError", true)));
    assert!(derive.is_enum_type(&path_type("BarError", true)));
}

#[test]
fn known_enum_with_a_plain_derive_counts() {
    let mut derive = DeriveSolidityError::new(stream("Outer"));
    derive.add_item(Item::Enum(item("#[derive(SolidityError)] enum Inner { A(X) }")));
    assert!(derive.is_enum_type(&path_type("Inner", true)));
}

#[test]
fn variants_of_a_plainly_derived_enum_replace_its_holder() {
    let mut derive = DeriveSolidityError::new(stream("Outer"));
    derive.add_item(Item::Enum(item("#[derive(SolidityError)] enum Inner { A(X), B(Y) }")));
    derive.collect_variants(&item("enum Outer { C(Inner), D(Z) }"));
    let pending: Vec<(String, String)> = derive
        .variants_to_process
        .iter()
        .map(|variant| (variant.0.to_string(), variant.1.ty.tokens.to_string()))
        .collect();
    assert_eq!(
        pending,
        vec![
            ("A".to_string(), "X".to_string()),
            ("B".to_string(), "Y".to_string()),
            ("D".to_string(), "Z".to_string()),
        ],
    );
    assert!(derive.diagnostics.is_empty());
}

#[test]
fn variants_of_nested_enums_stand_in_place() {
    let mut derive = DeriveSolidityError::new(stream("E"));
    derive.add_item(Item::Enum(plain_enum(
        "Inner",
        vec![derive_attribute("SolidityError")],
        vec![
            tuple_variant("One", vec![path_type("A", true)]),
            tuple_variant("Two", vec![]),
            tuple_variant("Three", vec![path_type("B", true)]),
        ],
    )));
    derive.collect_variants(&plain_enum(
        "E",
        vec![],
        vec![
            tuple_variant("First", vec![path_type("C", true)]),
            tuple_variant("Nested", vec![path_type("Inner", true)]),
            tuple_variant("Last", vec![path_type("FooError", true)]),
        ],
    ));
    let names: Vec<String> =
        derive.variants_to_process.iter().map(|variant| variant.0.to_string()).collect();
    assert_eq!(names, vec!["First", "One", "Three", "Last"]);
    let types: Vec<String> =
        derive.variants_to_process.iter().map(|variant| variant.1.ty.tokens.to_string()).collect();
    assert_eq!(types, vec!["C", "A", "B", "FooError"]);
    assert_eq!(derive.diagnostics.len(), 1);

    derive.process_collected_variants();
    assert!(derive.variants_to_process.is_empty());
    assert_eq!(derive.from_impls.len(), 4);
    assert_eq!(derive.match_arms.len(), 4);
    assert_impl_eq(
        derive.from_impls[2].clone(),
        "impl From<B> for E {
            fn from(value: B) -> Self {
                E::Three(value)
            }
        }",
    );
    assert_eq!(
        derive.match_arms[2].to_string(),
        stream("E::Three(e) => stylus_sdk::call::MethodError::encode(e),").to_string(),
    );
}

#[test]
fn reading_an_enum_keeps_its_parts() {
    let read = item(
        "#[derive(Debug, Clone)] #[non_exhaustive] #[a::b(c)]
        pub enum E<T> { A(#[x] Vec<T>, (u8,)), B { b: u8 }, C = 3 }",
    );
    assert_eq!(read.ident, "E");
    assert_eq!(read.name.to_string(), "E");
    let attributes: Vec<(Option<String>, Option<String>)> = read
        .attributes
        .iter()
        .map(|attribute| {
            (attribute.ident.clone(), attribute.list.as_ref().map(|list| list.to_string()))
        })
        .collect();
    assert_eq!(
        attributes,
        vec![
            (Some("derive".to_string()), Some("Debug , Clone".to_string())),
            (Some("non_exhaustive".to_string()), None),
            (None, Some("c".to_string())),
        ],
    );
    assert_eq!(read.variants.len(), 3);
    assert_eq!(read.variants[2].name.to_string(), "C");
    assert_eq!(read.variants[2].tokens.to_string(), "C = 3");
    assert_eq!(read.variants[2].fields_tokens.to_string(), "");
    assert!(matches!(read.variants[2].fields, Fields::Unit));
    assert!(matches!(read.variants[1].fields, Fields::Named));
    match &read.variants[0].fields {
        Fields::Unnamed(fields) => {
            assert_eq!(fields.len(), 2);
            assert!(fields[0].name.is_none());
            assert_eq!(fields[0].tokens.to_string(), "# [x] Vec < T >");
            assert_eq!(fields[0].ty.tokens.to_string(), "Vec < T >");
            let path = fields[0].ty.path.as_ref().unwrap();
            assert_eq!(path.len(), 1);
            assert_eq!(path[0].ident, "Vec");
            assert!(!path[0].bare);
            assert!(fields[1].ty.path.is_none());
        }
        _ => panic!("the first variant is a tuple"),
    }
}

#[test]
fn no_extension_adds_no_code() {
    let mut derive = DeriveSolidityError::new(stream("E"));
    let field = Field { name: None, ty: path_type("A", true), tokens: stream("A") };
    ().add_variant(field.clone());
    derive.add_variant(&stream("One"), field);
    assert!(<() as SolidityErrorExtension>::codegen(&derive).is_empty());
    let mut output = stream("struct Before;");
    derive.to_tokens(&mut output);
    assert_file_eq(
        output,
        "struct Before;
        impl From<A> for E {
            fn from(value: A) -> Self {
                E::One(value)
            }
        }
        impl From<E> for alloc::vec::Vec<u8> {
            fn from(err: E) -> Self {
                match err {
                    E::One(e) => stylus_sdk::call::MethodError::encode(e),
                }
            }
        }",
    );
}

#[test]
fn derived_code_is_printed_as_syn_prints_it() {
    let expansion = derive_solidity_error(stream(
        "enum E { A(Vec<Vec<u8>>), B(#[x] pub FooError), C(<T as Tr>::D), D(&'static [u8; 4]) }",
    ));
    let file = syn::parse2::<syn::File>(expansion.tokens.clone()).unwrap();
    assert_eq!(file.items.len(), 5);
    assert_eq!(file.to_token_stream().to_string(), expansion.tokens.to_string());
}

#[test]
fn conversions_and_arms_are_paired() {
    let mut derive = DeriveSolidityError::from(&item("enum E { A(X), B, C(Y), D(Z, Z) }"));
    assert_eq!(derive.from_impls.len(), 2);
    assert_eq!(derive.match_arms.len(), 2);
    assert_eq!(derive.diagnostics.len(), 2);
    derive.process_collected_variants();
    assert_eq!(derive.from_impls.len(), 2);
    assert_eq!(derive.match_arms.len(), 2);
    let field = Field { name: None, ty: path_type("W", true), tokens: stream("W") };
    derive.add_variant(&stream("Last"), field);
    assert_eq!(derive.from_impls.len(), 3);
    assert_eq!(
        derive.match_arms[2].to_string(),
        stream("E::Last(e) => stylus_sdk::call::MethodError::encode(e),").to_string(),
    );
}

#[test]
fn enums_nest_to_any_depth() {
    let derived = || vec![derive_attribute("SolidityError")];
    let mut derive = DeriveSolidityError::new(stream("E"));
    derive.add_item(Item::Enum(plain_enum(
        "Outer",
        derived(),
        vec![
            tuple_variant("Deep", vec![path_type("Inner", true)]),
            tuple_variant("Flat", vec![path_type("A", true)]),
        ],
    )));
    derive.add_item(Item::Enum(plain_enum(
        "Inner",
        derived(),
        vec![tuple_variant("Bottom", vec![path_type("B", true)])],
    )));
    derive.collect_variants(&plain_enum(
        "E",
        vec![],
        vec![
            tuple_variant("One", vec![path_type("Outer", true)]),
            tuple_variant("Two", vec![path_type("Inner", true)]),
        ],
    ));
    let names: Vec<String> =
        derive.variants_to_process.iter().map(|variant| variant.0.to_string()).collect();
    assert_eq!(names, vec!["Bottom", "Flat", "Bottom"]);
    assert!(derive.diagnostics.is_empty());
}
