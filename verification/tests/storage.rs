use proc_macro2::TokenStream;
use quote::ToTokens;
use stylus_proc::attrs::consume_flag;
use stylus_proc::diagnostics::Expansion;
use stylus_proc::storage::{
    check_type, expand_item, expand_struct, is_expandable, storage, Member, Storage, StorageField,
};
use stylus_proc::syntax::{Field, Segment, StructField, StructItem, Type};

fn stream(source: &str) -> TokenStream {
    source.parse().unwrap()
}

fn expand(source: &str) -> Expansion {
    storage(TokenStream::new(), stream(source)).unwrap()
}

fn parse(source: &str) -> syn::ItemStruct {
    syn::parse_str(source).unwrap()
}

fn read(source: &str) -> StructItem {
    StructItem::read(&parse(source))
}

fn attributes(field: &StructField) -> Vec<(Option<String>, usize)> {
    field
        .attributes
        .iter()
        .map(|attribute| (attribute.ident.clone(), attribute.place))
        .collect()
}

fn item_of(tokens: TokenStream) -> syn::ItemStruct {
    match &syn::parse2::<syn::File>(tokens).unwrap().items[0] {
        syn::Item::Struct(item) => item.clone(),
        _ => panic!("a struct item"),
    }
}

fn assert_file_eq(actual: TokenStream, expected: &str) {
    assert_eq!(
        syn::parse2::<syn::File>(actual).unwrap(),
        syn::parse_str::<syn::File>(expected).unwrap(),
    );
}

fn field_of_type(name: &str) -> Field {
    Field {
        name: Some(stream("value")),
        ty: Type {
            tokens: stream(name),
            path: Some(vec![Segment { ident: name.to_string(), bare: true }]),
        },
        tokens: stream("pub value: T"),
    }
}

fn message(name: &str) -> Option<String> {
    check_type(&field_of_type(name)).map(|report| report.message)
}

#[test]
fn storage_of_two_fields() {
    let expansion = expand(
        "#[doc = \"kept\"]
        pub struct Contract {
            #[borrow]
            pub erc20: Erc20,
            #[doc = \"also kept\"]
            count: StorageU256,
            list: [u8; 4],
        }",
    );
    assert!(expansion.diagnostics.is_empty());
    assert_file_eq(
        expansion.tokens,
        "#[doc = \"kept\"]
        pub struct Contract {
            pub erc20: Erc20,
            #[doc = \"also kept\"]
            count: StorageU256,
            list: [u8; 4],
        }
        impl Contract {
            const fn required_slots() -> usize {
                use stylus_sdk::storage;
                let mut total: usize = 0;
                let mut space: usize = 32;
                let bytes = <Erc20 as storage::StorageType<H>>::SLOT_BYTES;
                let words = <Erc20 as storage::StorageType<H>>::REQUIRED_SLOTS;

                if words > 0 {
                    total += words;
                    space = 32;
                } else {
                    if space < bytes {
                        space = 32;
                        total += 1;
                    }
                    space -= bytes;
                }
                let bytes = <StorageU256 as storage::StorageType<H>>::SLOT_BYTES;
                let words = <StorageU256 as storage::StorageType<H>>::REQUIRED_SLOTS;

                if words > 0 {
                    total += words;
                    space = 32;
                } else {
                    if space < bytes {
                        space = 32;
                        total += 1;
                    }
                    space -= bytes;
                }
                if space != 32 || total == 0 {
                    total += 1;
                }
                total
            }
        }
        impl stylus_sdk::storage::StorageType<H> for Contract {
            type Wraps<'a> = stylus_sdk::storage::StorageGuard<'a, Self> where Self: 'a;
            type WrapsMut<'a> = stylus_sdk::storage::StorageGuardMut<'a, Self> where Self: 'a;

            const SLOT_BYTES: usize = 32;
            const REQUIRED_SLOTS: usize = Self::required_slots();

            unsafe fn new(mut root: stylus_sdk::alloy_primitives::U256, offset: u8, host: Rc<H>) -> Self {
                use stylus_sdk::{storage, alloy_primitives};
                debug_assert!(offset == 0);

                let mut space: usize = 32;
                let mut slot: usize = 0;
                let accessor = Self {
                    erc20: {
                        let bytes = <Erc20 as storage::StorageType<H>>::SLOT_BYTES;
                        let words = <Erc20 as storage::StorageType<H>>::REQUIRED_SLOTS;
                        if space < bytes {
                            space = 32;
                            slot += 1;
                        }
                        space -= bytes;

                        let root = root + alloy_primitives::U256::from(slot);
                        let field = <Erc20 as storage::StorageType<H>>::new(root, space as u8, Rc::clone(&self.host));
                        if words > 0 {
                            slot += words;
                            space = 32;
                        }
                        field
                    },
                    count: {
                        let bytes = <StorageU256 as storage::StorageType<H>>::SLOT_BYTES;
                        let words = <StorageU256 as storage::StorageType<H>>::REQUIRED_SLOTS;
                        if space < bytes {
                            space = 32;
                            slot += 1;
                        }
                        space -= bytes;

                        let root = root + alloy_primitives::U256::from(slot);
                        let field = <StorageU256 as storage::StorageType<H>>::new(root, space as u8, Rc::clone(&self.host));
                        if words > 0 {
                            slot += words;
                            space = 32;
                        }
                        field
                    },
                    host,
                };
                accessor
            }

            fn load<'s>(self) -> Self::Wraps<'s> {
                stylus_sdk::storage::StorageGuard::new(self)
            }

            fn load_mut<'s>(self) -> Self::WrapsMut<'s> {
                stylus_sdk::storage::StorageGuardMut::new(self)
            }
        }
        impl core::borrow::Borrow<Erc20> for Contract {
            fn borrow(&self) -> &Erc20 {
                &self.erc20
            }
        }
        impl core::borrow::BorrowMut<Erc20> for Contract {
            fn borrow_mut(&mut self) -> &mut Erc20 {
                &mut self.erc20
            }
        }",
    );
}

#[test]
fn storage_carries_generics_over() {
    let expansion = expand("struct S<'a, T: Copy = u8> where T: Default { value: StorageVec<T>, }");
    let file = syn::parse2::<syn::File>(expansion.tokens).unwrap();
    assert_eq!(file.items.len(), 3);
    match &file.items[1] {
        syn::Item::Impl(block) => {
            assert_eq!(block.generics.params.len(), 2);
            assert!(block.trait_.is_none());
            assert_eq!(*block.self_ty, syn::parse_str("S<'a, T>").unwrap());
            assert_eq!(
                block.generics.where_clause,
                Some(syn::parse_str("where T: Default").unwrap()),
            );
        }
        _ => panic!("an impl block"),
    }
    match &file.items[2] {
        syn::Item::Impl(block) => {
            assert_eq!(block.generics.params.len(), 2);
            assert_eq!(
                block.trait_.as_ref().unwrap().1,
                syn::parse_str("stylus_sdk::storage::StorageType<H>").unwrap(),
            );
            assert_eq!(*block.self_ty, syn::parse_str("S<'a, T>").unwrap());
        }
        _ => panic!("an impl block"),
    }
}

#[test]
fn storage_reports_arguments() {
    let plain = expand("struct S { value: StorageU8 }");
    let argued = storage(stream("size = 3"), stream("struct S { value: StorageU8 }")).unwrap();
    assert_eq!(argued.diagnostics.len(), 1);
    assert_eq!(argued.diagnostics[0].message, "this macro is not configurable");
    assert_eq!(argued.diagnostics[0].at.to_string(), "size = 3");
    assert_eq!(argued.tokens.to_string(), plain.tokens.to_string());
}

#[test]
fn storage_turns_a_parse_error_into_a_compile_error() {
    let expansion = storage(stream("x"), stream("enum NotAStruct {}")).unwrap();
    assert_eq!(
        expansion.tokens.to_string(),
        stream("::core::compile_error! { \"expected `struct`\" }").to_string(),
    );
    assert_eq!(expansion.diagnostics.len(), 1);
    assert_eq!(expansion.diagnostics[0].message, "this macro is not configurable");
}

#[test]
fn storage_reports_types_in_order() {
    let expansion = storage(
        stream("x"),
        stream("struct S { #[borrow] a: u64, b: StorageBool, c: std::primitive::bool, d: &'static u8 }"),
    )
    .unwrap();
    let reports: Vec<(String, String)> = expansion
        .diagnostics
        .iter()
        .map(|report| (report.at.to_string(), report.message.clone()))
        .collect();
    assert_eq!(
        reports,
        vec![
            ("x".to_string(), "this macro is not configurable".to_string()),
            (
                stream("#[borrow] a: u64").to_string(),
                "Type `u64` not supported for EVM state storage. Instead try `StorageU64`."
                    .to_string(),
            ),
            (
                stream("c: std::primitive::bool").to_string(),
                "Type `bool` not supported for EVM state storage. Instead try `StorageBool`."
                    .to_string(),
            ),
        ],
    );
}

#[test]
fn structs_without_named_storage_fields_have_no_expansion() {
    for source in
        ["struct S;", "struct S {}", "struct S(StorageU8);", "struct S { value: (u8, u8) }"]
    {
        match storage(TokenStream::new(), stream(source)) {
            Ok(_) => panic!("no code can be generated"),
            Err(diagnostics) => assert!(diagnostics.is_empty()),
        }
    }
    assert!(expand_struct(parse("struct S { value: StorageU8 }")).is_ok());
}

#[test]
fn structs_without_expansion_are_still_reported() {
    let diagnostics = storage(stream("x"), stream("struct S(bool, (u8,), A, u8);")).unwrap_err();
    let messages: Vec<&str> =
        diagnostics.iter().map(|diagnostic| diagnostic.message.as_str()).collect();
    assert_eq!(
        messages,
        vec![
            "this macro is not configurable",
            "Type `bool` not supported for EVM state storage. Instead try `StorageBool`.",
            "Type `u8` not supported for EVM state storage. Instead try `StorageU8`.",
        ],
    );
}

#[test]
fn check_type_refuses_primitive_types() {
    for name in
        ["u8", "u16", "u32", "u64", "u128", "i8", "i16", "i32", "i64", "i128", "U8", "U16", "U32",
            "U64", "U128", "I8", "I16", "I32", "I64", "I128"]
    {
        assert_eq!(
            message(name),
            Some(format!(
                "Type `{}` not supported for EVM state storage. Instead try `Storage{}`.",
                name,
                name.to_uppercase(),
            )),
        );
    }
    assert_eq!(
        message("i128").unwrap(),
        "Type `i128` not supported for EVM state storage. Instead try `StorageI128`.",
    );
    assert_eq!(message("usize").unwrap(), "Type `usize` not supported for EVM state storage.");
    assert_eq!(message("isize").unwrap(), "Type `isize` not supported for EVM state storage.");
    assert_eq!(
        message("bool").unwrap(),
        "Type `bool` not supported for EVM state storage. Instead try `StorageBool`.",
    );
    assert_eq!(
        message("f32").unwrap(),
        "Type `f32` not supported for EVM state storage. Consider fixed-point arithmetic.",
    );
    assert_eq!(
        message("f64").unwrap(),
        "Type `f64` not supported for EVM state storage. Consider fixed-point arithmetic.",
    );
}

#[test]
fn check_type_accepts_other_types() {
    for name in ["StorageU8", "U256", "u256", "char", "Address", "Bool", ""] {
        assert!(check_type(&field_of_type(name)).is_none());
    }
    let mut qualified = field_of_type("u8");
    qualified.ty.path.as_mut().unwrap().push(Segment { ident: "Word".to_string(), bare: true });
    assert!(check_type(&qualified).is_none());
    let report = check_type(&field_of_type("u8")).unwrap();
    assert_eq!(report.at.to_string(), "pub value : T");
}

#[test]
fn consume_flag_takes_the_flag_alone() {
    let mut item = read(
        "struct S {
            a: A,
            #[borrow] #[doc = \"b\"] #[borrow] #[a::borrow] #[borrowed] #[borrow] b: B,
            #[borrow] c: C,
        }",
    );
    assert!(consume_flag(&mut item.fields[1].attributes, "borrow"));
    assert_eq!(
        attributes(&item.fields[1]),
        vec![(Some("doc".to_string()), 1), (None, 3), (Some("borrowed".to_string()), 4)],
    );
    assert!(!consume_flag(&mut item.fields[1].attributes, "borrow"));
    assert_eq!(item.fields[1].attributes.len(), 3);
    assert!(!consume_flag(&mut item.fields[0].attributes, "borrow"));
    assert!(!consume_flag(&mut item.fields[2].attributes, "other"));
    assert_eq!(attributes(&item.fields[2]), vec![(Some("borrow".to_string()), 0)]);
    assert!(consume_flag(&mut item.fields[2].attributes, "borrow"));
    assert!(item.fields[2].attributes.is_empty());
}

#[test]
fn consume_flag_leaves_other_flags() {
    let mut item = read("struct S { #[borrow] #[skip] #[borrow] a: A }");
    assert!(consume_flag(&mut item.fields[0].attributes, "borrow"));
    assert!(consume_flag(&mut item.fields[0].attributes, "skip"));
    assert!(!consume_flag(&mut item.fields[0].attributes, "skip"));
}

#[test]
fn reading_a_struct_keeps_its_parts() {
    let item = read("pub struct S<T: Copy>(#[x] pub A::B<T>, #[y(1)] #[z] (u8,)) where T: Default;");
    assert_eq!(item.name.to_string(), "S");
    assert_eq!(item.generics.impl_generics.to_string(), "< T : Copy >");
    assert_eq!(item.generics.ty_generics.to_string(), "< T >");
    assert_eq!(item.generics.where_clause.to_string(), "where T : Default");
    assert_eq!(item.fields.len(), 2);
    assert_eq!(attributes(&item.fields[0]), vec![(Some("x".to_string()), 0)]);
    assert_eq!(
        attributes(&item.fields[1]),
        vec![(Some("y".to_string()), 0), (Some("z".to_string()), 1)],
    );
    let field = &item.fields[0].field;
    assert!(field.name.is_none());
    assert_eq!(field.tokens.to_string(), stream("#[x] pub A::B<T>").to_string());
    assert_eq!(field.ty.tokens.to_string(), stream("A::B<T>").to_string());
    let path = field.ty.path.as_ref().unwrap();
    assert_eq!(path.len(), 2);
    assert_eq!(path[0].ident, "A");
    assert!(path[0].bare);
    assert_eq!(path[1].ident, "B");
    assert!(!path[1].bare);
    assert!(item.fields[1].field.ty.path.is_none());
    assert!(!is_expandable(&item));
}

#[test]
fn storage_from_reads_path_fields() {
    let mut item = read("struct S<T> { #[borrow] a: A<T>, #[borrow] b: [u8; 2], pub c: x::u8 }");
    assert!(is_expandable(&item));
    let (storage, diagnostics) = Storage::from(&mut item);
    assert!(item.fields[0].attributes.is_empty());
    assert_eq!(attributes(&item.fields[1]), vec![(Some("borrow".to_string()), 0)]);
    assert!(item.fields[2].attributes.is_empty());
    assert_eq!(storage.name.to_string(), "S");
    assert_eq!(storage.generics.impl_generics.to_string(), "< T >");
    assert_eq!(storage.generics.ty_generics.to_string(), "< T >");
    assert_eq!(storage.generics.where_clause.to_string(), "");
    assert_eq!(storage.fields.len(), 2);
    assert_eq!(storage.fields[0].name.as_ref().unwrap().to_string(), "a");
    assert_eq!(storage.fields[0].ty.to_string(), "A < T >");
    assert!(storage.fields[0].borrow);
    assert_eq!(storage.fields[1].name.as_ref().unwrap().to_string(), "c");
    assert!(!storage.fields[1].borrow);
    assert_eq!(diagnostics.len(), 1);
    assert_eq!(
        diagnostics[0].message,
        "Type `u8` not supported for EVM state storage. Instead try `StorageU8`.",
    );
}

#[test]
fn item_is_given_back_without_the_flag() {
    let source = "pub struct S {
        #[borrow] #[doc = \"a\"] #[borrow] #[x::borrow] pub a: A,
        #[borrow] b: [u8; 2],
        #[y] c: C
    }";
    let printed = item_of(expand(source).tokens);
    assert_eq!(
        printed,
        parse(
            "pub struct S {
                #[doc = \"a\"] #[x::borrow] pub a: A,
                #[borrow] b: [u8; 2],
                #[y] c: C
            }",
        ),
    );
}

#[test]
fn item_that_was_given_back_is_not_borrowed_again() {
    let first = expand("struct S { #[borrow] a: A, b: B }").tokens;
    assert_eq!(syn::parse2::<syn::File>(first.clone()).unwrap().items.len(), 5);
    let item = item_of(first);
    let second = expand_struct(item.clone()).unwrap().tokens;
    assert_eq!(syn::parse2::<syn::File>(second.clone()).unwrap().items.len(), 3);
    assert_eq!(item_of(second), item);
}

#[test]
fn storage_is_printed_as_syn_prints_it() {
    let expansion = expand(
        "struct S<'a, const N: usize, T: Copy = u8> where T: Default {
            #[borrow] a: Vec<Vec<T>>, b: x::B<{ N }>, c: &'a u8, d: <T as Tr>::D,
        }",
    );
    let file = syn::parse2::<syn::File>(expansion.tokens.clone()).unwrap();
    assert_eq!(file.to_token_stream().to_string(), expansion.tokens.to_string());
}

#[test]
fn tuple_fields_are_reached_by_their_place() {
    let mut item = read("struct S((u8,), #[borrow] StorageU8);");
    let (field, report) = StorageField::new(1, &mut item.fields[1]);
    assert!(report.is_none());
    assert!(item.fields[1].attributes.is_empty());
    assert!(field.name.is_none());
    assert!(matches!(field.accessor, Member::Unnamed(1)));
    assert!(field.init().is_none());
    let name = stream("S");
    assert_file_eq(
        field.impl_borrow(&name).unwrap(),
        "impl core::borrow::Borrow<StorageU8> for S {
            fn borrow(&self) -> &StorageU8 {
                &self.1
            }
        }",
    );
    assert_file_eq(
        field.impl_borrow_mut(&name).unwrap(),
        "impl core::borrow::BorrowMut<StorageU8> for S {
            fn borrow_mut(&mut self) -> &mut StorageU8 {
                &mut self.1
            }
        }",
    );
    let far = StorageField { accessor: Member::Unnamed(1205), ..field };
    assert_eq!(
        far.impl_borrow(&name).unwrap().to_string(),
        stream(
            "impl core::borrow::Borrow<StorageU8> for S {
                fn borrow(&self) -> &StorageU8 {
                    &self.1205
                }
            }",
        )
        .to_string(),
    );
}

#[test]
fn fields_without_the_flag_are_not_borrowed() {
    let mut item = read("struct S { a: A }");
    let (field, _) = StorageField::new(0, &mut item.fields[0]);
    assert!(field.impl_borrow(&stream("S")).is_none());
    assert!(field.impl_borrow_mut(&stream("S")).is_none());
    let init = field.init().unwrap();
    let value: syn::FieldValue = syn::parse2(init).unwrap();
    assert_eq!(value.member, syn::parse_str("a").unwrap());
}

#[test]
fn generated_code_stands_behind_the_item() {
    let source = "struct S { #[borrow] a: A, b: bool }";
    let mut item = read(source);
    let generated = expand_item(&mut item).unwrap();
    assert!(item.fields[0].attributes.is_empty());
    assert_eq!(generated.diagnostics.len(), 1);
    let whole = expand(source);
    assert_eq!(whole.diagnostics.len(), 1);
    let mut expected = stream("struct S { a: A, b: bool }");
    expected.extend(generated.tokens);
    assert_eq!(whole.tokens.to_string(), expected.to_string());
}

#[test]
fn structs_without_expansion_stay_as_they_are() {
    let mut item = read("struct S(#[borrow] StorageU8);");
    assert!(expand_item(&mut item).is_err());
    assert_eq!(attributes(&item.fields[0]), vec![(Some("borrow".to_string()), 0)]);
}

#[test]
fn size_is_written_as_it_is_quoted() {
    let mut item = read("struct S { a: A }");
    let (field, _) = StorageField::new(0, &mut item.fields[0]);
    assert_eq!(
        field.size().to_string(),
        "let bytes = < A as storage :: StorageType < H >> :: SLOT_BYTES ; \
        let words = < A as storage :: StorageType < H >> :: REQUIRED_SLOTS ; \
        if words > 0 { total += words ; space = 32 ; } \
        else { if space < bytes { space = 32 ; total += 1 ; } space -= bytes ; }",
    );
}

#[test]
fn paths_without_segments_have_no_expansion() {
    let mut item = read("struct S { a: A, b: B }");
    item.fields[1].field.ty.path = Some(vec![]);
    assert!(!is_expandable(&item));
    assert!(expand_item(&mut item).unwrap_err().is_empty());
}
