//! What the macros give back, said of what goes in.

use proc_macro2::TokenStream;
use vstd::prelude::*;

use crate::attrs::{has_flag, is_flag, without_flag};
use crate::diagnostics::{Diagnostic, DiagnosticView, Expansion, ExpansionView};
use crate::laws::{law_other_variants_are_collected, law_storage_follows_the_struct};
use crate::solidity_error::{
    arm_code, arm_codes, bounded, bytes_code, collected, derive_expansion, derived,
    derives_solidity_error, enum_expansion, from_code, from_codes, held, is_derived, is_enum,
    joined, nested, processed, single_field, singles, started, variant_error, variant_errors,
    with_collected, with_item, with_variant, DeriveSolidityError, DeriveView, VariantField,
};
use crate::storage::{
    borrow_code, borrow_mut_code, borrows_code, consumed, expandable, field_refusal,
    is_integer_name, is_readable, item_expansion, outcome, printed, refusal, refusals, slots_code,
    storage_code, storage_expansion, storage_field, storage_fields, storage_of,
    storage_type_code, struct_expansion, unflagged, Member, Storage, StorageField,
    StorageFieldView,
};
use crate::syntax::{
    attribute_tokens, field_tokens, optional_text, optional_tokens, Attribute, AttributeSyntax,
    EnumItem, EnumView, Field, FieldAttribute, FieldAttributeView, FieldSyntax, Fields, Generics,
    Segment, StructField, StructFieldView, StructItem, StructSyntax, StructView, Type, TypeView,
    Variant, VariantView,
};
use crate::text::{capital, leads, trails};
use crate::tokens::{decimal, mentions, tokens, Token};
use crate::written::law_fields_are_written_in_order;

verus! {

/// A flag is among attributes if one of them, at any place, has its name for a
/// path. Taking it away keeps all the others, in order.
pub proof fn law_flags_are_found_anywhere(attributes: Seq<FieldAttributeView>, flag: Seq<char>)
    ensures
        has_flag(attributes, flag) <==> exists|j: int|
            0 <= j < attributes.len() && (#[trigger] attributes[j]).ident == Some(flag),
        without_flag(attributes, flag) == attributes.filter(
            |attribute: FieldAttributeView| attribute.ident != Some(flag),
        ),
    decreases attributes.len(),
{
    reveal(Seq::filter);
    if attributes.len() > 0 {
        law_flags_are_found_anywhere(attributes.drop_last(), flag);
    } else {
        assert(without_flag(attributes, flag) =~= attributes.filter(
            |attribute: FieldAttributeView| attribute.ident != Some(flag),
        ));
    }
    if has_flag(attributes, flag) {
        let j = choose|j: int|
            0 <= j < attributes.len() && is_flag(#[trigger] attributes[j], flag);
        assert(attributes[j].ident == Some(flag));
    }
    if exists|j: int| 0 <= j < attributes.len() && (#[trigger] attributes[j]).ident == Some(flag) {
        let j = choose|j: int|
            0 <= j < attributes.len() && (#[trigger] attributes[j]).ident == Some(flag);
        assert(is_flag(attributes[j], flag));
    }
}

/// Every field whose type is a path is kept in storage, in the order of the
/// struct and under its own name and type, and no other is. It is reached by its
/// name, or by its place if it has none. It is borrowed if and only if one of
/// its attributes, at any place, is the flag `borrow`.
pub proof fn law_path_fields_are_kept(item: StructView) -> (places: Seq<int>)
    ensures
        storage_of(item).name == item.name,
        storage_of(item).generics == item.generics,
        storage_of(item).fields.len() == places.len(),
        forall|k: int| 0 <= k < places.len() ==> 0 <= #[trigger] places[k] < item.fields.len(),
        forall|k: int, l: int| 0 <= k < l < places.len() ==> places[k] < places[l],
        forall|i: int|
            0 <= i < item.fields.len() ==> ((#[trigger] item.fields[i]).field.ty.path is Some
                <==> places.contains(i)),
        forall|k: int|
            0 <= k < places.len() ==> {
                let kept = #[trigger] storage_of(item).fields[k];
                let field = item.fields[places[k]];
                &&& kept.name == field.field.name
                &&& kept.ty == field.field.ty.tokens
                &&& field.field.name is Some ==> kept.accessor == field.field.name->0
                &&& field.field.name is None ==> kept.accessor == seq![
                    Token::Literal(decimal(places[k] as nat)),
                ]
                &&& kept.borrow <==> exists|j: int|
                    0 <= j < field.attributes.len() && (#[trigger] field.attributes[j]).ident
                        == Some("borrow"@)
            },
{
    let places = law_storage_follows_the_struct(item.fields);
    assert forall|i: int| 0 <= i < item.fields.len() implies ((
    #[trigger] item.fields[i]).field.ty.path is Some <==> places.contains(i)) by {
        if places.contains(i) {
            let k = choose|k: int| 0 <= k < places.len() && places[k] == i;
            assert(item.fields[places[k]].field.ty.path is Some);
        }
    }
    assert forall|k: int| 0 <= k < places.len() implies {
        let kept = #[trigger] storage_of(item).fields[k];
        let field = item.fields[places[k]];
        &&& kept.name == field.field.name
        &&& kept.ty == field.field.ty.tokens
        &&& field.field.name is Some ==> kept.accessor == field.field.name->0
        &&& field.field.name is None ==> kept.accessor == seq![
            Token::Literal(decimal(places[k] as nat)),
        ]
        &&& kept.borrow <==> exists|j: int|
            0 <= j < field.attributes.len() && (#[trigger] field.attributes[j]).ident == Some(
                "borrow"@,
            )
    } by {
        law_flags_are_found_anywhere(item.fields[places[k]].attributes, "borrow"@);
    }
    places
}

/// The two implementations for the field at some place of a struct.
#[verifier::opaque]
spec fn pair(field: StructFieldView, place: int, name: Seq<Token>) -> Seq<Token> {
    let field = StorageFieldView {
        name: field.field.name,
        ty: field.field.ty.tokens,
        accessor: match field.field.name {
            Some(name) => name,
            None => seq![Token::Literal(decimal(place as nat))],
        },
        borrow: true,
    };
    borrow_code(field, name) + borrow_mut_code(field, name)
}

/// One more field of a struct is borrowed, or not.
proof fn lemma_one_more_borrowed(fields: Seq<StructFieldView>, name: Seq<Token>)
    requires
        fields.len() > 0,
    ensures
        borrows_code(storage_fields(fields), name) == borrows_code(
            storage_fields(fields.drop_last()),
            name,
        ) + (if fields.last().field.ty.path is Some && has_flag(
            fields.last().attributes,
            "borrow"@,
        ) {
            pair(fields.last(), fields.len() - 1, name)
        } else {
            Seq::empty()
        }),
{
    reveal(pair);
    let before = storage_fields(fields.drop_last());
    if fields.last().field.ty.path is Some {
        let last = storage_fields(fields).last();
        assert(storage_fields(fields) =~= before + seq![last]);
        law_fields_are_written_in_order(before, seq![last], last, name);
    } else {
        assert(borrows_code(before, name) + Seq::empty() =~= borrows_code(before, name));
    }
}

/// The borrowed fields among the first of a struct, with what is generated for
/// them.
proof fn lemma_borrowed(fields: Seq<StructFieldView>, name: Seq<Token>) -> (places: Seq<int>)
    ensures
        forall|k: int| 0 <= k < places.len() ==> 0 <= #[trigger] places[k] < fields.len(),
        forall|k: int, l: int| 0 <= k < l < places.len() ==> places[k] < places[l],
        forall|i: int|
            0 <= i < fields.len() ==> (places.contains(i) <==> (
            #[trigger] fields[i]).field.ty.path is Some && has_flag(
                fields[i].attributes,
                "borrow"@,
            )),
        borrows_code(storage_fields(fields), name) == joined(
            Seq::new(places.len(), |k: int| pair(fields[places[k]], places[k], name)),
        ),
    decreases fields.len(),
{
    if fields.len() == 0 {
        let places = Seq::<int>::empty();
        assert(Seq::new(places.len(), |k: int| pair(fields[places[k]], places[k], name))
            =~= Seq::empty());
        places
    } else {
        let fewer = fields.drop_last();
        let last = fields.len() - 1;
        let some = lemma_borrowed(fewer, name);
        let flagged = fields.last().field.ty.path is Some && has_flag(
            fields.last().attributes,
            "borrow"@,
        );
        let places = if flagged {
            some.push(last)
        } else {
            some
        };
        lemma_one_more_borrowed(fields, name);
        let before = Seq::new(some.len(), |k: int| pair(fewer[some[k]], some[k], name));
        let all = Seq::new(places.len(), |k: int| pair(fields[places[k]], places[k], name));
        assert forall|k: int| 0 <= k < some.len() implies before[k] == all[k] by {
            assert(places[k] == some[k]);
            assert(fewer[some[k]] == fields[some[k]]);
        }
        if flagged {
            assert(all.drop_last() =~= before);
            assert(all.last() == pair(fields.last(), last, name));
        } else {
            assert(all =~= before);
            assert(joined(before) + Seq::empty() =~= joined(before));
        }
        lemma_push_contains(some, last, fewer.len() as int);
        assert forall|i: int| 0 <= i < fields.len() implies (places.contains(i) <==> (
        #[trigger] fields[i]).field.ty.path is Some && has_flag(
            fields[i].attributes,
            "borrow"@,
        )) by {
            if i < last {
                assert(fewer[i] == fields[i]);
            }
        }
        places
    }
}

/// Behind the struct's own block and the implementation of `StorageType`, the
/// generated code holds the implementations of `Borrow` and `BorrowMut` for
/// exactly those fields with a path type of which some attribute, at any place,
/// is the flag `borrow`. They come in the order of the fields, each pair for the
/// type of its field, and they lead to that field.
pub proof fn law_flagged_fields_are_borrowed(item: StructView) -> (places: Seq<int>)
    ensures
        forall|k: int| 0 <= k < places.len() ==> 0 <= #[trigger] places[k] < item.fields.len(),
        forall|k: int, l: int| 0 <= k < l < places.len() ==> places[k] < places[l],
        forall|i: int|
            0 <= i < item.fields.len() ==> (places.contains(i) <==> (
            #[trigger] item.fields[i]).field.ty.path is Some && exists|j: int|
                0 <= j < item.fields[i].attributes.len() && (
                #[trigger] item.fields[i].attributes[j]).ident == Some("borrow"@)),
        storage_code(storage_of(item)) == slots_code(storage_of(item)) + storage_type_code(
            storage_of(item),
        ) + joined(
            Seq::new(
                places.len(),
                |k: int|
                    {
                        let field = StorageFieldView {
                            name: item.fields[places[k]].field.name,
                            ty: item.fields[places[k]].field.ty.tokens,
                            accessor: match item.fields[places[k]].field.name {
                                Some(name) => name,
                                None => seq![Token::Literal(decimal(places[k] as nat))],
                            },
                            borrow: true,
                        };
                        borrow_code(field, item.name) + borrow_mut_code(field, item.name)
                    },
            ),
        ),
{
    let places = lemma_borrowed(item.fields, item.name);
    assert(Seq::new(places.len(), |k: int| pair(item.fields[places[k]], places[k], item.name))
        =~= Seq::new(
        places.len(),
        |k: int|
            {
                let field = StorageFieldView {
                    name: item.fields[places[k]].field.name,
                    ty: item.fields[places[k]].field.ty.tokens,
                    accessor: match item.fields[places[k]].field.name {
                        Some(name) => name,
                        None => seq![Token::Literal(decimal(places[k] as nat))],
                    },
                    borrow: true,
                };
                borrow_code(field, item.name) + borrow_mut_code(field, item.name)
            },
    )) by {
        reveal(pair);
    }
    assert forall|i: int| 0 <= i < item.fields.len() implies (places.contains(i) <==> (
    #[trigger] item.fields[i]).field.ty.path is Some && exists|j: int|
        0 <= j < item.fields[i].attributes.len() && (
        #[trigger] item.fields[i].attributes[j]).ident == Some("borrow"@)) by {
        law_flags_are_found_anywhere(item.fields[i].attributes, "borrow"@);
    }
    places
}

/// The integer names are a letter for the sign, small or capital, and a width.
proof fn lemma_integer_names(name: Seq<char>)
    ensures
        is_integer_name(name) <==> (name.len() >= 2 && (name[0] == 'u' || name[0]
            == 'i' || name[0] == 'U' || name[0] == 'I') && (name.skip(1) == "8"@ || name.skip(1)
            == "16"@ || name.skip(1) == "32"@ || name.skip(1) == "64"@ || name.skip(1)
            == "128"@)),
        is_integer_name(name) ==> name.map_values(|c: char| capital(c))
            == name.update(
            0,
            if name[0] == 'u' || name[0] == 'U' {
                'U'
            } else {
                'I'
            },
        ),
{
    reveal_strlit("u8");
    reveal_strlit("u16");
    reveal_strlit("u32");
    reveal_strlit("u64");
    reveal_strlit("u128");
    reveal_strlit("i8");
    reveal_strlit("i16");
    reveal_strlit("i32");
    reveal_strlit("i64");
    reveal_strlit("i128");
    reveal_strlit("U8");
    reveal_strlit("U16");
    reveal_strlit("U32");
    reveal_strlit("U64");
    reveal_strlit("U128");
    reveal_strlit("I8");
    reveal_strlit("I16");
    reveal_strlit("I32");
    reveal_strlit("I64");
    reveal_strlit("I128");
    reveal_strlit("8");
    reveal_strlit("16");
    reveal_strlit("32");
    reveal_strlit("64");
    reveal_strlit("128");
    if name.len() >= 2 {
        assert(name.skip(1).len() == name.len() - 1);
    }
    assert(name == "u8"@ ==> name.skip(1) =~= "8"@);
    assert(name == "u16"@ ==> name.skip(1) =~= "16"@);
    assert(name == "u32"@ ==> name.skip(1) =~= "32"@);
    assert(name == "u64"@ ==> name.skip(1) =~= "64"@);
    assert(name == "u128"@ ==> name.skip(1) =~= "128"@);
    assert(name == "i8"@ ==> name.skip(1) =~= "8"@);
    assert(name == "i16"@ ==> name.skip(1) =~= "16"@);
    assert(name == "i32"@ ==> name.skip(1) =~= "32"@);
    assert(name == "i64"@ ==> name.skip(1) =~= "64"@);
    assert(name == "i128"@ ==> name.skip(1) =~= "128"@);
    assert(name == "U8"@ ==> name.skip(1) =~= "8"@);
    assert(name == "U16"@ ==> name.skip(1) =~= "16"@);
    assert(name == "U32"@ ==> name.skip(1) =~= "32"@);
    assert(name == "U64"@ ==> name.skip(1) =~= "64"@);
    assert(name == "U128"@ ==> name.skip(1) =~= "128"@);
    assert(name == "I8"@ ==> name.skip(1) =~= "8"@);
    assert(name == "I16"@ ==> name.skip(1) =~= "16"@);
    assert(name == "I32"@ ==> name.skip(1) =~= "32"@);
    assert(name == "I64"@ ==> name.skip(1) =~= "64"@);
    assert(name == "I128"@ ==> name.skip(1) =~= "128"@);
    if name.len() == 2 && name[0] == 'u' && name.skip(1) == "8"@ {
        assert(name[1] == name.skip(1)[0]);
        assert(name =~= "u8"@);
    }
    if name.len() == 3 && name[0] == 'u' && name.skip(1) == "16"@ {
        assert(name[1] == name.skip(1)[0]);
        assert(name[2] == name.skip(1)[1]);
        assert(name =~= "u16"@);
    }
    if name.len() == 3 && name[0] == 'u' && name.skip(1) == "32"@ {
        assert(name[1] == name.skip(1)[0]);
        assert(name[2] == name.skip(1)[1]);
        assert(name =~= "u32"@);
    }
    if name.len() == 3 && name[0] == 'u' && name.skip(1) == "64"@ {
        assert(name[1] == name.skip(1)[0]);
        assert(name[2] == name.skip(1)[1]);
        assert(name =~= "u64"@);
    }
    if name.len() == 4 && name[0] == 'u' && name.skip(1) == "128"@ {
        assert(name[1] == name.skip(1)[0]);
        assert(name[2] == name.skip(1)[1]);
        assert(name[3] == name.skip(1)[2]);
        assert(name =~= "u128"@);
    }
    if name.len() == 2 && name[0] == 'i' && name.skip(1) == "8"@ {
        assert(name[1] == name.skip(1)[0]);
        assert(name =~= "i8"@);
    }
    if name.len() == 3 && name[0] == 'i' && name.skip(1) == "16"@ {
        assert(name[1] == name.skip(1)[0]);
        assert(name[2] == name.skip(1)[1]);
        assert(name =~= "i16"@);
    }
    if name.len() == 3 && name[0] == 'i' && name.skip(1) == "32"@ {
        assert(name[1] == name.skip(1)[0]);
        assert(name[2] == name.skip(1)[1]);
        assert(name =~= "i32"@);
    }
    if name.len() == 3 && name[0] == 'i' && name.skip(1) == "64"@ {
        assert(name[1] == name.skip(1)[0]);
        assert(name[2] == name.skip(1)[1]);
        assert(name =~= "i64"@);
    }
    if name.len() == 4 && name[0] == 'i' && name.skip(1) == "128"@ {
        assert(name[1] == name.skip(1)[0]);
        assert(name[2] == name.skip(1)[1]);
        assert(name[3] == name.skip(1)[2]);
        assert(name =~= "i128"@);
    }
    if name.len() == 2 && name[0] == 'U' && name.skip(1) == "8"@ {
        assert(name[1] == name.skip(1)[0]);
        assert(name =~= "U8"@);
    }
    if name.len() == 3 && name[0] == 'U' && name.skip(1) == "16"@ {
        assert(name[1] == name.skip(1)[0]);
        assert(name[2] == name.skip(1)[1]);
        assert(name =~= "U16"@);
    }
    if name.len() == 3 && name[0] == 'U' && name.skip(1) == "32"@ {
        assert(name[1] == name.skip(1)[0]);
        assert(name[2] == name.skip(1)[1]);
        assert(name =~= "U32"@);
    }
    if name.len() == 3 && name[0] == 'U' && name.skip(1) == "64"@ {
        assert(name[1] == name.skip(1)[0]);
        assert(name[2] == name.skip(1)[1]);
        assert(name =~= "U64"@);
    }
    if name.len() == 4 && name[0] == 'U' && name.skip(1) == "128"@ {
        assert(name[1] == name.skip(1)[0]);
        assert(name[2] == name.skip(1)[1]);
        assert(name[3] == name.skip(1)[2]);
        assert(name =~= "U128"@);
    }
    if name.len() == 2 && name[0] == 'I' && name.skip(1) == "8"@ {
        assert(name[1] == name.skip(1)[0]);
        assert(name =~= "I8"@);
    }
    if name.len() == 3 && name[0] == 'I' && name.skip(1) == "16"@ {
        assert(name[1] == name.skip(1)[0]);
        assert(name[2] == name.skip(1)[1]);
        assert(name =~= "I16"@);
    }
    if name.len() == 3 && name[0] == 'I' && name.skip(1) == "32"@ {
        assert(name[1] == name.skip(1)[0]);
        assert(name[2] == name.skip(1)[1]);
        assert(name =~= "I32"@);
    }
    if name.len() == 3 && name[0] == 'I' && name.skip(1) == "64"@ {
        assert(name[1] == name.skip(1)[0]);
        assert(name[2] == name.skip(1)[1]);
        assert(name =~= "I64"@);
    }
    if name.len() == 4 && name[0] == 'I' && name.skip(1) == "128"@ {
        assert(name[1] == name.skip(1)[0]);
        assert(name[2] == name.skip(1)[1]);
        assert(name[3] == name.skip(1)[2]);
        assert(name =~= "I128"@);
    }
    if is_integer_name(name) {
        assert(name.map_values(|c: char| capital(c)) =~= name.update(
            0,
            if name[0] == 'u' || name[0] == 'U' {
                'U'
            } else {
                'I'
            },
        ));
    }
}

/// A type is refused by its name. Fixed-width integers, signed or not, in small
/// letters or capitals, are refused in favour of the storage type of the same
/// sign and width. The other primitive numbers and `bool` are refused too, and
/// nothing else is.
pub proof fn law_types_are_refused_by_name(name: Seq<char>)
    ensures
        ({
            let refused = "Type `"@ + name + "` not supported for EVM state storage"@;
            let integer = name.len() >= 2 && (name[0] == 'u' || name[0] == 'i' || name[0] == 'U'
                || name[0] == 'I') && (name.skip(1) == "8"@ || name.skip(1) == "16"@ || name.skip(1)
                == "32"@ || name.skip(1) == "64"@ || name.skip(1) == "128"@);
            &&& integer ==> refusal(name) == Some(
                refused + ". Instead try `Storage"@ + name.update(
                    0,
                    if name[0] == 'u' || name[0] == 'U' {
                        'U'
                    } else {
                        'I'
                    },
                ) + "`."@,
            )
            &&& name == "usize"@ || name == "isize"@ ==> refusal(name) == Some(refused + "."@)
            &&& name == "bool"@ ==> refusal(name) == Some(
                refused + ". Instead try `StorageBool`."@,
            )
            &&& name == "f32"@ || name == "f64"@ ==> refusal(name) == Some(
                refused + ". Consider fixed-point arithmetic."@,
            )
            &&& refusal(name) is Some ==> integer || name == "usize"@ || name == "isize"@ || name
                == "bool"@ || name == "f32"@ || name == "f64"@
        }),
{
    lemma_integer_names(name);
    reveal_strlit("usize");
    reveal_strlit("isize");
    reveal_strlit("bool");
    reveal_strlit("f32");
    reveal_strlit("f64");
    reveal_strlit("8");
    reveal_strlit("16");
    reveal_strlit("32");
    reveal_strlit("64");
    reveal_strlit("128");
    assert("usize"@[0] == 'u' && "usize"@.skip(1)[0] == 's');
    assert("isize"@[0] == 'i' && "isize"@.skip(1)[0] == 's');
    assert("bool"@[0] == 'b');
    assert("f32"@[0] == 'f');
    assert("f64"@[0] == 'f');
    assert("f32"@[1] == '3' && "f64"@[1] == '6');
    assert("bool"@.len() == 4 && "usize"@.len() == 5);
}

/// The reported fields among the first of a struct.
proof fn lemma_reported(fields: Seq<StructFieldView>) -> (places: Seq<int>)
    ensures
        refusals(fields).len() == places.len(),
        forall|k: int| 0 <= k < places.len() ==> 0 <= #[trigger] places[k] < fields.len(),
        forall|k: int, l: int| 0 <= k < l < places.len() ==> places[k] < places[l],
        forall|i: int|
            0 <= i < fields.len() ==> (places.contains(i) <==> field_refusal(
                (#[trigger] fields[i]).field,
            ) is Some),
        forall|k: int|
            0 <= k < places.len() ==> field_refusal(fields[places[k]].field) == Some(
                #[trigger] refusals(fields)[k],
            ),
    decreases fields.len(),
{
    if fields.len() == 0 {
        seq![]
    } else {
        let fewer = fields.drop_last();
        let last = fields.len() - 1;
        let some = lemma_reported(fewer);
        let found = field_refusal(fields.last().field) is Some;
        let places = if found {
            some.push(last)
        } else {
            some
        };
        assert forall|k: int| 0 <= k < places.len() implies field_refusal(fields[places[k]].field)
            == Some(#[trigger] refusals(fields)[k]) by {
            if k < some.len() {
                assert(fewer[some[k]] == fields[some[k]]);
                assert(refusals(fields)[k] == refusals(fewer)[k]);
            }
        }
        lemma_push_contains(some, last, fewer.len() as int);
        assert forall|i: int| 0 <= i < fields.len() implies (places.contains(i) <==> field_refusal(
            (#[trigger] fields[i]).field,
        ) is Some) by {
            if i < last {
                assert(fewer[i] == fields[i]);
            }
        }
        places
    }
}

/// Exactly those fields are reported whose type is a path with a last segment
/// that is refused by its name: each once, in order, where the field stands, with
/// the message for that name.
pub proof fn law_refused_fields_are_reported(fields: Seq<StructFieldView>) -> (places: Seq<int>)
    ensures
        refusals(fields).len() == places.len(),
        forall|k: int| 0 <= k < places.len() ==> 0 <= #[trigger] places[k] < fields.len(),
        forall|k: int, l: int| 0 <= k < l < places.len() ==> places[k] < places[l],
        forall|i: int|
            0 <= i < fields.len() ==> (places.contains(i) <==> {
                let path = (#[trigger] fields[i]).field.ty.path;
                path is Some && path->0.len() > 0 && refusal(path->0.last().ident) is Some
            }),
        forall|k: int|
            0 <= k < places.len() ==> {
                let field = fields[places[k]].field;
                let report = #[trigger] refusals(fields)[k];
                &&& report.at == field.tokens
                &&& refusal(field.ty.path->0.last().ident) == Some(report.message)
            },
{
    lemma_reported(fields)
}

/// A field at some place of a struct is read by its own name and type, is
/// reached by its name, or by its place if it has none, and is borrowed if and
/// only if one of its attributes, at any place, is the flag `borrow`. It loses
/// that flag and nothing else. It is reported where it stands if its type is
/// refused by the name of the last segment of its path.
pub proof fn law_fields_are_read(index: int, field: StructFieldView)
    ensures
        storage_field(index, field).name == field.field.name,
        storage_field(index, field).ty == field.field.ty.tokens,
        field.field.name is Some ==> storage_field(index, field).accessor == field.field.name->0,
        field.field.name is None ==> storage_field(index, field).accessor == seq![
            Token::Literal(decimal(index as nat)),
        ],
        storage_field(index, field).borrow <==> exists|j: int|
            0 <= j < field.attributes.len() && (#[trigger] field.attributes[j]).ident == Some(
                "borrow"@,
            ),
        unflagged(field).field == field.field,
        unflagged(field).attributes == field.attributes.filter(
            |attribute: FieldAttributeView| attribute.ident != Some("borrow"@),
        ),
        ({
            let path = field.field.ty.path;
            let refused = path is Some && path->0.len() > 0 && refusal(
                path->0.last().ident,
            ) is Some;
            &&& refused ==> field_refusal(field.field) == Some(
                DiagnosticView {
                    at: field.field.tokens,
                    message: refusal(path->0.last().ident)->0,
                },
            )
            &&& !refused ==> field_refusal(field.field) is None
        }),
{
    law_flags_are_found_anywhere(field.attributes, "borrow"@);
}

/// Flags are taken away from the fields with a path type, and nothing else
/// changes in a struct.
pub proof fn law_only_flags_are_taken(item: StructView)
    ensures
        consumed(item).name == item.name,
        consumed(item).generics == item.generics,
        consumed(item).fields.len() == item.fields.len(),
        forall|i: int|
            0 <= i < item.fields.len() ==> {
                let after = #[trigger] consumed(item).fields[i];
                &&& after.field == item.fields[i].field
                &&& item.fields[i].field.ty.path is None ==> after == item.fields[i]
                &&& item.fields[i].field.ty.path is Some ==> after.attributes
                    == item.fields[i].attributes.filter(
                    |attribute: FieldAttributeView| attribute.ident != Some("borrow"@),
                )
            },
{
    assert forall|i: int| 0 <= i < item.fields.len() implies {
        let after = #[trigger] consumed(item).fields[i];
        &&& after.field == item.fields[i].field
        &&& item.fields[i].field.ty.path is None ==> after == item.fields[i]
        &&& item.fields[i].field.ty.path is Some ==> after.attributes
            == item.fields[i].attributes.filter(
            |attribute: FieldAttributeView| attribute.ident != Some("borrow"@),
        )
    } by {
        law_flags_are_found_anywhere(item.fields[i].attributes, "borrow"@);
    }
}

/// Reading a struct item keeps its name, its generics, and its fields in order,
/// each with its name, type and tokens, and with its attributes by their paths
/// and places.
pub proof fn law_structs_are_read_whole(item: StructSyntax)
    ensures
        item.read().name == item.name,
        item.read().generics == item.generics,
        item.read().fields.len() == item.fields.len(),
        forall|i: int|
            0 <= i < item.fields.len() ==> {
                let read = #[trigger] item.read().fields[i];
                &&& read.field.name == item.fields[i].name
                &&& read.field.ty == item.fields[i].ty
                &&& read.field.tokens == attribute_tokens(item.fields[i].attributes)
                    + item.fields[i].body
                &&& read.attributes.len() == item.fields[i].attributes.len()
                &&& forall|j: int|
                    0 <= j < read.attributes.len() ==> (#[trigger] read.attributes[j]).ident
                        == item.fields[i].attributes[j].ident && read.attributes[j].place == j
            },
{
}

/// Code is generated for a struct if and only if some field with a path type has
/// a name, and no field with a path type is without a segment, or without a name
/// so far back that its place is no index.
pub proof fn law_when_code_is_generated(fields: Seq<StructFieldView>)
    ensures
        expandable(fields) <==> (exists|i: int|
            0 <= i < fields.len() && (#[trigger] fields[i]).field.ty.path is Some
                && fields[i].field.name is Some) && (forall|i: int|
            0 <= i < fields.len() && (#[trigger] fields[i]).field.ty.path is Some
                ==> fields[i].field.ty.path->0.len() > 0 && (fields[i].field.name is None ==> i
                < 0xffff_ffff)),
{
    assert forall|i: int|
        0 <= i < fields.len() && (#[trigger] fields[i]).field.ty.path is Some implies (
    is_readable(i, fields[i].field) <==> fields[i].field.ty.path->0.len() > 0 && (
    fields[i].field.name is None ==> i < 0xffff_ffff)) by {}
    if expandable(fields) {
        let i = choose|i: int|
            0 <= i < fields.len() && (#[trigger] fields[i]).field.ty.path is Some
                && fields[i].field.name is Some;
        assert(fields[i].field.name is Some);
    }
}

/// What `#[storage]` gives back. Arguments are reported first, whatever else
/// happens. What does not parse becomes the compile errors. A struct is given
/// back with everything but the flags `borrow` on its fields with a path type,
/// behind it stands the generated code, and its refused fields are reported. A
/// struct that no code can be generated for is only reported.
pub proof fn law_storage_gives_back(
    attr: Seq<Token>,
    parsed: Result<StructSyntax, Seq<Token>>,
)
    ensures
        ({
            let argued = if attr.len() == 0 {
                Seq::<DiagnosticView>::empty()
            } else {
                seq![DiagnosticView { at: attr, message: "this macro is not configurable"@ }]
            };
            match parsed {
                Err(error) => storage_expansion(attr, parsed) == Ok::<
                    ExpansionView,
                    Seq<DiagnosticView>,
                >(ExpansionView { tokens: error, diagnostics: argued }),
                Ok(item) => if expandable(item.read().fields) {
                    storage_expansion(attr, parsed) == Ok::<ExpansionView, Seq<DiagnosticView>>(
                        ExpansionView {
                            tokens: item.head + field_tokens(
                                Seq::new(
                                    item.fields.len(),
                                    |i: int|
                                        FieldSyntax {
                                            attributes: if item.fields[i].ty.path is Some {
                                                item.fields[i].attributes.filter(
                                                    |attribute: AttributeSyntax|
                                                        attribute.ident != Some("borrow"@),
                                                )
                                            } else {
                                                item.fields[i].attributes
                                            },
                                            ..item.fields[i]
                                        },
                                ),
                            ) + item.tail + storage_code(storage_of(item.read())),
                            diagnostics: argued + refusals(item.read().fields),
                        },
                    )
                } else {
                    storage_expansion(attr, parsed) == Err::<ExpansionView, Seq<DiagnosticView>>(
                        argued + refusals(item.read().fields),
                    )
                },
            }
        }),
{
    if let Ok(item) = parsed {
        assert(printed(item).fields =~= Seq::new(
            item.fields.len(),
            |i: int|
                FieldSyntax {
                    attributes: if item.fields[i].ty.path is Some {
                        item.fields[i].attributes.filter(
                            |attribute: AttributeSyntax| attribute.ident != Some("borrow"@),
                        )
                    } else {
                        item.fields[i].attributes
                    },
                    ..item.fields[i]
                },
        ));
    }
}

/// What becomes of a struct item is what becomes of it under the macro without
/// arguments.
pub proof fn law_structs_give_back(item: StructSyntax)
    ensures
        struct_expansion(item) == storage_expansion(Seq::empty(), Ok(item)),
{
    match struct_expansion(item) {
        Ok(expansion) => {
            assert(Seq::<DiagnosticView>::empty() + expansion.diagnostics
                =~= expansion.diagnostics);
        },
        Err(diagnostics) => {
            assert(Seq::<DiagnosticView>::empty() + diagnostics =~= diagnostics);
        },
    }
}

/// What is generated for a struct that was read is its storage code, and its
/// refused fields are reported.
pub proof fn law_items_give_back(item: StructView)
    ensures
        expandable(item.fields) ==> item_expansion(item) == Ok::<
            ExpansionView,
            Seq<DiagnosticView>,
        >(
            ExpansionView {
                tokens: storage_code(storage_of(item)),
                diagnostics: refusals(item.fields),
            },
        ),
        !expandable(item.fields) ==> item_expansion(item) == Err::<
            ExpansionView,
            Seq<DiagnosticView>,
        >(refusals(item.fields)),
{
}

/// A type counts as an enum by the last segment of its path, if that has no
/// generic arguments. If an enum of that name is known, it counts if one of its
/// attributes is a `derive` that mentions `SolidityError`. If not, it counts if
/// the name ends in `Error` and does not begin with `My`.
pub proof fn law_types_count_as_enums(seen: Map<Seq<char>, EnumView>, ty: TypeView)
    ensures
        is_enum(seen, ty) <==> ty.path is Some && ty.path->0.len() > 0 && ty.path->0.last().bare && {
            let name = ty.path->0.last().ident;
            if seen.contains_key(name) {
                exists|i: int|
                    0 <= i < seen[name].attributes.len() && (
                    #[trigger] seen[name].attributes[i]).ident == Some("derive"@)
                        && seen[name].attributes[i].list is Some && mentions(
                        seen[name].attributes[i].list->0,
                        "SolidityError"@,
                    )
            } else {
                trails("Error"@, name) && !leads("My"@, name)
            }
        },
{
    if ty.last() is Some && seen.contains_key(ty.last()->0.ident) {
        let attributes = seen[ty.last()->0.ident].attributes;
        if is_derived(seen[ty.last()->0.ident]) {
            let i = choose|i: int|
                0 <= i < attributes.len() && derives_solidity_error(
                    #[trigger] attributes[i],
                );
            assert(attributes[i].ident == Some("derive"@));
        }
        if exists|i: int|
            0 <= i < attributes.len() && (#[trigger] attributes[i]).ident == Some("derive"@)
                && attributes[i].list is Some && mentions(
                attributes[i].list->0,
                "SolidityError"@,
            ) {
            let i = choose|i: int|
                0 <= i < attributes.len() && (#[trigger] attributes[i]).ident == Some("derive"@)
                    && attributes[i].list is Some && mentions(
                    attributes[i].list->0,
                    "SolidityError"@,
                );
            assert(derives_solidity_error(attributes[i]));
        }
    }
}

/// A variant holds a known enum if it is a tuple of one whose type counts as an
/// enum and has the name of the known one.
pub proof fn law_variants_hold_known_enums(
    seen: Map<Seq<char>, EnumView>,
    variant: VariantView,
    inner: EnumView,
)
    ensures
        held(seen, variant) == Some(inner) <==> {
            &&& variant.fields is Unnamed
            &&& variant.fields->Unnamed_0.len() == 1
            &&& is_enum(seen, variant.fields->Unnamed_0[0].ty)
            &&& seen.contains_key(variant.fields->Unnamed_0[0].ty.path->0.last().ident)
            &&& seen[variant.fields->Unnamed_0[0].ty.path->0.last().ident] == inner
        },
        nested(seen, variant) == Some(inner) <==> held(seen, variant) == Some(inner) && bounded(
            seen,
            inner.variants,
            seen.len(),
        ),
{
}

/// Variants hold known enums at most so deep if those they hold do so one less
/// deep; no deep at all if they hold none.
pub proof fn law_depth_is_that_of_held_enums(
    seen: Map<Seq<char>, EnumView>,
    variants: Seq<VariantView>,
    depth: nat,
)
    ensures
        bounded(seen, variants, 0) <==> forall|i: int|
            0 <= i < variants.len() ==> held(seen, #[trigger] variants[i]) is None,
        bounded(seen, variants, depth + 1) <==> forall|i: int|
            0 <= i < variants.len() && held(seen, #[trigger] variants[i]) is Some ==> bounded(
                seen,
                held(seen, variants[i])->0.variants,
                depth,
            ),
{
    assert((depth + 1 - 1) as nat == depth);
    if forall|i: int|
        0 <= i < variants.len() && held(seen, #[trigger] variants[i]) is Some ==> bounded(
            seen,
            held(seen, variants[i])->0.variants,
            depth,
        ) {
        assert(bounded(seen, variants, depth + 1));
    }
    if bounded(seen, variants, depth + 1) {
        assert forall|i: int|
            0 <= i < variants.len() && held(seen, #[trigger] variants[i]) is Some implies bounded(
            seen,
            held(seen, variants[i])->0.variants,
            depth,
        ) by {
            assert(bounded(seen, held(seen, variants[i])->0.variants, (depth + 1 - 1) as nat));
        }
    }
}

/// A variant that no enum takes the place of is gathered by its own name with
/// its field if it is a tuple of one. If not, it is reported: where its fields
/// stand, or where it stands itself if it has none.
pub proof fn law_variants_are_gathered_or_reported(
    seen: Map<Seq<char>, EnumView>,
    variant: VariantView,
)
    ensures
        collected(seen, Seq::empty()).variants == Seq::<VariantField>::empty(),
        collected(seen, Seq::empty()).diagnostics == Seq::<DiagnosticView>::empty(),
        nested(seen, variant) is None ==> ({
            let one = variant.fields is Unnamed && variant.fields->Unnamed_0.len() == 1;
            &&& one ==> collected(seen, seq![variant]).variants == seq![
                (variant.name, variant.fields->Unnamed_0[0]),
            ]
            &&& one ==> collected(seen, seq![variant]).diagnostics
                == Seq::<DiagnosticView>::empty()
            &&& !one ==> collected(seen, seq![variant]).variants == Seq::<VariantField>::empty()
            &&& !one ==> collected(seen, seq![variant]).diagnostics == seq![
                DiagnosticView {
                    at: if variant.fields is Unit {
                        variant.tokens
                    } else {
                        variant.fields_tokens
                    },
                    message: "variant not a 1-tuple"@,
                },
            ]
        }),
{
    if nested(seen, variant) is None {
        law_other_variants_are_collected(seen, variant);
    }
}

/// Every step of the derive macro changes what it is for, and nothing else.
pub proof fn law_steps_change_only_their_part(
    derive: DeriveView,
    variant: VariantField,
    item: EnumView,
    variants: Seq<VariantView>,
)
    ensures
        started(derive.name) == (DeriveView {
            name: derive.name,
            from_impls: seq![],
            match_arms: seq![],
            seen_items: Map::empty(),
            variants_to_process: seq![],
            diagnostics: seq![],
        }),
        with_variant(derive, variant) == (DeriveView {
            from_impls: derive.from_impls + seq![from_code(derive.name, variant)],
            match_arms: derive.match_arms + seq![arm_code(derive.name, variant)],
            ..derive
        }),
        with_item(derive, item) == (DeriveView {
            seen_items: derive.seen_items.insert(item.ident, item),
            ..derive
        }),
        with_collected(derive, variants) == (DeriveView {
            variants_to_process: derive.variants_to_process + collected(
                derive.seen_items,
                variants,
            ).variants,
            diagnostics: derive.diagnostics + collected(derive.seen_items, variants).diagnostics,
            ..derive
        }),
        processed(derive) == (DeriveView {
            from_impls: derive.from_impls + Seq::new(
                derive.variants_to_process.len(),
                |k: int| from_code(derive.name, derive.variants_to_process[k]),
            ),
            match_arms: derive.match_arms + Seq::new(
                derive.variants_to_process.len(),
                |k: int| arm_code(derive.name, derive.variants_to_process[k]),
            ),
            variants_to_process: seq![],
            ..derive
        }),
{
    assert(with_variant(derive, variant).from_impls =~= derive.from_impls + seq![
        from_code(derive.name, variant),
    ]);
    assert(with_variant(derive, variant).match_arms =~= derive.match_arms + seq![
        arm_code(derive.name, variant),
    ]);
    assert(from_codes(derive.name, derive.variants_to_process) =~= Seq::new(
        derive.variants_to_process.len(),
        |k: int| from_code(derive.name, derive.variants_to_process[k]),
    ));
    assert(arm_codes(derive.name, derive.variants_to_process) =~= Seq::new(
        derive.variants_to_process.len(),
        |k: int| arm_code(derive.name, derive.variants_to_process[k]),
    ));
}

/// The tuples of one among variants, and the others.
proof fn lemma_sorted_out(variants: Seq<VariantView>) -> (places: (Seq<int>, Seq<int>))
    ensures
        singles(variants).len() == places.0.len(),
        variant_errors(variants).len() == places.1.len(),
        forall|k: int| 0 <= k < places.0.len() ==> 0 <= #[trigger] places.0[k] < variants.len(),
        forall|k: int| 0 <= k < places.1.len() ==> 0 <= #[trigger] places.1[k] < variants.len(),
        forall|k: int, l: int| 0 <= k < l < places.0.len() ==> places.0[k] < places.0[l],
        forall|k: int, l: int| 0 <= k < l < places.1.len() ==> places.1[k] < places.1[l],
        forall|i: int|
            0 <= i < variants.len() ==> (places.0.contains(i) <==> single_field(
                #[trigger] variants[i],
            ) is Some),
        forall|i: int|
            0 <= i < variants.len() ==> (places.1.contains(i) <==> single_field(
                #[trigger] variants[i],
            ) is None),
        forall|k: int|
            0 <= k < places.0.len() ==> #[trigger] singles(variants)[k] == (
                variants[places.0[k]].name,
                single_field(variants[places.0[k]])->0,
            ),
        forall|k: int|
            0 <= k < places.1.len() ==> #[trigger] variant_errors(variants)[k]
                == variant_error(variants[places.1[k]]),
    decreases variants.len(),
{
    if variants.len() == 0 {
        (seq![], seq![])
    } else {
        let fewer = variants.drop_last();
        let last = variants.len() - 1;
        let some = lemma_sorted_out(fewer);
        let one = single_field(variants.last()) is Some;
        let places = if one {
            (some.0.push(last), some.1)
        } else {
            (some.0, some.1.push(last))
        };
        assert forall|k: int| 0 <= k < places.0.len() implies #[trigger] singles(variants)[k] == (
            variants[places.0[k]].name,
            single_field(variants[places.0[k]])->0,
        ) by {
            if k < some.0.len() {
                assert(singles(variants)[k] == singles(fewer)[k]);
                assert(fewer[some.0[k]] == variants[some.0[k]]);
            }
        }
        assert forall|k: int| 0 <= k < places.1.len() implies #[trigger] variant_errors(variants)[k]
            == variant_error(variants[places.1[k]]) by {
            if k < some.1.len() {
                assert(variant_errors(variants)[k] == variant_errors(fewer)[k]);
                assert(fewer[some.1[k]] == variants[some.1[k]]);
            }
        }
        lemma_push_contains(some.0, last, fewer.len() as int);
        lemma_push_contains(some.1, last, fewer.len() as int);
        assert forall|i: int| 0 <= i < variants.len() implies (places.0.contains(i)
            <==> single_field(#[trigger] variants[i]) is Some) && (places.1.contains(i)
            <==> single_field(variants[i]) is None) by {
            if i < last {
                assert(fewer[i] == variants[i]);
            }
        }
        places
    }
}

/// What a sequence of places holds once another is put behind it.
proof fn lemma_push_contains(places: Seq<int>, last: int, bound: int)
    requires
        forall|k: int| 0 <= k < places.len() ==> 0 <= #[trigger] places[k] < bound,
        bound <= last,
    ensures
        !places.contains(last),
        forall|i: int|
            #[trigger] places.push(last).contains(i) <==> places.contains(i) || i == last,
{
    assert forall|i: int| #[trigger] places.push(last).contains(i) <==> places.contains(i) || i
        == last by {
        if places.contains(i) {
            let k = choose|k: int| 0 <= k < places.len() && places[k] == i;
            assert(places.push(last)[k] == i);
        }
        assert(places.push(last)[places.len() as int] == last);
        if places.push(last).contains(i) && i != last {
            let k = choose|k: int| 0 <= k < places.push(last).len() && places.push(last)[k] == i;
            assert(places[k] == i);
        }
    }
}

/// What `#[derive(SolidityError)]` gives back for an enum. The variants that are
/// tuples of one, which stand at the first places, each have a conversion from
/// their type, and an arm in the conversion to bytes, in order. The others,
/// which stand at the second places, are each reported, in order.
pub proof fn law_derive_gives_back(item: EnumView) -> (places: (Seq<int>, Seq<int>))
    ensures
        forall|k: int|
            0 <= k < places.0.len() ==> 0 <= #[trigger] places.0[k] < item.variants.len(),
        forall|k: int|
            0 <= k < places.1.len() ==> 0 <= #[trigger] places.1[k] < item.variants.len(),
        forall|k: int, l: int| 0 <= k < l < places.0.len() ==> places.0[k] < places.0[l],
        forall|k: int, l: int| 0 <= k < l < places.1.len() ==> places.1[k] < places.1[l],
        forall|i: int|
            0 <= i < item.variants.len() ==> {
                let one = (#[trigger] item.variants[i]).fields is Unnamed
                    && item.variants[i].fields->Unnamed_0.len() == 1;
                (places.0.contains(i) <==> one) && (places.1.contains(i) <==> !one)
            },
        enum_expansion(item).tokens == joined(
            Seq::new(
                places.0.len(),
                |k: int|
                    from_code(
                        item.name,
                        (
                            item.variants[places.0[k]].name,
                            item.variants[places.0[k]].fields->Unnamed_0[0],
                        ),
                    ),
            ),
        ) + bytes_code(
            item.name,
            Seq::new(
                places.0.len(),
                |k: int|
                    arm_code(
                        item.name,
                        (
                            item.variants[places.0[k]].name,
                            item.variants[places.0[k]].fields->Unnamed_0[0],
                        ),
                    ),
            ),
        ),
        enum_expansion(item).diagnostics == Seq::new(
            places.1.len(),
            |k: int|
                DiagnosticView {
                    at: if item.variants[places.1[k]].fields is Unit {
                        item.variants[places.1[k]].tokens
                    } else {
                        item.variants[places.1[k]].fields_tokens
                    },
                    message: "variant not a 1-tuple"@,
                },
        ),
        derived(item).name == item.name,
        derived(item).from_impls == Seq::new(
            places.0.len(),
            |k: int|
                from_code(
                    item.name,
                    (
                        item.variants[places.0[k]].name,
                        item.variants[places.0[k]].fields->Unnamed_0[0],
                    ),
                ),
        ),
        derived(item).match_arms == Seq::new(
            places.0.len(),
            |k: int|
                arm_code(
                    item.name,
                    (
                        item.variants[places.0[k]].name,
                        item.variants[places.0[k]].fields->Unnamed_0[0],
                    ),
                ),
        ),
        derived(item).seen_items == Map::<Seq<char>, EnumView>::empty().insert(item.ident, item),
        derived(item).variants_to_process == Seq::<VariantField>::empty(),
        derived(item).diagnostics == enum_expansion(item).diagnostics,
        derive_expansion(Ok(item)) == enum_expansion(item),
{
    let places = lemma_sorted_out(item.variants);
    assert forall|i: int| 0 <= i < item.variants.len() implies {
        let one = (#[trigger] item.variants[i]).fields is Unnamed
            && item.variants[i].fields->Unnamed_0.len() == 1;
        (places.0.contains(i) <==> one) && (places.1.contains(i) <==> !one)
    } by {}
    assert forall|k: int| 0 <= k < places.0.len() implies single_field(
        item.variants[#[trigger] places.0[k]],
    ) == Some(item.variants[places.0[k]].fields->Unnamed_0[0]) by {
        assert(places.0.contains(places.0[k]));
        assert(single_field(item.variants[places.0[k]]) is Some);
    }
    assert(derived(item).from_impls =~= Seq::new(
        places.0.len(),
        |k: int|
            from_code(
                item.name,
                (
                    item.variants[places.0[k]].name,
                    item.variants[places.0[k]].fields->Unnamed_0[0],
                ),
            ),
    ));
    assert(derived(item).match_arms =~= Seq::new(
        places.0.len(),
        |k: int|
            arm_code(
                item.name,
                (
                    item.variants[places.0[k]].name,
                    item.variants[places.0[k]].fields->Unnamed_0[0],
                ),
            ),
    ));
    assert(enum_expansion(item).diagnostics =~= Seq::new(
        places.1.len(),
        |k: int|
            DiagnosticView {
                at: if item.variants[places.1[k]].fields is Unit {
                    item.variants[places.1[k]].tokens
                } else {
                    item.variants[places.1[k]].fields_tokens
                },
                message: "variant not a 1-tuple"@,
            },
    ));
    assert(derived(item).seen_items =~= Map::<Seq<char>, EnumView>::empty().insert(
        item.ident,
        item,
    ));
    places
}

/// What does not parse as an enum becomes the compile errors, and nothing else
/// is reported.
pub proof fn law_derive_gives_errors_back(error: Seq<Token>)
    ensures
        derive_expansion(Err(error)) == (ExpansionView { tokens: error, diagnostics: seq![] }),
{
}

/// The last segment of a type is that of its path, if it is a path that has one.
pub proof fn law_last_segments_are_last(ty: TypeView)
    ensures
        ty.last() is Some <==> ty.path is Some && ty.path->0.len() > 0,
        ty.last() is Some ==> ty.last()->0 == ty.path->0[ty.path->0.len() - 1],
{
}

/// What may be missing is there or not, and is what it is.
pub proof fn law_options_are_seen_whole(stream: TokenStream, text: String)
    ensures
        optional_tokens(Some(stream)) == Some(tokens(stream)),
        optional_tokens(None) is None,
        optional_text(Some(text)) == Some(text@),
        optional_text(None) is None,
{
}

/// What errors and expansions are is all that they hold.
pub proof fn law_expansions_are_seen_whole(diagnostic: Diagnostic, expansion: Expansion)
    ensures
        diagnostic@.at == tokens(diagnostic.at),
        diagnostic@.message == diagnostic.message@,
        expansion@.tokens == tokens(expansion.tokens),
        expansion@.diagnostics.len() == expansion.diagnostics@.len(),
        forall|i: int|
            0 <= i < expansion.diagnostics@.len() ==> #[trigger] expansion@.diagnostics[i]
                == expansion.diagnostics@[i]@,
{
}

/// What an outcome of `#[storage]` is, is the expansion or the errors.
pub proof fn law_outcomes_are_seen_whole(expansion: Result<Expansion, Vec<Diagnostic>>)
    ensures
        match (expansion, outcome(expansion)) {
            (Ok(given), Ok(seen)) => seen == given@,
            (Err(given), Err(seen)) => seen.len() == given@.len() && forall|i: int|
                0 <= i < given@.len() ==> #[trigger] seen[i] == given@[i]@,
            _ => false,
        },
{
}

/// What is read from a struct, and what is kept of it, is all that it holds.
pub proof fn law_structs_are_seen_whole(
    segment: Segment,
    ty: Type,
    field: Field,
    attribute: FieldAttribute,
    struct_field: StructField,
    item: StructItem,
    generics: Generics,
)
    ensures
        segment@.ident == segment.ident@,
        segment@.bare == segment.bare,
        ty@.tokens == tokens(ty.tokens),
        ty@.path is Some <==> ty.path is Some,
        ty.path is Some ==> ty@.path->0.len() == ty.path->0@.len() && forall|i: int|
            0 <= i < ty.path->0@.len() ==> #[trigger] ty@.path->0[i] == ty.path->0@[i]@,
        field@.name is Some <==> field.name is Some,
        field.name is Some ==> field@.name->0 == tokens(field.name->0),
        field@.ty == field.ty@,
        field@.tokens == tokens(field.tokens),
        attribute@.ident is Some <==> attribute.ident is Some,
        attribute.ident is Some ==> attribute@.ident->0 == attribute.ident->0@,
        attribute@.place == attribute.place,
        struct_field@.field == struct_field.field@,
        struct_field@.attributes.len() == struct_field.attributes@.len(),
        forall|i: int|
            0 <= i < struct_field.attributes@.len() ==> #[trigger] struct_field@.attributes[i]
                == struct_field.attributes@[i]@,
        item@.name == tokens(item.name),
        item@.generics == item.generics@,
        item@.fields.len() == item.fields@.len(),
        forall|i: int|
            0 <= i < item.fields@.len() ==> #[trigger] item@.fields[i] == item.fields@[i]@,
        generics@.impl_generics == tokens(generics.impl_generics),
        generics@.ty_generics == tokens(generics.ty_generics),
        generics@.where_clause == tokens(generics.where_clause),
{
}

/// What is kept of a struct is all that it holds.
pub proof fn law_storage_is_seen_whole(storage: Storage, field: StorageField)
    ensures
        storage@.name == tokens(storage.name),
        storage@.generics == storage.generics@,
        storage@.fields.len() == storage.fields@.len(),
        forall|i: int|
            0 <= i < storage.fields@.len() ==> #[trigger] storage@.fields[i]
                == storage.fields@[i]@,
        field@.name is Some <==> field.name is Some,
        field.name is Some ==> field@.name->0 == tokens(field.name->0),
        field@.ty == tokens(field.ty),
        field@.borrow == field.borrow,
        field.accessor matches Member::Named(name) ==> field@.accessor == tokens(name),
        field.accessor matches Member::Unnamed(index) ==> field@.accessor == seq![
            Token::Literal(decimal(index as nat)),
        ],
{
}

/// What is read from an enum is all that it holds.
pub proof fn law_enums_are_seen_whole(
    attribute: Attribute,
    fields: Fields,
    variant: Variant,
    item: EnumItem,
)
    ensures
        attribute@.ident is Some <==> attribute.ident is Some,
        attribute.ident is Some ==> attribute@.ident->0 == attribute.ident->0@,
        attribute@.list is Some <==> attribute.list is Some,
        attribute.list is Some ==> attribute@.list->0 == tokens(attribute.list->0),
        fields@ is Named <==> fields is Named,
        fields@ is Unit <==> fields is Unit,
        fields matches Fields::Unnamed(given) ==> fields@ is Unnamed && fields@->Unnamed_0.len()
            == given@.len() && forall|i: int|
            0 <= i < given@.len() ==> #[trigger] fields@->Unnamed_0[i] == given@[i]@,
        variant@.name == tokens(variant.name),
        variant@.fields == variant.fields@,
        variant@.fields_tokens == tokens(variant.fields_tokens),
        variant@.tokens == tokens(variant.tokens),
        item@.ident == item.ident@,
        item@.name == tokens(item.name),
        item@.attributes.len() == item.attributes@.len(),
        forall|i: int|
            0 <= i < item.attributes@.len() ==> #[trigger] item@.attributes[i]
                == item.attributes@[i]@,
        item@.variants.len() == item.variants@.len(),
        forall|i: int|
            0 <= i < item.variants@.len() ==> #[trigger] item@.variants[i]
                == item.variants@[i]@,
{
}

/// What the derive macro has gathered is all that it holds.
pub proof fn law_derives_are_seen_whole(derive: DeriveSolidityError<()>)
    ensures
        derive@.name == tokens(derive.name),
        derive@.from_impls.len() == derive.from_impls@.len(),
        forall|i: int|
            0 <= i < derive.from_impls@.len() ==> #[trigger] derive@.from_impls[i] == tokens(
                derive.from_impls@[i],
            ),
        derive@.match_arms.len() == derive.match_arms@.len(),
        forall|i: int|
            0 <= i < derive.match_arms@.len() ==> #[trigger] derive@.match_arms[i] == tokens(
                derive.match_arms@[i],
            ),
        derive@.seen_items.dom() == derive.seen_items@.dom(),
        forall|name: Seq<char>|
            derive.seen_items@.contains_key(name) ==> #[trigger] derive@.seen_items[name]
                == derive.seen_items@[name]@,
        derive@.variants_to_process.len() == derive.variants_to_process@.len(),
        forall|i: int|
            0 <= i < derive.variants_to_process@.len()
                ==> #[trigger] derive@.variants_to_process[i] == (
                tokens(derive.variants_to_process@[i].0),
                derive.variants_to_process@[i].1@,
            ),
        derive@.diagnostics.len() == derive.diagnostics@.len(),
        forall|i: int|
            0 <= i < derive.diagnostics@.len() ==> #[trigger] derive@.diagnostics[i]
                == derive.diagnostics@[i]@,
{
    assert(derive@.seen_items.dom() =~= derive.seen_items@.dom());
}

} // verus!
