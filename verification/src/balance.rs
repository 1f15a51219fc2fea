//! Generated code is balanced: every delimiter that opens is closed again.

use vstd::prelude::*;

use crate::solidity_error::{
    arm_code, arm_codes, bytes_code, derive_code, derived, from_code, from_codes, joined,
    single_field, singles, VariantField,
};
use crate::storage::{
    borrow_code, borrow_mut_code, borrows_code, init_code, inits_code, load_code, measure,
    new_code, place_code, size_code, sizes_code, slots_code, storage_code, storage_item,
    storage_type_code, wraps_code, StorageFieldView, StorageView,
};
use crate::syntax::{EnumView, VariantView};
use crate::tokens::{code, decimal, enclosed, Delimiter, Part, Token};

verus! {

/// The delimiters that are open behind a token, where some are open in front of
/// it; nothing if the token closes a delimiter that is not the last to be open.
pub open spec fn opened(open: Seq<Delimiter>, token: Token) -> Option<Seq<Delimiter>> {
    match token {
        Token::Open(delimiter) => Some(open.push(delimiter)),
        Token::Close(delimiter) => if open.len() > 0 && open.last() == delimiter {
            Some(open.drop_last())
        } else {
            None
        },
        _ => Some(open),
    }
}

/// The delimiters that are open behind tokens, where some are open in front of
/// them.
pub open spec fn opened_by(open: Seq<Delimiter>, stream: Seq<Token>) -> Option<Seq<Delimiter>>
    decreases stream.len(),
{
    if stream.len() == 0 {
        Some(open)
    } else {
        match opened_by(open, stream.drop_last()) {
            Some(before) => opened(before, stream.last()),
            None => None,
        }
    }
}

/// The tokens close every delimiter that they open, and no other.
pub open spec fn balanced(stream: Seq<Token>) -> bool {
    forall|open: Seq<Delimiter>| #[trigger] opened_by(open, stream) == Some(open)
}

/// Tokens, and others behind them.
proof fn lemma_opened_by_both(open: Seq<Delimiter>, first: Seq<Token>, second: Seq<Token>)
    ensures
        opened_by(open, first + second) == (match opened_by(open, first) {
            Some(between) => opened_by(between, second),
            None => None,
        }),
    decreases second.len(),
{
    if second.len() == 0 {
        assert(first + second =~= first);
    } else {
        assert((first + second).drop_last() =~= first + second.drop_last());
        lemma_opened_by_both(open, first, second.drop_last());
    }
}

/// No tokens are balanced.
broadcast proof fn lemma_empty(stream: Seq<Token>)
    requires
        stream.len() == 0,
    ensures
        #[trigger] balanced(stream),
{
}

/// Balanced tokens behind balanced tokens are balanced.
broadcast proof fn lemma_both(first: Seq<Token>, second: Seq<Token>)
    requires
        balanced(first),
        balanced(second),
    ensures
        #[trigger] balanced(first + second),
{
    assert forall|open: Seq<Delimiter>| #[trigger] opened_by(open, first + second) == Some(
        open,
    ) by {
        lemma_opened_by_both(open, first, second);
    }
}

/// A token that is no delimiter is balanced.
proof fn lemma_one(token: Token)
    requires
        !(token is Open),
        !(token is Close),
    ensures
        balanced(seq![token]),
{
    let stream = seq![token];
    assert forall|open: Seq<Delimiter>| #[trigger] opened_by(open, stream) == Some(open) by {
        assert(stream.drop_last() =~= Seq::empty());
        reveal_with_fuel(opened_by, 2);
    }
}

/// A group of balanced tokens is balanced.
broadcast proof fn lemma_group(delimiter: Delimiter, inner: Seq<Token>)
    requires
        balanced(inner),
    ensures
        #[trigger] balanced(enclosed(delimiter, inner)),
{
    let front = seq![Token::Open(delimiter)];
    let back = seq![Token::Close(delimiter)];
    assert forall|open: Seq<Delimiter>| #[trigger]
        opened_by(open, enclosed(delimiter, inner)) == Some(open) by {
        reveal_with_fuel(opened_by, 2);
        assert(front.drop_last() =~= Seq::empty());
        assert(back.drop_last() =~= Seq::empty());
        lemma_opened_by_both(open, front + inner, back);
        lemma_opened_by_both(open, front, inner);
        assert(open.push(delimiter).drop_last() =~= open);
    }
}

/// Every piece of code is balanced.
broadcast proof fn lemma_part(part: Part)
    ensures
        #[trigger] balanced(part.tokens()),
{
    lemma_empty(Seq::empty());
    match part {
        Part::Word(text) => lemma_one(Token::Ident(text@)),
        Part::Op(c) => lemma_one(Token::Punct(c, false)),
        Part::Op2(c, d) => {
            lemma_one(Token::Punct(c, true));
            lemma_one(Token::Punct(d, false));
            lemma_both(seq![Token::Punct(c, true)], seq![Token::Punct(d, false)]);
            assert(part.tokens() =~= seq![Token::Punct(c, true)] + seq![Token::Punct(d, false)]);
        },
        Part::Sep => {
            lemma_one(Token::Punct(':', true));
            lemma_one(Token::Punct(':', false));
            lemma_both(seq![Token::Punct(':', true)], seq![Token::Punct(':', false)]);
            assert(part.tokens() =~= seq![Token::Punct(':', true)] + seq![
                Token::Punct(':', false),
            ]);
        },
        Part::Life(text) => {
            lemma_one(Token::Punct('\'', true));
            lemma_one(Token::Ident(text@));
            lemma_both(seq![Token::Punct('\'', true)], seq![Token::Ident(text@)]);
            assert(part.tokens() =~= seq![Token::Punct('\'', true)] + seq![Token::Ident(text@)]);
        },
        Part::Num(n) => lemma_one(Token::Literal(decimal(n as nat))),
        Part::Unit => lemma_group(Delimiter::Parenthesis, Seq::empty()),
    }
}

/// Pieces of code are balanced.
broadcast proof fn lemma_code(parts: Seq<Part>)
    ensures
        #[trigger] balanced(code(parts)),
    decreases parts.len(),
{
    if parts.len() == 0 {
        lemma_empty(code(parts));
    } else {
        lemma_code(parts.drop_last());
        lemma_part(parts.last());
        lemma_both(code(parts.drop_last()), parts.last().tokens());
    }
}

broadcast group group_balanced {
    lemma_empty,
    lemma_both,
    lemma_group,
    lemma_part,
    lemma_code,
}

/// The parts of a storage field that stand in generated code are balanced.
pub open spec fn balanced_field(field: StorageFieldView) -> bool {
    &&& balanced(field.ty)
    &&& balanced(field.accessor)
    &&& field.name is Some ==> balanced(field.name->0)
}

/// The same for every field.
pub open spec fn balanced_fields(fields: Seq<StorageFieldView>) -> bool {
    forall|i: int| 0 <= i < fields.len() ==> balanced_field(#[trigger] fields[i])
}

/// The code for one field.
#[verifier::rlimit(40)]
proof fn lemma_field_code(field: StorageFieldView, name: Seq<Token>)
    requires
        balanced_field(field),
        balanced(name),
    ensures
        balanced(size_code(field.ty, false)),
        init_code(field) is Some ==> balanced(init_code(field)->0),
        balanced(borrow_code(field, name)),
        balanced(borrow_mut_code(field, name)),
{
    broadcast use group_balanced;

    assert(balanced(storage_item(field.ty, "SLOT_BYTES", false)));
    assert(balanced(storage_item(field.ty, "REQUIRED_SLOTS", false)));
    assert(balanced(storage_item(field.ty, "new", false)));
    assert(balanced(measure(field.ty, false)));
    assert(balanced(place_code(field.ty)));
}

/// The code for all fields.
proof fn lemma_fields_code(fields: Seq<StorageFieldView>, name: Seq<Token>)
    requires
        balanced_fields(fields),
        balanced(name),
    ensures
        balanced(sizes_code(fields)),
        balanced(inits_code(fields)),
        balanced(borrows_code(fields, name)),
    decreases fields.len(),
{
    broadcast use group_balanced;

    if fields.len() > 0 {
        let fewer = fields.drop_last();
        assert forall|i: int| 0 <= i < fewer.len() implies balanced_field(#[trigger] fewer[i]) by {
            assert(fewer[i] == fields[i]);
        }
        assert(fields.last() == fields[fields.len() - 1]);
        lemma_fields_code(fewer, name);
        lemma_field_code(fields.last(), name);
    }
}

/// The code that `#[storage]` generates is balanced if what it takes over from
/// the struct is.
#[verifier::rlimit(40)]
pub proof fn law_storage_code_is_balanced(storage: StorageView)
    requires
        balanced(storage.name),
        balanced(storage.generics.impl_generics),
        balanced(storage.generics.ty_generics),
        balanced(storage.generics.where_clause),
        balanced_fields(storage.fields),
    ensures
        balanced(storage_code(storage)),
{
    broadcast use group_balanced;

    lemma_fields_code(storage.fields, storage.name);
    assert(balanced(slots_code(storage)));
    assert(balanced(wraps_code("Wraps", "StorageGuard")));
    assert(balanced(wraps_code("WrapsMut", "StorageGuardMut")));
    assert(balanced(new_code(storage.fields)));
    assert(balanced(load_code("load", "Wraps", "StorageGuard")));
    assert(balanced(load_code("load_mut", "WrapsMut", "StorageGuardMut")));
    assert(balanced(storage_type_code(storage)));
}

/// The parts of a variant that stand in generated code are balanced.
pub open spec fn balanced_variant(variant: VariantField) -> bool {
    balanced(variant.0) && balanced(variant.1.ty.tokens)
}

/// The code for one variant.
proof fn lemma_variant_code(name: Seq<Token>, variant: VariantField)
    requires
        balanced(name),
        balanced_variant(variant),
    ensures
        balanced(from_code(name, variant)),
        balanced(arm_code(name, variant)),
{
    broadcast use group_balanced;

}

/// Balanced sequences of tokens, one behind the other.
proof fn lemma_joined(sequences: Seq<Seq<Token>>)
    requires
        forall|i: int| 0 <= i < sequences.len() ==> balanced(#[trigger] sequences[i]),
    ensures
        balanced(joined(sequences)),
    decreases sequences.len(),
{
    broadcast use group_balanced;

    if sequences.len() > 0 {
        let fewer = sequences.drop_last();
        assert forall|i: int| 0 <= i < fewer.len() implies balanced(#[trigger] fewer[i]) by {
            assert(fewer[i] == sequences[i]);
        }
        assert(sequences.last() == sequences[sequences.len() - 1]);
        lemma_joined(fewer);
    }
}

/// The variants that are tuples of one are balanced if all such variants are.
proof fn lemma_singles(variants: Seq<VariantView>)
    requires
        forall|i: int|
            0 <= i < variants.len() && single_field(#[trigger] variants[i]) is Some
                ==> balanced_variant((variants[i].name, single_field(variants[i])->0)),
    ensures
        forall|i: int|
            0 <= i < singles(variants).len() ==> balanced_variant(#[trigger] singles(variants)[i]),
    decreases variants.len(),
{
    if variants.len() > 0 {
        let fewer = variants.drop_last();
        assert forall|i: int|
            0 <= i < fewer.len() && single_field(#[trigger] fewer[i]) is Some implies
            balanced_variant((fewer[i].name, single_field(fewer[i])->0)) by {
            assert(fewer[i] == variants[i]);
        }
        assert(variants.last() == variants[variants.len() - 1]);
        lemma_singles(fewer);
        let all = singles(variants);
        assert forall|i: int| 0 <= i < all.len() implies balanced_variant(#[trigger] all[i]) by {
            if i < singles(fewer).len() {
                assert(all[i] == singles(fewer)[i]);
            }
        }
    }
}

/// The code that `#[derive(SolidityError)]` generates is balanced if what it
/// takes over from the enum is.
pub proof fn law_derive_code_is_balanced(item: EnumView)
    requires
        balanced(item.name),
        forall|i: int|
            0 <= i < item.variants.len() && single_field(#[trigger] item.variants[i]) is Some
                ==> balanced_variant((item.variants[i].name, single_field(item.variants[i])->0)),
    ensures
        balanced(derive_code(derived(item))),
{
    broadcast use group_balanced;

    let variants = singles(item.variants);
    let froms = from_codes(item.name, variants);
    let arms = arm_codes(item.name, variants);
    lemma_singles(item.variants);
    assert forall|i: int| 0 <= i < froms.len() implies balanced(#[trigger] froms[i]) by {
        lemma_variant_code(item.name, variants[i]);
    }
    assert forall|i: int| 0 <= i < arms.len() implies balanced(#[trigger] arms[i]) by {
        lemma_variant_code(item.name, variants[i]);
    }
    lemma_joined(froms);
    lemma_joined(arms);
    assert(balanced(bytes_code(item.name, arms)));
}

} // verus!
