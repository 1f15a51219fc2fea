//! What holds of the macros as a whole.

use vstd::prelude::*;

use crate::attrs::{has_flag, is_flag, without_flag};
use crate::solidity_error::{
    arm_code, arm_codes, bounded, collected, collected_within, derived, derives_solidity_error,
    enum_expansion, from_code, from_codes, held, is_enum, lemma_bounded_is_shallow,
    lemma_depth_free, lemma_holds_itself, nested, own, processed, shallow, single_field, singles,
    started, variant_errors, with_collected, with_item, with_variant, Collected, DeriveView,
    VariantField,
};
use crate::storage::{
    argument_reports, borrows_code, field_refusal, printed, printed_without, refusal, refusals,
    storage_expansion, storage_field, storage_fields, storage_of, StorageFieldView,
};
use crate::syntax::{
    AttributeSyntax, EnumView, FieldAttributeView, SegmentView, StructFieldView, StructSyntax,
    VariantView,
};
use crate::text::{leads, occurs};
use crate::tokens::{token_text, Token};

verus! {

/// A flag that was taken away is no longer there, and taking it away again
/// changes nothing.
pub proof fn law_flag_is_gone(attributes: Seq<FieldAttributeView>, flag: Seq<char>)
    ensures
        !has_flag(without_flag(attributes, flag), flag),
        without_flag(without_flag(attributes, flag), flag) == without_flag(attributes, flag),
    decreases attributes.len(),
{
    if attributes.len() > 0 {
        let fewer = attributes.drop_last();
        law_flag_is_gone(fewer, flag);
        let some = without_flag(fewer, flag);
        let all = without_flag(attributes, flag);
        if !is_flag(attributes.last(), flag) {
            assert(all.drop_last() =~= some);
            if has_flag(all, flag) {
                let i = choose|i: int| 0 <= i < all.len() && is_flag(#[trigger] all[i], flag);
                assert(is_flag(some[i], flag));
            }
        }
    }
}

/// Taking away a flag that is not there changes nothing.
pub proof fn law_absent_flag_changes_nothing(
    attributes: Seq<FieldAttributeView>,
    flag: Seq<char>,
)
    requires
        !has_flag(attributes, flag),
    ensures
        without_flag(attributes, flag) == attributes,
    decreases attributes.len(),
{
    if attributes.len() > 0 {
        let fewer = attributes.drop_last();
        assert(!is_flag(attributes[attributes.len() - 1], flag));
        if has_flag(fewer, flag) {
            let i = choose|i: int| 0 <= i < fewer.len() && is_flag(#[trigger] fewer[i], flag);
            assert(is_flag(attributes[i], flag));
        }
        law_absent_flag_changes_nothing(fewer, flag);
        assert(fewer.push(attributes.last()) =~= attributes);
    } else {
        assert(without_flag(attributes, flag) =~= attributes);
    }
}

/// Taking a flag away leaves every other flag where it is.
pub proof fn law_other_flags_stay(
    attributes: Seq<FieldAttributeView>,
    flag: Seq<char>,
    other: Seq<char>,
)
    requires
        other != flag,
    ensures
        has_flag(without_flag(attributes, flag), other) == has_flag(attributes, other),
    decreases attributes.len(),
{
    if attributes.len() > 0 {
        let fewer = attributes.drop_last();
        law_other_flags_stay(attributes.drop_last(), flag, other);
        let some = without_flag(fewer, flag);
        let all = without_flag(attributes, flag);
        let last = attributes.len() - 1;
        if has_flag(fewer, other) {
            let i = choose|i: int| 0 <= i < fewer.len() && is_flag(#[trigger] fewer[i], other);
            assert(is_flag(attributes[i], other));
            let j = choose|j: int| 0 <= j < some.len() && is_flag(#[trigger] some[j], other);
            assert(is_flag(all[j], other));
        }
        if is_flag(attributes[last], other) {
            assert(is_flag(all[some.len() as int], other));
        }
        if has_flag(attributes, other) {
            let i = choose|i: int|
                0 <= i < attributes.len() && is_flag(#[trigger] attributes[i], other);
            if i < last {
                assert(is_flag(fewer[i], other));
            }
        }
        if has_flag(all, other) {
            let i = choose|i: int| 0 <= i < all.len() && is_flag(#[trigger] all[i], other);
            if i < some.len() {
                assert(is_flag(some[i], other));
            }
        }
    }
}

/// Arguments of `#[storage]` are reported, and have no other effect: the
/// generated code is the same, and so are all other errors.
pub proof fn law_arguments_are_only_reported(
    attr: Seq<Token>,
    parsed: Result<StructSyntax, Seq<Token>>,
)
    ensures
        match (storage_expansion(attr, parsed), storage_expansion(seq![], parsed)) {
            (Ok(argued), Ok(plain)) => argued.tokens == plain.tokens && argued.diagnostics
                == argument_reports(attr) + plain.diagnostics,
            (Err(argued), Err(plain)) => argued == argument_reports(attr) + plain,
            _ => false,
        },
        argument_reports(attr).len() == (if attr.len() == 0 {
            0int
        } else {
            1
        }),
{
    match (storage_expansion(attr, parsed), storage_expansion(seq![], parsed)) {
        (Ok(argued), Ok(plain)) => {
            assert(argued.diagnostics =~= argument_reports(attr) + plain.diagnostics);
        },
        (Err(argued), Err(plain)) => {
            assert(argued =~= argument_reports(attr) + plain);
        },
        _ => {},
    }
}

/// `#[storage]` gives the struct item back in front of what it generates.
pub proof fn law_item_comes_first(attr: Seq<Token>, item: StructSyntax)
    ensures
        match storage_expansion(attr, Ok(item)) {
            Ok(expansion) => expansion.tokens.take(printed(item).tokens().len() as int)
                == printed(item).tokens(),
            Err(_) => true,
        },
{
    if let Ok(expansion) = storage_expansion(attr, Ok(item)) {
        assert(expansion.tokens.take(printed(item).tokens().len() as int)
            =~= printed(item).tokens());
    }
}

/// The attributes of a printed field that are not the flag, looked at again.
proof fn lemma_printed_without(attributes: Seq<AttributeSyntax>, flag: Seq<char>)
    ensures
        forall|i: int|
            0 <= i < printed_without(attributes, flag).len() ==> (#[trigger] printed_without(
                attributes,
                flag,
            )[i]).ident != Some(flag),
        (forall|i: int|
            0 <= i < attributes.len() ==> (#[trigger] attributes[i]).ident != Some(flag))
            ==> printed_without(attributes, flag) == attributes,
    decreases attributes.len(),
{
    reveal(Seq::filter);
    let all = printed_without(attributes, flag);
    if attributes.len() > 0 {
        let fewer = attributes.drop_last();
        let some = printed_without(fewer, flag);
        lemma_printed_without(fewer, flag);
        assert forall|i: int| 0 <= i < all.len() implies (#[trigger] all[i]).ident != Some(
            flag,
        ) by {
            if i < some.len() {
                assert(all[i] == some[i]);
            }
        }
        if forall|i: int|
            0 <= i < attributes.len() ==> (#[trigger] attributes[i]).ident != Some(flag) {
            assert forall|i: int| 0 <= i < fewer.len() implies (#[trigger] fewer[i]).ident != Some(
                flag,
            ) by {
                assert(fewer[i] == attributes[i]);
            }
            assert(attributes[attributes.len() - 1].ident != Some(flag));
            assert(fewer.push(attributes.last()) =~= attributes);
        }
    } else {
        assert(all =~= attributes);
    }
}

/// A struct item without the flag `borrow` is given back as it is.
pub proof fn law_unflagged_item_is_unchanged(item: StructSyntax)
    requires
        forall|i: int, j: int|
            0 <= i < item.fields.len() && item.fields[i].ty.path is Some && 0 <= j
                < item.fields[i].attributes.len() ==> (
            #[trigger] item.fields[i].attributes[j]).ident != Some("borrow"@),
    ensures
        printed(item) == item,
{
    assert forall|i: int| 0 <= i < item.fields.len() implies printed(item).fields[i]
        == item.fields[i] by {
        lemma_printed_without(item.fields[i].attributes, "borrow"@);
    }
    assert(printed(item).fields =~= item.fields);
}

/// On an item that `#[storage]` has given back, there is no flag left to take
/// away.
pub proof fn law_flags_are_taken_once(item: StructSyntax)
    ensures
        printed(printed(item)) == printed(item),
{
    let once = printed(item);
    assert forall|i: int, j: int|
        0 <= i < once.fields.len() && once.fields[i].ty.path is Some && 0 <= j
            < once.fields[i].attributes.len() implies (
    #[trigger] once.fields[i].attributes[j]).ident != Some("borrow"@) by {
        lemma_printed_without(item.fields[i].attributes, "borrow"@);
    }
    law_unflagged_item_is_unchanged(once);
}

/// The fields that are kept in storage are those whose type is a path, in the
/// order of the struct: `places` gives the place of each in the struct.
pub proof fn law_storage_follows_the_struct(fields: Seq<StructFieldView>) -> (places: Seq<int>)
    ensures
        places.len() == storage_fields(fields).len(),
        forall|k: int|
            0 <= k < places.len() ==> {
                &&& 0 <= #[trigger] places[k] < fields.len()
                &&& fields[places[k]].field.ty.path is Some
                &&& storage_fields(fields)[k] == storage_field(places[k], fields[places[k]])
            },
        forall|k: int, l: int| 0 <= k < l < places.len() ==> places[k] < places[l],
        forall|i: int|
            0 <= i < fields.len() && (#[trigger] fields[i]).field.ty.path is Some
                ==> places.contains(i),
    decreases fields.len(),
{
    if fields.len() == 0 {
        seq![]
    } else {
        let fewer = fields.drop_last();
        let last = fields.len() - 1;
        let some = law_storage_follows_the_struct(fewer);
        let places = if fields.last().field.ty.path is Some {
            some.push(last)
        } else {
            some
        };
        assert forall|k: int| 0 <= k < places.len() implies {
            &&& 0 <= #[trigger] places[k] < fields.len()
            &&& fields[places[k]].field.ty.path is Some
            &&& storage_fields(fields)[k] == storage_field(places[k], fields[places[k]])
        } by {
            if k < some.len() {
                assert(places[k] == some[k]);
                assert(fewer[some[k]] == fields[some[k]]);
            }
        }
        assert forall|i: int|
            0 <= i < fields.len() && (#[trigger] fields[i]).field.ty.path is Some implies
            places.contains(i) by {
            if i < last {
                assert(fewer[i] == fields[i]);
                let k = choose|k: int| 0 <= k < some.len() && some[k] == i;
                assert(places[k] == i);
            } else {
                assert(places[some.len() as int] == i);
            }
        }
        places
    }
}

/// Only fields that are kept in storage are reported, each at most once.
pub proof fn law_reports_are_about_stored_fields(fields: Seq<StructFieldView>)
    ensures
        refusals(fields).len() <= storage_fields(fields).len(),
        forall|k: int|
            0 <= k < refusals(fields).len() ==> exists|i: int|
                0 <= i < fields.len() && (#[trigger] fields[i]).field.ty.path is Some
                    && field_refusal(fields[i].field) == Some(#[trigger] refusals(fields)[k]),
    decreases fields.len(),
{
    if fields.len() > 0 {
        let fewer = fields.drop_last();
        law_reports_are_about_stored_fields(fewer);
        let all = refusals(fields);
        let some = refusals(fewer);
        assert forall|k: int| 0 <= k < all.len() implies exists|i: int|
            0 <= i < fields.len() && (#[trigger] fields[i]).field.ty.path is Some && field_refusal(
                fields[i].field,
            ) == Some(#[trigger] all[k]) by {
            if k < some.len() {
                assert(all[k] == some[k]);
                let i = choose|i: int|
                    0 <= i < fewer.len() && (#[trigger] fewer[i]).field.ty.path is Some
                        && field_refusal(fewer[i].field) == Some(some[k]);
                assert(fields[i] == fewer[i]);
            } else {
                assert(fields[fields.len() - 1].field.ty.path is Some);
            }
        }
    }
}

/// Every error on a type names the type.
pub proof fn law_refusal_names_the_type(name: Seq<char>)
    ensures
        match refusal(name) {
            Some(message) => leads(
                "Type `"@ + name + "` not supported for EVM state storage"@,
                message,
            ),
            None => true,
        },
{
    let refused = "Type `"@ + name + "` not supported for EVM state storage"@;
    if let Some(message) = refusal(name) {
        assert(message.take(refused.len() as int) =~= refused);
    }
}

/// Without the flag `borrow` on a field, the struct cannot be borrowed as it.
pub proof fn law_no_flag_no_borrow(fields: Seq<StorageFieldView>, name: Seq<Token>)
    requires
        forall|i: int| 0 <= i < fields.len() ==> !(#[trigger] fields[i]).borrow,
    ensures
        borrows_code(fields, name) == Seq::<Token>::empty(),
    decreases fields.len(),
{
    if fields.len() > 0 {
        let fewer = fields.drop_last();
        assert forall|i: int| 0 <= i < fewer.len() implies !(#[trigger] fewer[i]).borrow by {
            assert(fewer[i] == fields[i]);
        }
        assert(!fields[fields.len() - 1].borrow);
        law_no_flag_no_borrow(fewer, name);
    }
}

/// The code generated for an item that `#[storage]` has given back borrows no
/// field.
pub proof fn law_given_back_item_borrows_nothing(item: StructSyntax)
    ensures
        borrows_code(
            storage_of(printed(item).read()).fields,
            storage_of(printed(item).read()).name,
        ) == Seq::<Token>::empty(),
{
    let once = printed(item);
    let fields = once.read().fields;
    let stored = storage_fields(fields);
    let places = law_storage_follows_the_struct(fields);
    assert forall|k: int| 0 <= k < stored.len() implies !(#[trigger] stored[k]).borrow by {
        let i = places[k];
        lemma_printed_without(item.fields[i].attributes, "borrow"@);
        assert(fields[i] == once.fields[i].read());
        let attributes = fields[i].attributes;
        if has_flag(attributes, "borrow"@) {
            let j = choose|j: int|
                0 <= j < attributes.len() && is_flag(#[trigger] attributes[j], "borrow"@);
            assert(once.fields[i].attributes[j].ident == Some("borrow"@));
        }
    }
    law_no_flag_no_borrow(stored, once.name);
}

/// Every variant is a tuple of one, or an error.
proof fn lemma_singles_and_errors(variants: Seq<VariantView>)
    ensures
        singles(variants).len() + variant_errors(variants).len() == variants.len(),
    decreases variants.len(),
{
    if variants.len() > 0 {
        lemma_singles_and_errors(variants.drop_last());
    }
}

/// Of variants that are all tuples of one, none is an error.
proof fn lemma_one_tuples(variants: Seq<VariantView>)
    requires
        forall|i: int|
            0 <= i < variants.len() ==> single_field(#[trigger] variants[i]) is Some,
    ensures
        variant_errors(variants).len() == 0,
        singles(variants).len() == variants.len(),
        forall|i: int|
            0 <= i < variants.len() ==> #[trigger] singles(variants)[i] == (
                variants[i].name,
                single_field(variants[i])->0,
            ),
    decreases variants.len(),
{
    if variants.len() > 0 {
        let fewer = variants.drop_last();
        assert forall|i: int| 0 <= i < fewer.len() implies single_field(
            #[trigger] fewer[i],
        ) is Some by {
            assert(fewer[i] == variants[i]);
        }
        lemma_one_tuples(fewer);
        assert(single_field(variants[variants.len() - 1]) is Some);
        assert forall|i: int| 0 <= i < variants.len() implies #[trigger] singles(variants)[i] == (
            variants[i].name,
            single_field(variants[i])->0,
        ) by {
            if i < fewer.len() {
                assert(singles(variants)[i] == singles(fewer)[i]);
                assert(fewer[i] == variants[i]);
            }
        }
    }
}

/// The conversions and the arms are those of the same variants, in the same
/// order.
pub open spec fn pairs(derive: DeriveView, variants: Seq<VariantField>) -> bool {
    &&& derive.from_impls == from_codes(derive.name, variants)
    &&& derive.match_arms == arm_codes(derive.name, variants)
}

/// Every conversion from the type of a variant has its arm in the conversion to
/// bytes, and the other way round.
pub open spec fn paired(derive: DeriveView) -> bool {
    exists|variants: Seq<VariantField>| pairs(derive, variants)
}

/// Conversions and arms are paired from the start.
pub proof fn law_pairs_from_the_start(name: Seq<Token>)
    ensures
        paired(started(name)),
{
    let variants = Seq::<VariantField>::empty();
    assert(started(name).from_impls =~= from_codes(name, variants));
    assert(started(name).match_arms =~= arm_codes(name, variants));
    assert(pairs(started(name), variants));
}

/// Every step keeps conversions and arms paired.
pub proof fn law_steps_keep_pairs(
    derive: DeriveView,
    variant: VariantField,
    item: EnumView,
    variants: Seq<VariantView>,
)
    requires
        paired(derive),
    ensures
        paired(with_variant(derive, variant)),
        paired(with_item(derive, item)),
        paired(with_collected(derive, variants)),
        paired(processed(derive)),
{
    let present = choose|variants: Seq<VariantField>| pairs(derive, variants);
    let name = derive.name;
    let more = present.push(variant);
    assert(with_variant(derive, variant).from_impls =~= from_codes(name, more));
    assert(with_variant(derive, variant).match_arms =~= arm_codes(name, more));
    assert(pairs(with_variant(derive, variant), more));
    assert(pairs(with_item(derive, item), present));
    assert(pairs(with_collected(derive, variants), present));
    let all = present + derive.variants_to_process;
    assert(processed(derive).from_impls =~= from_codes(name, all));
    assert(processed(derive).match_arms =~= arm_codes(name, all));
    assert(pairs(processed(derive), all));
}

/// To process what is left to process twice is to process it once.
pub proof fn law_variants_are_processed_once(derive: DeriveView)
    ensures
        processed(processed(derive)) == processed(derive),
{
    let once = processed(derive);
    assert(processed(once).from_impls =~= once.from_impls);
    assert(processed(once).match_arms =~= once.match_arms);
}

/// Of two enums with the same name, the one that was added last is known.
pub proof fn law_last_item_is_known(derive: DeriveView, first: EnumView, second: EnumView)
    requires
        first.ident == second.ident,
    ensures
        with_item(with_item(derive, first), second) == with_item(derive, second),
{
    assert(with_item(with_item(derive, first), second).seen_items =~= with_item(
        derive,
        second,
    ).seen_items);
}

/// What the derive macro gathers about an enum is paired, and every variant of
/// the enum either has a conversion or is reported.
pub proof fn law_every_variant_is_accounted_for(item: EnumView)
    ensures
        paired(derived(item)),
        derived(item).match_arms.len() == derived(item).from_impls.len(),
        derived(item).from_impls.len() + enum_expansion(item).diagnostics.len()
            == item.variants.len(),
{
    assert(pairs(derived(item), singles(item.variants)));
    lemma_singles_and_errors(item.variants);
}

/// An enum whose variants are all tuples of one has no errors, and each variant
/// is converted, in order.
pub proof fn law_one_tuples_are_converted(item: EnumView)
    requires
        forall|i: int|
            0 <= i < item.variants.len() ==> single_field(#[trigger] item.variants[i]) is Some,
    ensures
        enum_expansion(item).diagnostics.len() == 0,
        derived(item).from_impls.len() == item.variants.len(),
        derived(item).match_arms.len() == item.variants.len(),
        forall|i: int|
            0 <= i < item.variants.len() ==> {
                let variant = (#[trigger] item.variants[i].name, single_field(item.variants[i])->0);
                &&& derived(item).from_impls[i] == from_code(item.name, variant)
                &&& derived(item).match_arms[i] == arm_code(item.name, variant)
            },
{
    lemma_one_tuples(item.variants);
    assert forall|i: int| 0 <= i < item.variants.len() implies {
        let variant = (#[trigger] item.variants[i].name, single_field(item.variants[i])->0);
        &&& derived(item).from_impls[i] == from_code(item.name, variant)
        &&& derived(item).match_arms[i] == arm_code(item.name, variant)
    } by {
        assert(singles(item.variants)[i] == (
            item.variants[i].name,
            single_field(item.variants[i])->0,
        ));
    }
}

/// What is collected does not depend on the bound that is put on the depth of
/// nested enums.
pub proof fn law_depth_does_not_matter(
    seen: Map<Seq<char>, EnumView>,
    variants: Seq<VariantView>,
    depth: nat,
)
    requires
        shallow(seen, variants, depth),
    ensures
        collected(seen, variants) == collected_within(seen, variants, depth),
{
    lemma_depth_free(seen, variants, seen.len() + 1, depth);
}

/// What is collected within a depth, from variants and others behind them.
proof fn lemma_collected_append(
    seen: Map<Seq<char>, EnumView>,
    first: Seq<VariantView>,
    second: Seq<VariantView>,
    depth: nat,
)
    ensures
        collected_within(seen, first + second, depth) == collected_within(seen, first, depth).and(
            collected_within(seen, second, depth),
        ),
    decreases second.len(),
{
    let one = collected_within(seen, first, depth);
    if second.len() == 0 {
        assert(first + second =~= first);
        assert(one.variants + Seq::<VariantField>::empty() =~= one.variants);
        assert(one.diagnostics + seq![] =~= one.diagnostics);
    } else {
        let fewer = second.drop_last();
        lemma_collected_append(seen, first, fewer, depth);
        assert((first + second).drop_last() =~= first + fewer);
        let both = collected_within(seen, first + second, depth);
        let other = collected_within(seen, second, depth);
        assert(both.variants =~= one.variants + other.variants);
        assert(both.diagnostics =~= one.diagnostics + other.diagnostics);
    }
}

/// Variants are collected in order: what comes from the first stands before
/// what comes from the second.
pub proof fn law_variants_are_collected_in_order(
    seen: Map<Seq<char>, EnumView>,
    first: Seq<VariantView>,
    second: Seq<VariantView>,
)
    ensures
        collected(seen, first + second) == collected(seen, first).and(collected(seen, second)),
{
    lemma_collected_append(seen, first, second, seen.len() + 1);
}

/// The variants of a nested enum take the place of the variant that holds it.
pub proof fn law_nested_enum_stands_in_place(
    seen: Map<Seq<char>, EnumView>,
    variant: VariantView,
)
    requires
        nested(seen, variant) is Some,
    ensures
        collected(seen, seq![variant]) == collected(seen, nested(seen, variant)->0.variants),
{
    reveal_with_fuel(collected_within, 2);
    let inner = nested(seen, variant)->0.variants;
    lemma_bounded_is_shallow(seen, inner, seen.len());
    law_depth_does_not_matter(seen, inner, seen.len());
    assert(seq![variant].drop_last() =~= Seq::<VariantView>::empty());
    let all = collected(seen, seq![variant]);
    assert(all.variants =~= collected(seen, inner).variants);
    assert(all.diagnostics =~= collected(seen, inner).diagnostics);
}

/// A variant that no enum takes the place of is collected as it is, or reported
/// if it is not a tuple of one.
pub proof fn law_other_variants_are_collected(
    seen: Map<Seq<char>, EnumView>,
    variant: VariantView,
)
    requires
        nested(seen, variant) is None,
    ensures
        collected(seen, seq![variant]) == own(variant),
{
    reveal_with_fuel(collected_within, 2);
    assert(seq![variant].drop_last() =~= Seq::<VariantView>::empty());
    let all = collected(seen, seq![variant]);
    assert(all.variants =~= own(variant).variants);
    assert(all.diagnostics =~= own(variant).diagnostics);
}

/// A variant whose type is not known is collected as it is, whether its type
/// counts as an enum or not.
pub proof fn law_unknown_types_are_collected(
    seen: Map<Seq<char>, EnumView>,
    variant: VariantView,
)
    requires
        single_field(variant) is Some,
        match single_field(variant)->0.ty.last() {
            Some(last) => !seen.contains_key(last.ident),
            None => true,
        },
    ensures
        collected(seen, seq![variant]) == (Collected {
            variants: seq![(variant.name, single_field(variant)->0)],
            diagnostics: seq![],
        }),
{
    law_other_variants_are_collected(seen, variant);
}

/// A known enum with `SolidityError` in the list of a `derive` counts as an enum,
/// and takes the place of a variant that holds it, unless that leads back to an
/// enum that holds itself.
pub proof fn law_derived_enums_are_nested(
    derive: DeriveView,
    item: EnumView,
    variant: VariantView,
    attribute: int,
    place: int,
)
    requires
        0 <= attribute < item.attributes.len(),
        item.attributes[attribute].ident == Some("derive"@),
        item.attributes[attribute].list is Some,
        0 <= place < item.attributes[attribute].list->0.len(),
        item.attributes[attribute].list->0[place] == Token::Ident("SolidityError"@),
        single_field(variant) is Some,
        single_field(variant)->0.ty.last() == Some(SegmentView { ident: item.ident, bare: true }),
    ensures
        is_enum(with_item(derive, item).seen_items, single_field(variant)->0.ty),
        held(with_item(derive, item).seen_items, variant) == Some(item),
        bounded(
            with_item(derive, item).seen_items,
            item.variants,
            with_item(derive, item).seen_items.len(),
        ) ==> nested(with_item(derive, item).seen_items, variant) == Some(item),
{
    let word = "SolidityError"@;
    let list = item.attributes[attribute].list->0;
    assert(word.subrange(0, 0int + word.len()) =~= word);
    assert(occurs(word, token_text(list[place])));
    assert(derives_solidity_error(item.attributes[attribute]));
}

/// An enum that holds itself does not take the place of a variant.
pub proof fn law_enum_is_not_nested_in_itself(
    seen: Map<Seq<char>, EnumView>,
    item: EnumView,
    i: int,
    variant: VariantView,
)
    requires
        0 <= i < item.variants.len(),
        held(seen, item.variants[i]) == Some(item),
    ensures
        nested(seen, variant) != Some(item),
{
    lemma_holds_itself(seen, item, i, seen.len());
}

/// A bound on the depth is one for every greater depth.
proof fn lemma_deeper(
    seen: Map<Seq<char>, EnumView>,
    variants: Seq<VariantView>,
    depth: nat,
    deeper: nat,
)
    requires
        bounded(seen, variants, depth),
        depth <= deeper,
    ensures
        bounded(seen, variants, deeper),
    decreases depth,
{
    assert forall|i: int|
        0 <= i < variants.len() && held(seen, #[trigger] variants[i]) is Some implies deeper > 0
        && bounded(seen, held(seen, variants[i])->0.variants, (deeper - 1) as nat) by {
        lemma_deeper(
            seen,
            held(seen, variants[i])->0.variants,
            (depth - 1) as nat,
            (deeper - 1) as nat,
        );
    }
}

/// The names of the known enums that hold others at most so deep.
spec fn ended(seen: Map<Seq<char>, EnumView>, depth: nat) -> Set<Seq<char>> {
    seen.dom().filter(|name: Seq<char>| bounded(seen, seen[name].variants, depth))
}

/// Variants are bounded one deeper than the enums that they hold.
proof fn lemma_bounded_by_ended(
    seen: Map<Seq<char>, EnumView>,
    variants: Seq<VariantView>,
    one: nat,
    other: nat,
)
    requires
        ended(seen, one) == ended(seen, other),
        bounded(seen, variants, one + 1),
    ensures
        bounded(seen, variants, other + 1),
{
    assert forall|i: int|
        0 <= i < variants.len() && held(seen, #[trigger] variants[i]) is Some implies bounded(
        seen,
        held(seen, variants[i])->0.variants,
        other,
    ) by {
        let name = single_field(variants[i])->0.ty.last()->0.ident;
        assert(held(seen, variants[i])->0 == seen[name]);
        assert(bounded(seen, seen[name].variants, (one + 1 - 1) as nat));
        assert(ended(seen, one).contains(name));
        assert(ended(seen, other).contains(name));
    }
}

/// Once no enum is bounded one deeper, none is bounded any deeper.
proof fn lemma_stable(seen: Map<Seq<char>, EnumView>, depth: nat, deeper: nat)
    requires
        ended(seen, depth) == ended(seen, depth + 1),
        depth <= deeper,
    ensures
        ended(seen, deeper) == ended(seen, depth),
    decreases deeper,
{
    if depth < deeper {
        let before = (deeper - 1) as nat;
        lemma_stable(seen, depth, before);
        assert forall|name: Seq<char>| ended(seen, deeper).contains(name) == ended(
            seen,
            depth + 1,
        ).contains(name) by {
            if ended(seen, deeper).contains(name) {
                lemma_bounded_by_ended(seen, seen[name].variants, before, depth);
            }
            if ended(seen, depth + 1).contains(name) {
                lemma_bounded_by_ended(seen, seen[name].variants, depth, before);
            }
        }
        assert(ended(seen, deeper) =~= ended(seen, depth + 1));
    }
}

/// With each step of depth another enum is bounded, until none is left to be.
proof fn lemma_ended_grows(seen: Map<Seq<char>, EnumView>, depth: nat)
    requires
        seen.dom().finite(),
    ensures
        ended(seen, depth).len() >= depth || (exists|stable: nat|
            stable < depth && #[trigger] ended(seen, stable) == ended(seen, stable + 1)),
    decreases depth,
{
    if depth > 0 {
        let before = (depth - 1) as nat;
        lemma_ended_grows(seen, before);
        if ended(seen, before).len() >= before && ended(seen, before) != ended(seen, depth) {
            assert forall|name: Seq<char>| ended(seen, before).contains(name) implies ended(
                seen,
                depth,
            ).contains(name) by {
                lemma_deeper(seen, seen[name].variants, before, depth);
            }
            if forall|name: Seq<char>|
                ended(seen, depth).contains(name) ==> ended(seen, before).contains(name) {
                assert(ended(seen, before) =~= ended(seen, depth));
            }
            let more = choose|name: Seq<char>|
                ended(seen, depth).contains(name) && !ended(seen, before).contains(name);
            seen.dom().lemma_len_filter(
                |name: Seq<char>| bounded(seen, seen[name].variants, depth),
            );
            ended(seen, before).lemma_subset_not_in_lt(ended(seen, depth), more);
        } else if ended(seen, before) == ended(seen, depth) {
            assert(ended(seen, before) == ended(seen, before + 1));
        }
    }
}

/// A known enum takes the place of the variants that hold it exactly if it holds
/// others to some finite depth: that depth is then no greater than the number of
/// known enums.
pub proof fn law_nesting_that_ends_is_followed(
    seen: Map<Seq<char>, EnumView>,
    variant: VariantView,
)
    requires
        seen.dom().finite(),
        held(seen, variant) is Some,
    ensures
        nested(seen, variant) is Some <==> exists|depth: nat|
            bounded(seen, held(seen, variant)->0.variants, depth),
{
    let name = single_field(variant)->0.ty.last()->0.ident;
    let inner = held(seen, variant)->0;
    let count = seen.len();
    if exists|depth: nat| bounded(seen, inner.variants, depth) {
        let depth = choose|depth: nat| bounded(seen, inner.variants, depth);
        let deeper = if depth < count {
            count
        } else {
            depth
        };
        lemma_deeper(seen, inner.variants, depth, deeper);
        assert(ended(seen, deeper).contains(name));
        lemma_ended_grows(seen, count);
        if ended(seen, count).len() >= count {
            seen.dom().lemma_len_filter(
                |name: Seq<char>| bounded(seen, seen[name].variants, count),
            );
            vstd::set_lib::lemma_subset_equality(ended(seen, count), seen.dom());
        } else {
            let stable = choose|stable: nat|
                stable < count && #[trigger] ended(seen, stable) == ended(seen, stable + 1);
            lemma_stable(seen, stable, deeper);
            lemma_stable(seen, stable, count);
        }
        assert(ended(seen, count).contains(name));
    }
}

/// Where the depth of the enums that variants hold has an end, every one of them
/// takes the place of its variant.
pub proof fn law_finite_nesting_is_followed(
    seen: Map<Seq<char>, EnumView>,
    variants: Seq<VariantView>,
    depth: nat,
)
    requires
        seen.dom().finite(),
        bounded(seen, variants, depth),
    ensures
        forall|i: int|
            0 <= i < variants.len() ==> nested(seen, #[trigger] variants[i]) == held(
                seen,
                variants[i],
            ),
{
    assert forall|i: int| 0 <= i < variants.len() implies nested(seen, #[trigger] variants[i])
        == held(seen, variants[i]) by {
        if held(seen, variants[i]) is Some {
            assert(bounded(seen, held(seen, variants[i])->0.variants, (depth - 1) as nat));
            law_nesting_that_ends_is_followed(seen, variants[i]);
        }
    }
}

} // verus!
