//! Where the code that `#[storage]` generates puts the fields of a struct.
//!
//! The generated code knows two numbers of the type of a field: its
//! `SLOT_BYTES`, and its `REQUIRED_SLOTS`. A field without required slots is
//! packed: it owns that many bytes of one slot. Any other field owns that many
//! slots. Here a field is the pair of the two numbers. What the generated code
//! does with them is what its statements do when they run, which
//! [`steps`](crate::steps) gives.

use vstd::prelude::*;

use crate::steps::{
    accessors, handed_out, inits_steps, place_steps, required_slots, run, sizes_steps, start,
    Given, State,
};
use crate::storage::StorageFieldView;
use crate::tokens::Token;

verus! {

/// The variables `total` and `space` behind the code that counts the slots of
/// the fields, which [`size_code`](crate::storage::size_code) gives for each.
pub open spec fn counting(measures: Seq<(nat, nat)>) -> (int, int)
    decreases measures.len(),
{
    if measures.len() == 0 {
        (0, 32)
    } else {
        let (total, space) = counting(measures.drop_last());
        let (bytes, words) = measures.last();
        if words > 0 {
            (total + words, 32)
        } else if space < bytes {
            (total + 1, 32 - bytes)
        } else {
            (total, space - bytes)
        }
    }
}

/// What `required_slots` gives for the fields: the code is
/// [`slots_code`](crate::storage::slots_code).
pub open spec fn counted(measures: Seq<(nat, nat)>) -> int {
    let (total, space) = counting(measures);
    if space != 32 || total == 0 {
        total + 1
    } else {
        total
    }
}

/// The slot and the offset of a field with that many `SLOT_BYTES`, where the
/// variables `slot` and `space` are these in front of it.
pub open spec fn place(before: (int, int), bytes: nat) -> (int, int) {
    let (slot, space) = before;
    if space < bytes {
        (slot + 1, 32 - bytes)
    } else {
        (slot, space - bytes)
    }
}

/// The variables `slot` and `space` behind the code that makes the accessors of
/// the fields, which [`place_code`](crate::storage::place_code) gives for each.
pub open spec fn placing(measures: Seq<(nat, nat)>) -> (int, int)
    decreases measures.len(),
{
    if measures.len() == 0 {
        (0, 32)
    } else {
        let (bytes, words) = measures.last();
        let (slot, space) = place(placing(measures.drop_last()), bytes);
        if words > 0 {
            (slot + words, 32)
        } else {
            (slot, space)
        }
    }
}

/// The slots, counted from the root, and the offsets that the constructor hands
/// to the fields, in order: the code is [`new_code`](crate::storage::new_code).
pub open spec fn placed(measures: Seq<(nat, nat)>) -> Seq<(int, int)>
    decreases measures.len(),
{
    if measures.len() == 0 {
        seq![]
    } else {
        let fewer = measures.drop_last();
        placed(fewer).push(place(placing(fewer), measures.last().0))
    }
}

/// No field has more bytes in a slot than the slot has, and a field that
/// requires slots of its own uses them whole.
pub open spec fn fits(measures: Seq<(nat, nat)>) -> bool {
    forall|i: int|
        0 <= i < measures.len() ==> (#[trigger] measures[i]).0 <= 32 && (measures[i].1 > 0
            ==> measures[i].0 == 32)
}

/// Every field is packed, and fits in a slot.
pub open spec fn all_packed(measures: Seq<(nat, nat)>) -> bool {
    forall|i: int|
        0 <= i < measures.len() ==> (#[trigger] measures[i]).0 <= 32 && measures[i].1 == 0
}

/// No field that requires slots of its own stands behind a slot that packed
/// fields have filled in part.
pub open spec fn aligned(measures: Seq<(nat, nat)>) -> bool {
    forall|i: int|
        0 <= i < measures.len() && (#[trigger] measures[i]).1 > 0 ==> placing(
            measures.take(i),
        ).1 == 32
}

/// The byte at some place of some slot belongs to the field.
pub open spec fn owns(at: (int, int), measure: (nat, nat), slot: int, byte: int) -> bool {
    if measure.1 > 0 {
        at.0 <= slot < at.0 + measure.1 && 0 <= byte < 32
    } else {
        slot == at.0 && at.1 <= byte < at.1 + measure.0
    }
}

/// Where a field is put depends on the fields in front of it alone.
proof fn lemma_placed_prefix(measures: Seq<(nat, nat)>, count: int)
    requires
        0 <= count <= measures.len(),
    ensures
        placed(measures).len() == measures.len(),
        placed(measures.take(count)).len() == count,
        forall|i: int|
            0 <= i < count ==> #[trigger] placed(measures)[i] == placed(measures.take(count))[i],
    decreases measures.len(),
{
    if measures.len() == 0 {
        assert(measures.take(count) =~= measures);
    } else {
        let fewer = measures.drop_last();
        lemma_placed_prefix(fewer, fewer.len() as int);
        if count == measures.len() {
            assert(measures.take(count) =~= measures);
        } else {
            lemma_placed_prefix(fewer, count);
            assert(fewer.take(count) =~= measures.take(count));
            assert forall|i: int| 0 <= i < count implies #[trigger] placed(measures)[i] == placed(
                measures.take(count),
            )[i] by {
                assert(placed(measures)[i] == placed(fewer)[i]);
            }
        }
    }
}

/// The last of the first fields is put behind those in front of it.
proof fn lemma_placed_at(measures: Seq<(nat, nat)>, i: int)
    requires
        0 <= i < measures.len(),
    ensures
        placed(measures).len() == measures.len(),
        placed(measures)[i] == place(placing(measures.take(i)), measures[i].0),
{
    let first = measures.take(i + 1);
    lemma_placed_prefix(measures, i + 1);
    lemma_placed_prefix(first, i);
    assert(first.drop_last() =~= measures.take(i));
    assert(first.take(i) =~= measures.take(i));
    assert(placed(measures)[i] == placed(first)[i]);
}

/// What a field owns lies before the slot that the code has come to, or in it
/// and behind the space that is left there.
pub open spec fn is_behind(at: (int, int), measure: (nat, nat), state: (int, int)) -> bool {
    &&& at.0 <= state.0
    &&& measure.1 > 0 ==> at.0 + measure.1 <= state.0
    &&& measure.1 == 0 && measure.0 > 0 ==> at.0 < state.0 || state.1 <= at.1
}

/// What the fields own lies behind the space that is left.
proof fn lemma_behind(measures: Seq<(nat, nat)>)
    requires
        fits(measures),
    ensures
        placed(measures).len() == measures.len(),
        0 <= placing(measures).0,
        0 <= placing(measures).1 <= 32,
        forall|i: int|
            0 <= i < measures.len() ==> is_behind(
                #[trigger] placed(measures)[i],
                measures[i],
                placing(measures),
            ),
    decreases measures.len(),
{
    if measures.len() > 0 {
        let fewer = measures.drop_last();
        let last = measures.len() - 1;
        assert(measures.last() == measures[last]);
        assert forall|i: int| 0 <= i < fewer.len() implies (#[trigger] fewer[i]).0 <= 32 && (
        fewer[i].1 > 0 ==> fewer[i].0 == 32) by {
            assert(fewer[i] == measures[i]);
        }
        lemma_behind(fewer);
        assert forall|i: int| 0 <= i < measures.len() implies is_behind(
            #[trigger] placed(measures)[i],
            measures[i],
            placing(measures),
        ) by {
            if i < last {
                assert(placed(measures)[i] == placed(fewer)[i]);
                assert(fewer[i] == measures[i]);
                assert(is_behind(placed(fewer)[i], fewer[i], placing(fewer)));
            }
        }
    }
}

/// No two fields overlap, and slots never decrease.
proof fn lemma_no_overlap(measures: Seq<(nat, nat)>)
    requires
        fits(measures),
    ensures
        placed(measures).len() == measures.len(),
        forall|i: int|
            0 <= i < measures.len() ==> 0 <= (#[trigger] placed(measures)[i]).0,
        forall|i: int|
            0 <= i < measures.len() ==> 0 <= (#[trigger] placed(measures)[i]).1 <= 32
                - measures[i].0,
        forall|i: int|
            0 <= i < measures.len() && measures[i].1 > 0 ==> (#[trigger] placed(measures)[i]).1
                == 0,
        forall|i: int, j: int|
            0 <= i < j < measures.len() ==> (#[trigger] placed(measures)[i]).0 <= (
            #[trigger] placed(measures)[j]).0,
        forall|i: int, j: int, slot: int, byte: int|
            0 <= i < j < measures.len() ==> !(#[trigger] owns(
                placed(measures)[i],
                measures[i],
                slot,
                byte,
            ) && #[trigger] owns(placed(measures)[j], measures[j], slot, byte)),
{
    let places = placed(measures);
    lemma_behind(measures);
    assert forall|i: int| 0 <= i < measures.len() implies 0 <= (#[trigger] places[i]).0 && 0
        <= places[i].1 <= 32 - measures[i].0 by {
        lemma_before(measures, i);
    }
    assert forall|i: int| 0 <= i < measures.len() && measures[i].1 > 0 implies (
    #[trigger] places[i]).1 == 0 by {
        lemma_before(measures, i);
        assert(measures[i].0 == 32);
    }
    assert forall|i: int, j: int| 0 <= i < j < measures.len() implies (#[trigger] places[i]).0 <= (
    #[trigger] places[j]).0 by {
        lemma_before(measures, j);
        assert(is_behind(places[i], measures[i], placing(measures.take(j))));
    }
    assert forall|i: int, j: int, slot: int, byte: int|
        0 <= i < j < measures.len() implies !(#[trigger] owns(
        places[i],
        measures[i],
        slot,
        byte,
    ) && #[trigger] owns(places[j], measures[j], slot, byte)) by {
        lemma_before(measures, j);
        assert(is_behind(places[i], measures[i], placing(measures.take(j))));
        assert(measures[j].1 > 0 ==> measures[j].0 == 32);
    }
}

/// A field is put where there is space, and what the fields in front of it own
/// lies behind that space.
proof fn lemma_before(measures: Seq<(nat, nat)>, j: int)
    requires
        fits(measures),
        0 <= j < measures.len(),
    ensures
        placed(measures).len() == measures.len(),
        placed(measures)[j] == place(placing(measures.take(j)), measures[j].0),
        0 <= placed(measures)[j].0,
        0 <= placed(measures)[j].1,
        placed(measures)[j].1 + measures[j].0 <= 32,
        forall|i: int|
            0 <= i < j ==> is_behind(
                #[trigger] placed(measures)[i],
                measures[i],
                placing(measures.take(j)),
            ),
{
    let first = measures.take(j);
    assert forall|i: int| 0 <= i < first.len() implies (#[trigger] first[i]).0 <= 32 && (
    first[i].1 > 0 ==> first[i].0 == 32) by {
        assert(first[i] == measures[i]);
    }
    lemma_placed_at(measures, j);
    lemma_placed_prefix(measures, j);
    lemma_behind(first);
    assert(measures[j].0 <= 32);
    assert forall|i: int| 0 <= i < j implies is_behind(
        #[trigger] placed(measures)[i],
        measures[i],
        placing(first),
    ) by {
        assert(placed(measures)[i] == placed(first)[i]);
        assert(first[i] == measures[i]);
        assert(is_behind(placed(first)[i], first[i], placing(first)));
    }
}

/// Counting and placing come to the same slot and leave the same space.
proof fn lemma_counting_is_placing(measures: Seq<(nat, nat)>)
    requires
        fits(measures),
        aligned(measures),
    ensures
        counting(measures) == placing(measures),
    decreases measures.len(),
{
    if measures.len() > 0 {
        let fewer = measures.drop_last();
        let last = measures.len() - 1;
        assert forall|i: int| 0 <= i < fewer.len() implies (#[trigger] fewer[i]).0 <= 32 && (
        fewer[i].1 > 0 ==> fewer[i].0 == 32) by {
            assert(fewer[i] == measures[i]);
        }
        assert forall|i: int| 0 <= i < fewer.len() && (#[trigger] fewer[i]).1 > 0 implies placing(
            fewer.take(i),
        ).1 == 32 by {
            assert(fewer[i] == measures[i]);
            assert(fewer.take(i) =~= measures.take(i));
        }
        lemma_counting_is_placing(fewer);
        assert(measures[last] == measures.last());
        assert(measures.take(last) =~= fewer);
    }
}

/// Every byte that a field owns lies in a slot that is counted.
proof fn lemma_counted_slots_hold(measures: Seq<(nat, nat)>)
    requires
        fits(measures),
        aligned(measures),
    ensures
        placed(measures).len() == measures.len(),
        forall|i: int, slot: int, byte: int|
            0 <= i < measures.len() && #[trigger] owns(
                placed(measures)[i],
                measures[i],
                slot,
                byte,
            ) ==> slot < counted(measures),
{
    lemma_counting_is_placing(measures);
    lemma_behind(measures);
    assert forall|i: int, slot: int, byte: int|
        0 <= i < measures.len() && #[trigger] owns(
            placed(measures)[i],
            measures[i],
            slot,
            byte,
        ) implies slot < counted(measures) by {
        lemma_before(measures, i);
        assert(is_behind(placed(measures)[i], measures[i], placing(measures)));
    }
}

/// Packed fields leave a whole slot only if they are still in the first.
proof fn lemma_packed(measures: Seq<(nat, nat)>)
    requires
        all_packed(measures),
    ensures
        0 <= placing(measures).1 <= 32,
        placing(measures).1 == 32 ==> placing(measures).0 == 0,
        measures.len() > 0 ==> placing(measures) == placed(measures).last(),
    decreases measures.len(),
{
    if measures.len() > 0 {
        let fewer = measures.drop_last();
        assert forall|i: int| 0 <= i < fewer.len() implies (#[trigger] fewer[i]).0 <= 32
            && fewer[i].1 == 0 by {
            assert(fewer[i] == measures[i]);
        }
        lemma_packed(fewer);
        assert(measures.last() == measures[measures.len() - 1]);
    }
}

/// Counting and placing agree on packed fields.
proof fn lemma_agree(measures: Seq<(nat, nat)>)
    requires
        measures.len() > 0,
        all_packed(measures),
    ensures
        placed(measures).len() == measures.len(),
        counted(measures) == 1 + placed(measures).last().0,
        forall|i: int|
            0 <= i < measures.len() ==> (#[trigger] placed(measures)[i]).0 <= placed(
                measures,
            ).last().0,
{
    assert forall|i: int| 0 <= i < measures.len() implies (#[trigger] measures[i]).0 <= 32 && (
    measures[i].1 > 0 ==> measures[i].0 == 32) by {}
    assert(fits(measures));
    assert(aligned(measures));
    lemma_counting_is_placing(measures);
    lemma_packed(measures);
    lemma_no_overlap(measures);
    assert forall|i: int| 0 <= i < measures.len() implies (#[trigger] placed(measures)[i]).0
        <= placed(measures).last().0 by {
        let last = measures.len() - 1;
        if i < last {
            assert(placed(measures)[i].0 <= placed(measures)[last].0);
        }
    }
}

/// The `SLOT_BYTES` and the `REQUIRED_SLOTS` of the types of fields, in order.
pub open spec fn measures(
    fields: Seq<StorageFieldView>,
    sizes: spec_fn(Seq<Token>) -> (nat, nat),
) -> Seq<(nat, nat)> {
    fields.map_values(|field: StorageFieldView| sizes(field.ty))
}

/// Every field has a name.
pub open spec fn all_named(fields: Seq<StorageFieldView>) -> bool {
    forall|i: int| 0 <= i < fields.len() ==> (#[trigger] fields[i]).name is Some
}

/// Running the code that counts the slots of the fields is counting.
proof fn lemma_sizes_run(
    fields: Seq<StorageFieldView>,
    sizes: spec_fn(Seq<Token>) -> (nat, nat),
    state: State,
)
    requires
        state.total == 0,
        state.space == 32,
    ensures
        run(sizes_steps(fields), sizes, state).total == counting(measures(fields, sizes)).0,
        run(sizes_steps(fields), sizes, state).space == counting(measures(fields, sizes)).1,
    decreases fields.len(),
{
    if fields.len() > 0 {
        let fewer = fields.drop_last();
        lemma_sizes_run(fewer, sizes, state);
        assert(measures(fields, sizes).drop_last() =~= measures(fewer, sizes));
        reveal_with_fuel(run, 7);
    }
}

/// What `required_slots` gives is what is counted.
pub proof fn law_required_slots_are_counted(
    fields: Seq<StorageFieldView>,
    sizes: spec_fn(Seq<Token>) -> (nat, nat),
)
    ensures
        required_slots(fields, sizes) == counted(measures(fields, sizes)),
{
    reveal_with_fuel(run, 5);
    lemma_sizes_run(fields, sizes, State { space: 32, ..start() });
}

/// Running the code that makes the accessor of one field places it.
proof fn lemma_place_runs(
    ty: Seq<Token>,
    sizes: spec_fn(Seq<Token>) -> (nat, nat),
    state: State,
)
    ensures
        ({
            let after = run(place_steps(ty), sizes, state);
            let at = place((state.slot, state.space), sizes(ty).0);
            &&& after.given == state.given
            &&& after.field == (ty, at.0, at.1)
            &&& (after.slot, after.space) == (if sizes(ty).1 > 0 {
                (at.0 + sizes(ty).1, 32int)
            } else {
                at
            })
        }),
{
    reveal_with_fuel(run, 7);
}

/// Running the code that makes the accessors of the fields is placing.
#[verifier::rlimit(40)]
proof fn lemma_inits_run(
    fields: Seq<StorageFieldView>,
    sizes: spec_fn(Seq<Token>) -> (nat, nat),
    state: State,
)
    requires
        all_named(fields),
        state.slot == 0,
        state.space == 32,
        state.given == Seq::<Given>::empty(),
    ensures
        run(inits_steps(fields), sizes, state).slot == placing(measures(fields, sizes)).0,
        run(inits_steps(fields), sizes, state).space == placing(measures(fields, sizes)).1,
        placed(measures(fields, sizes)).len() == fields.len(),
        run(inits_steps(fields), sizes, state).given == Seq::new(
            fields.len(),
            |k: int|
                Given {
                    name: fields[k].name->0,
                    ty: fields[k].ty,
                    slot: placed(measures(fields, sizes))[k].0,
                    offset: placed(measures(fields, sizes))[k].1,
                },
        ),
    decreases fields.len(),
{
    if fields.len() > 0 {
        let fewer = fields.drop_last();
        assert forall|i: int| 0 <= i < fewer.len() implies (#[trigger] fewer[i]).name is Some by {
            assert(fewer[i] == fields[i]);
        }
        assert(fields.last() == fields[fields.len() - 1]);
        lemma_inits_run(fewer, sizes, state);
        assert(measures(fields, sizes).drop_last() =~= measures(fewer, sizes));
        reveal_with_fuel(run, 3);
        lemma_place_runs(
            fields.last().ty,
            sizes,
            run(inits_steps(fewer), sizes, state),
        );
        assert(run(inits_steps(fields), sizes, state).given =~= Seq::new(
            fields.len(),
            |k: int|
                Given {
                    name: fields[k].name->0,
                    ty: fields[k].ty,
                    slot: placed(measures(fields, sizes))[k].0,
                    offset: placed(measures(fields, sizes))[k].1,
                },
        ));
    } else {
        assert(run(inits_steps(fields), sizes, state).given =~= Seq::empty());
    }
}

/// What the constructor hands to the fields is where they are placed.
pub proof fn law_constructor_places_the_fields(
    fields: Seq<StorageFieldView>,
    sizes: spec_fn(Seq<Token>) -> (nat, nat),
)
    requires
        all_named(fields),
    ensures
        handed_out(fields, sizes) == placed(measures(fields, sizes)),
        accessors(fields, sizes) == Seq::new(
            fields.len(),
            |k: int|
                Given {
                    name: fields[k].name->0,
                    ty: fields[k].ty,
                    slot: placed(measures(fields, sizes))[k].0,
                    offset: placed(measures(fields, sizes))[k].1,
                },
        ),
{
    reveal_with_fuel(run, 5);
    lemma_inits_run(fields, sizes, State { space: 32, ..start() });
    assert(handed_out(fields, sizes) =~= placed(measures(fields, sizes)));
}

/// The constructor gives every field an accessor of its own: the k-th goes by
/// the name of the k-th field, and is made for its type. It stands right behind
/// that of the field before: behind the slots that field requires, or else in
/// the rest of its slot if there is room, and in the next slot if not.
#[verifier::rlimit(40)]
pub proof fn law_every_field_gets_its_own_accessor(
    fields: Seq<StorageFieldView>,
    sizes: spec_fn(Seq<Token>) -> (nat, nat),
)
    requires
        forall|i: int| 0 <= i < fields.len() ==> (#[trigger] fields[i]).name is Some,
    ensures
        accessors(fields, sizes).len() == fields.len(),
        handed_out(fields, sizes).len() == fields.len(),
        forall|k: int|
            0 <= k < fields.len() ==> {
                let given = #[trigger] accessors(fields, sizes)[k];
                &&& fields[k].name == Some(given.name)
                &&& fields[k].ty == given.ty
                &&& handed_out(fields, sizes)[k] == (given.slot, given.offset)
            },
        forall|k: int|
            0 <= k < fields.len() ==> {
                let given = #[trigger] accessors(fields, sizes)[k];
                let before = accessors(fields, sizes)[k - 1];
                let bytes = sizes(fields[k].ty).0;
                let (slot, space) = if k == 0 {
                    (0int, 32int)
                } else if sizes(fields[k - 1].ty).1 > 0 {
                    (before.slot + sizes(fields[k - 1].ty).1, 32int)
                } else {
                    (before.slot, before.offset)
                };
                &&& bytes <= space ==> given.slot == slot && given.offset == space - bytes
                &&& bytes > space ==> given.slot == slot + 1 && given.offset == 32 - bytes
            },
{
    let all = measures(fields, sizes);
    law_constructor_places_the_fields(fields, sizes);
    assert forall|k: int| 0 <= k < fields.len() implies {
        let given = #[trigger] accessors(fields, sizes)[k];
        let before = accessors(fields, sizes)[k - 1];
        let bytes = sizes(fields[k].ty).0;
        let (slot, space) = if k == 0 {
            (0int, 32int)
        } else if sizes(fields[k - 1].ty).1 > 0 {
            (before.slot + sizes(fields[k - 1].ty).1, 32int)
        } else {
            (before.slot, before.offset)
        };
        &&& bytes <= space ==> given.slot == slot && given.offset == space - bytes
        &&& bytes > space ==> given.slot == slot + 1 && given.offset == 32 - bytes
    } by {
        lemma_placed_at(all, k);
        if k > 0 {
            lemma_placed_at(all, k - 1);
            assert(all.take(k).drop_last() =~= all.take(k - 1));
            assert(all.take(k).last() == sizes(fields[k - 1].ty));
        }
    }
}

/// In the generated constructor no two fields overlap, and slots never decrease
/// in the order of the fields. A packed field stays within its slot, and a field
/// that requires slots of its own starts at the front of the first.
pub proof fn law_fields_do_not_overlap(
    fields: Seq<StorageFieldView>,
    sizes: spec_fn(Seq<Token>) -> (nat, nat),
)
    requires
        all_named(fields),
        fits(measures(fields, sizes)),
    ensures
        handed_out(fields, sizes).len() == fields.len(),
        forall|i: int|
            0 <= i < fields.len() ==> 0 <= (#[trigger] handed_out(fields, sizes)[i]).0,
        forall|i: int|
            0 <= i < fields.len() ==> 0 <= (#[trigger] handed_out(fields, sizes)[i]).1 <= 32
                - sizes(fields[i].ty).0,
        forall|i: int|
            0 <= i < fields.len() && sizes(fields[i].ty).1 > 0 ==> (#[trigger] handed_out(
                fields,
                sizes,
            )[i]).1 == 0,
        forall|i: int, j: int|
            0 <= i < j < fields.len() ==> (#[trigger] handed_out(fields, sizes)[i]).0 <= (
            #[trigger] handed_out(fields, sizes)[j]).0,
        forall|i: int, j: int, slot: int, byte: int|
            0 <= i < j < fields.len() ==> !(#[trigger] owns(
                handed_out(fields, sizes)[i],
                sizes(fields[i].ty),
                slot,
                byte,
            ) && #[trigger] owns(
                handed_out(fields, sizes)[j],
                sizes(fields[j].ty),
                slot,
                byte,
            )),
{
    let all = measures(fields, sizes);
    law_constructor_places_the_fields(fields, sizes);
    lemma_no_overlap(all);
    assert forall|i: int| 0 <= i < fields.len() implies all[i] == sizes(
        (#[trigger] fields[i]).ty,
    ) by {}
    let places = placed(all);
    assert forall|i: int, j: int, slot: int, byte: int|
        0 <= i < j < fields.len() implies !(#[trigger] owns(
        places[i],
        sizes(fields[i].ty),
        slot,
        byte,
    ) && #[trigger] owns(places[j], sizes(fields[j].ty), slot, byte)) by {
        assert(!(owns(places[i], all[i], slot, byte) && owns(places[j], all[j], slot, byte)));
    }
}

/// Where each field that requires slots of its own stands behind whole slots,
/// every byte that a field owns lies in a slot that the generated
/// `required_slots` counts.
///
/// Behind a slot that is filled in part this fails: of one packed byte and a
/// field that requires one slot, one slot is counted, and two are used.
pub proof fn law_counted_slots_hold_the_fields(
    fields: Seq<StorageFieldView>,
    sizes: spec_fn(Seq<Token>) -> (nat, nat),
)
    requires
        all_named(fields),
        fits(measures(fields, sizes)),
        aligned(measures(fields, sizes)),
    ensures
        handed_out(fields, sizes).len() == fields.len(),
        forall|i: int, slot: int, byte: int|
            0 <= i < fields.len() && #[trigger] owns(
                handed_out(fields, sizes)[i],
                sizes(fields[i].ty),
                slot,
                byte,
            ) ==> slot < required_slots(fields, sizes),
{
    let all = measures(fields, sizes);
    law_constructor_places_the_fields(fields, sizes);
    law_required_slots_are_counted(fields, sizes);
    lemma_counted_slots_hold(all);
    let places = placed(all);
    assert forall|i: int, slot: int, byte: int|
        0 <= i < fields.len() && #[trigger] owns(
            places[i],
            sizes(fields[i].ty),
            slot,
            byte,
        ) implies slot < counted(all) by {
        assert(owns(places[i], all[i], slot, byte));
    }
}

/// The slot that the code has come to, or the one before it if it is still
/// whole, is used by a field.
proof fn lemma_last_slot_is_used(measures: Seq<(nat, nat)>)
    requires
        fits(measures),
        aligned(measures),
    ensures
        placed(measures).len() == measures.len(),
        0 <= placing(measures).1 <= 32,
        0 <= placing(measures).0,
        placing(measures).1 < 32 ==> exists|i: int, byte: int|
            0 <= i < measures.len() && #[trigger] owns(
                placed(measures)[i],
                measures[i],
                placing(measures).0,
                byte,
            ),
        placing(measures).1 == 32 && placing(measures).0 > 0 ==> exists|i: int, byte: int|
            0 <= i < measures.len() && #[trigger] owns(
                placed(measures)[i],
                measures[i],
                placing(measures).0 - 1,
                byte,
            ),
        placing(measures).1 == 32 && placing(measures).0 == 0 ==> forall|i: int|
            0 <= i < measures.len() ==> (#[trigger] measures[i]).0 == 0 && measures[i].1 == 0,
    decreases measures.len(),
{
    if measures.len() > 0 {
        let fewer = measures.drop_last();
        let last = measures.len() - 1;
        assert forall|i: int| 0 <= i < fewer.len() implies (#[trigger] fewer[i]).0 <= 32 && (
        fewer[i].1 > 0 ==> fewer[i].0 == 32) by {
            assert(fewer[i] == measures[i]);
        }
        assert forall|i: int| 0 <= i < fewer.len() && (#[trigger] fewer[i]).1 > 0 implies placing(
            fewer.take(i),
        ).1 == 32 by {
            assert(fewer[i] == measures[i]);
            assert(fewer.take(i) =~= measures.take(i));
        }
        lemma_last_slot_is_used(fewer);
        assert(measures[last] == measures.last());
        assert(measures.take(last) =~= fewer);
        let at = placed(measures)[last];
        let (bytes, words) = measures[last];
        if words > 0 {
            assert(owns(at, measures[last], placing(measures).0 - 1, 0));
        } else if bytes > 0 {
            assert(owns(at, measures[last], placing(measures).0, at.1));
        } else {
            let slot = if placing(fewer).1 < 32 {
                placing(fewer).0
            } else {
                placing(fewer).0 - 1
            };
            if exists|i: int, byte: int|
                0 <= i < fewer.len() && #[trigger] owns(placed(fewer)[i], fewer[i], slot, byte) {
                let (i, byte) = choose|i: int, byte: int|
                    0 <= i < fewer.len() && #[trigger] owns(placed(fewer)[i], fewer[i], slot, byte);
                assert(placed(measures)[i] == placed(fewer)[i]);
                assert(measures[i] == fewer[i]);
                assert(owns(placed(measures)[i], measures[i], slot, byte));
            }
            assert forall|i: int|
                placing(measures).1 == 32 && placing(measures).0 == 0 && 0 <= i
                    < measures.len() implies (#[trigger] measures[i]).0 == 0 && measures[i].1
                == 0 by {
                if i < last {
                    assert(fewer[i] == measures[i]);
                }
            }
        }
    }
}

/// The generated `required_slots` counts no slot too many and none too few:
/// where each field that requires slots of its own stands behind whole slots,
/// it gives one more than the largest slot in which a field owns a byte. Where
/// no field owns a byte, it gives one.
#[verifier::rlimit(40)]
pub proof fn law_required_slots_are_used(
    fields: Seq<StorageFieldView>,
    sizes: spec_fn(Seq<Token>) -> (nat, nat),
)
    requires
        forall|i: int| 0 <= i < fields.len() ==> (#[trigger] fields[i]).name is Some,
        forall|i: int|
            0 <= i < fields.len() ==> sizes((#[trigger] fields[i]).ty).0 <= 32 && (sizes(
                fields[i].ty,
            ).1 > 0 ==> sizes(fields[i].ty).0 == 32),
        forall|i: int|
            0 < i < fields.len() && sizes((#[trigger] fields[i]).ty).1 > 0 ==> sizes(
                fields[i - 1].ty,
            ).1 > 0 || accessors(fields, sizes)[i - 1].offset == 32,
    ensures
        accessors(fields, sizes).len() == fields.len(),
        forall|i: int|
            0 <= i < fields.len() && sizes((#[trigger] fields[i]).ty).1 > 0 ==> accessors(
                fields,
                sizes,
            )[i].slot + sizes(fields[i].ty).1 <= required_slots(fields, sizes),
        forall|i: int|
            0 <= i < fields.len() && sizes((#[trigger] fields[i]).ty).1 == 0 && sizes(
                fields[i].ty,
            ).0 > 0 ==> accessors(fields, sizes)[i].slot < required_slots(fields, sizes),
        (exists|i: int| 0 <= i < fields.len() && sizes((#[trigger] fields[i]).ty).0 > 0) ==> exists|i: int|
            0 <= i < fields.len() && sizes((#[trigger] fields[i]).ty).0 > 0 && required_slots(
                fields,
                sizes,
            ) == accessors(fields, sizes)[i].slot + (if sizes(fields[i].ty).1 > 0 {
                sizes(fields[i].ty).1 as int
            } else {
                1
            }),
        (forall|i: int| 0 <= i < fields.len() ==> sizes((#[trigger] fields[i]).ty).0 == 0)
            ==> required_slots(fields, sizes) == 1,
{
    let all = measures(fields, sizes);
    law_constructor_places_the_fields(fields, sizes);
    law_required_slots_are_counted(fields, sizes);
    assert forall|i: int| 0 <= i < all.len() implies (#[trigger] all[i]).0 <= 32 && (all[i].1 > 0
        ==> all[i].0 == 32) by {
        assert(all[i] == sizes(fields[i].ty));
    }
    assert forall|i: int| 0 <= i < all.len() && (#[trigger] all[i]).1 > 0 implies placing(
        all.take(i),
    ).1 == 32 by {
        assert(all[i] == sizes(fields[i].ty));
        if i > 0 {
            lemma_placed_at(all, i - 1);
            assert(all.take(i).drop_last() =~= all.take(i - 1));
            assert(all.take(i).last() == sizes(fields[i - 1].ty));
        }
    }
    lemma_counting_is_placing(all);
    lemma_last_slot_is_used(all);
    lemma_counted_slots_hold(all);
    assert forall|i: int| 0 <= i < fields.len() && sizes((#[trigger] fields[i]).ty).1 > 0 implies
        accessors(fields, sizes)[i].slot + sizes(fields[i].ty).1 <= counted(all) by {
        assert(owns(placed(all)[i], all[i], placed(all)[i].0 + all[i].1 - 1, 0));
    }
    assert forall|i: int|
        0 <= i < fields.len() && sizes((#[trigger] fields[i]).ty).1 == 0 && sizes(fields[i].ty).0
            > 0 implies accessors(fields, sizes)[i].slot < counted(all) by {
        assert(owns(placed(all)[i], all[i], placed(all)[i].0, placed(all)[i].1));
    }
    if exists|i: int| 0 <= i < fields.len() && sizes((#[trigger] fields[i]).ty).0 > 0 {
        let some = choose|i: int| 0 <= i < fields.len() && sizes((#[trigger] fields[i]).ty).0 > 0;
        assert(all[some].0 > 0);
        let slot = counted(all) - 1;
        let (i, byte) = choose|i: int, byte: int|
            0 <= i < all.len() && #[trigger] owns(placed(all)[i], all[i], slot, byte);
        assert(owns(placed(all)[i], all[i], slot, byte));
        assert(sizes(fields[i].ty) == all[i]);
        if all[i].1 > 0 {
            assert(owns(placed(all)[i], all[i], placed(all)[i].0 + all[i].1 - 1, 0));
        }
    }
    if forall|i: int| 0 <= i < fields.len() ==> sizes((#[trigger] fields[i]).ty).0 == 0 {
        assert forall|i: int, slot: int, byte: int| 0 <= i < all.len() implies !(#[trigger] owns(
            placed(all)[i],
            all[i],
            slot,
            byte,
        )) by {
            assert(all[i] == sizes(fields[i].ty));
        }
    }
}

/// Sizing and placement agree on packed fields: the generated `required_slots`
/// gives one more than the largest slot that the generated constructor hands to
/// a field, and that is the slot of the last field.
pub proof fn law_counting_and_placing_agree(
    fields: Seq<StorageFieldView>,
    sizes: spec_fn(Seq<Token>) -> (nat, nat),
)
    requires
        fields.len() > 0,
        all_named(fields),
        all_packed(measures(fields, sizes)),
    ensures
        handed_out(fields, sizes).len() == fields.len(),
        required_slots(fields, sizes) == 1 + handed_out(fields, sizes).last().0,
        forall|i: int|
            0 <= i < fields.len() ==> (#[trigger] handed_out(fields, sizes)[i]).0 <= handed_out(
                fields,
                sizes,
            ).last().0,
{
    law_constructor_places_the_fields(fields, sizes);
    law_required_slots_are_counted(fields, sizes);
    lemma_agree(measures(fields, sizes));
}

} // verus!
