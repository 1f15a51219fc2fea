//! Attributes that belong to the macros.

use vstd::prelude::*;

use crate::syntax::{field_attribute_views, FieldAttribute, FieldAttributeView};
use crate::text::same;

verus! {

/// The attribute is the flag of that name.
pub open spec fn is_flag(attribute: FieldAttributeView, flag: Seq<char>) -> bool {
    attribute.ident == Some(flag)
}

/// The flag of that name is among the attributes.
pub open spec fn has_flag(attributes: Seq<FieldAttributeView>, flag: Seq<char>) -> bool {
    exists|i: int| 0 <= i < attributes.len() && is_flag(#[trigger] attributes[i], flag)
}

/// The attributes but for the flag of that name, in their order.
pub open spec fn without_flag(attributes: Seq<FieldAttributeView>, flag: Seq<char>) -> Seq<
    FieldAttributeView,
>
    decreases attributes.len(),
{
    if attributes.len() == 0 {
        seq![]
    } else if is_flag(attributes.last(), flag) {
        without_flag(attributes.drop_last(), flag)
    } else {
        without_flag(attributes.drop_last(), flag).push(attributes.last())
    }
}

/// One more attribute is looked at.
proof fn lemma_flag_step(attributes: Seq<FieldAttributeView>, seen: int, flag: Seq<char>)
    requires
        0 <= seen < attributes.len(),
    ensures
        has_flag(attributes.take(seen + 1), flag) == (has_flag(attributes.take(seen), flag)
            || is_flag(attributes[seen], flag)),
        without_flag(attributes.take(seen + 1), flag) == (if is_flag(attributes[seen], flag) {
            without_flag(attributes.take(seen), flag)
        } else {
            without_flag(attributes.take(seen), flag).push(attributes[seen])
        }),
{
    let more = attributes.take(seen + 1);
    let fewer = attributes.take(seen);
    assert(more.drop_last() =~= fewer);
    if has_flag(fewer, flag) {
        let i = choose|i: int| 0 <= i < fewer.len() && is_flag(#[trigger] fewer[i], flag);
        assert(is_flag(more[i], flag));
    }
    if is_flag(attributes[seen], flag) {
        assert(is_flag(more[seen], flag));
    }
    if has_flag(more, flag) {
        let i = choose|i: int| 0 <= i < more.len() && is_flag(#[trigger] more[i], flag);
        if i < seen {
            assert(is_flag(fewer[i], flag));
        }
    }
}

/// Takes a flag away from the attributes of a field, and tells whether it was
/// there.
pub fn consume_flag(attributes: &mut Vec<FieldAttribute>, flag: &str) -> (present: bool)
    ensures
        present == has_flag(field_attribute_views(old(attributes)@), flag@),
        field_attribute_views(final(attributes)@) == without_flag(
            field_attribute_views(old(attributes)@),
            flag@,
        ),
{
    let ghost before = field_attribute_views(attributes@);
    let ghost mut seen: int = 0;
    let mut present = false;
    let mut kept: usize = 0;
    assert(without_flag(before.take(0), flag@) + before.skip(0) =~= before);
    while kept < attributes.len()
        invariant
            0 <= seen <= before.len(),
            kept <= attributes.len(),
            attributes.len() - kept == before.len() - seen,
            kept == without_flag(before.take(seen), flag@).len(),
            field_attribute_views(attributes@) == without_flag(before.take(seen), flag@)
                + before.skip(seen),
            present == has_flag(before.take(seen), flag@),
        decreases attributes.len() - kept,
    {
        let ghost now = field_attribute_views(attributes@);
        let ghost next = without_flag(before.take(seen + 1), flag@) + before.skip(seen + 1);
        proof {
            assert(now[kept as int] == before[seen]);
            lemma_flag_step(before, seen, flag@);
        }
        let found = match &attributes[kept].ident {
            Some(ident) => same(ident.as_str(), flag),
            None => false,
        };
        if found {
            attributes.remove(kept);
            present = true;
            assert(field_attribute_views(attributes@) =~= now.remove(kept as int));
            assert(now.remove(kept as int) =~= next);
        } else {
            kept = kept + 1;
            assert(now =~= next);
        }
        proof {
            seen = seen + 1;
        }
    }
    proof {
        assert(before.take(seen) =~= before);
        assert(without_flag(before, flag@) + before.skip(seen) =~= without_flag(before, flag@));
    }
    present
}

} // verus!
