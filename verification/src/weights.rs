use vstd::prelude::*;

use crate::fields::{split_fields, split_on, strings_view};
use crate::DIMENSIONS;

verus! {

/// The character that separates the weights in a weights setting.
pub const WEIGHT_SEPARATOR: char = ',';

/// The fields of a weights setting that set a weight: its comma-separated
/// fields, at most `DIMENSIONS` of them, in order; later fields are ignored.
pub open spec fn weight_fields_of(setting: Seq<char>) -> Seq<Seq<char>> {
    let fields = split_on(setting, WEIGHT_SEPARATOR);
    if fields.len() <= DIMENSIONS {
        fields
    } else {
        fields.take(DIMENSIONS as int)
    }
}

/// The weights after the first `values.len()` of them are overwritten:
/// position `i` holds `values[i]` where there is one and keeps its old
/// weight otherwise.
pub open spec fn overwritten<T>(old_weights: Seq<T>, values: Seq<T>) -> Seq<T> {
    Seq::new(old_weights.len(), |i: int| if i < values.len() { values[i] } else { old_weights[i] })
}

/// The fields of a weights setting that set a weight: field `i` gives the
/// weight of metric `i`, for the first `DIMENSIONS` fields.
pub fn weight_fields(setting: &str) -> (fields: Vec<String>)
    ensures
        strings_view(fields@) == weight_fields_of(setting@),
        1 <= fields.len() <= DIMENSIONS,
        fields.len() == if split_on(setting@, WEIGHT_SEPARATOR).len() <= DIMENSIONS {
            split_on(setting@, WEIGHT_SEPARATOR).len()
        } else {
            DIMENSIONS as nat
        },
        forall|i: int|
            0 <= i < fields.len() ==> (#[trigger] fields@[i])@ == split_on(
                setting@,
                WEIGHT_SEPARATOR,
            )[i],
{
    let mut fields = split_fields(setting, WEIGHT_SEPARATOR);
    proof {
        crate::fields::lemma_split_nonempty(setting@, WEIGHT_SEPARATOR);
    }
    fields.truncate(DIMENSIONS);
    assert(strings_view(fields@) =~= weight_fields_of(setting@));
    proof {
        lemma_weight_fields_of(setting@);
        assert forall|i: int| 0 <= i < fields.len() implies (#[trigger] fields@[i])@ == split_on(
            setting@,
            WEIGHT_SEPARATOR,
        )[i] by {
            assert(strings_view(fields@)[i] == fields@[i]@);
        }
    }
    fields
}

/// Law: the weight fields of a setting are its comma-separated fields, the
/// first `min(n, DIMENSIONS)` of them in order, `n` being how many it has; a
/// setting of exactly `DIMENSIONS` fields gives all of them.
pub proof fn lemma_weight_fields_of(setting: Seq<char>)
    ensures
        weight_fields_of(setting).len() == if split_on(setting, WEIGHT_SEPARATOR).len()
            <= DIMENSIONS {
            split_on(setting, WEIGHT_SEPARATOR).len()
        } else {
            DIMENSIONS as nat
        },
        forall|i: int|
            0 <= i < weight_fields_of(setting).len() ==> #[trigger] weight_fields_of(setting)[i]
                == split_on(setting, WEIGHT_SEPARATOR)[i],
{
}

/// Law: after overwriting, the first `values.len()` weights are the values,
/// in order, and every later weight is the old one.
pub proof fn lemma_overwritten<T>(old_weights: Seq<T>, values: Seq<T>)
    requires
        values.len() <= old_weights.len(),
    ensures
        overwritten(old_weights, values).len() == old_weights.len(),
        forall|i: int| 0 <= i < values.len() ==> #[trigger] overwritten(old_weights, values)[i] == values[i],
        forall|i: int|
            values.len() <= i < old_weights.len() ==> #[trigger] overwritten(old_weights, values)[i]
                == old_weights[i],
{
}

/// Overwrites the first `values.len()` weights with `values`, in order, and
/// keeps the others.
pub fn overwrite_weights<T: Copy>(weights: &mut [T; DIMENSIONS], values: &Vec<T>)
    requires
        values.len() <= DIMENSIONS,
    ensures
        final(weights)@ == overwritten(old(weights)@, values@),
        final(weights)@.len() == DIMENSIONS,
        forall|i: int| 0 <= i < values.len() ==> #[trigger] final(weights)@[i] == values@[i],
        forall|i: int|
            values.len() <= i < DIMENSIONS ==> #[trigger] final(weights)@[i] == old(weights)@[i],
{
    let ghost start = weights@;
    let mut pos: usize = 0;
    while pos < values.len()
        invariant
            values.len() <= DIMENSIONS,
            pos <= values.len(),
            weights@.len() == DIMENSIONS,
            start.len() == DIMENSIONS,
            forall|i: int| 0 <= i < pos ==> weights@[i] == values@[i],
            forall|i: int| pos <= i < DIMENSIONS ==> weights@[i] == start[i],
        decreases values.len() - pos,
    {
        weights[pos] = values[pos];
        pos = pos + 1;
    }
    assert(weights@ =~= overwritten(start, values@));
}

} // verus!
