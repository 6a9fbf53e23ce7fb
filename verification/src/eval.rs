use vstd::prelude::*;
use crate::padding::lemma_cell_in_grid;

verus! {

/// Some score is above `floor`.
pub open spec fn any_above(keys: Seq<u32>, floor: u32) -> bool {
    exists|j: int| 0 <= j < keys.len() && keys[j] > floor
}

/// `idx` is the first position of the highest score.
pub open spec fn first_max(keys: Seq<u32>, idx: int) -> bool {
    &&& 0 <= idx < keys.len()
    &&& forall|k: int| 0 <= k < keys.len() ==> keys[k] <= keys[idx]
    &&& forall|k: int| 0 <= k < idx ==> keys[k] < keys[idx]
}

/// The class a network predicts from its output scores, given as integers
/// that order as the scores do: the first position of the highest score,
/// provided it is above `floor`; position 0 when no score is above `floor`.
pub fn predicted_class(keys: &[u32], floor: u32) -> (idx: u32)
    requires
        keys.len() <= u32::MAX,
    ensures
        !any_above(keys@, floor) ==> idx == 0,
        any_above(keys@, floor) ==> keys[idx as int] > floor && first_max(keys@, idx as int),
        (forall|k: int| 0 <= k < keys.len() ==> keys[k] <= floor) ==> idx == 0,
        (exists|k: int| 0 <= k < keys.len() && keys[k] > floor) ==> {
            &&& idx < keys.len()
            &&& keys[idx as int] > floor
            &&& forall|k: int| 0 <= k < keys.len() ==> keys[k] <= keys[idx as int]
            &&& forall|k: int| 0 <= k < idx ==> keys[k] < keys[idx as int]
        },
{
    let mut max = floor;
    let mut max_idx: u32 = 0;
    let mut i: usize = 0;
    while i < keys.len()
        invariant
            i <= keys.len() <= u32::MAX,
            max >= floor,
            forall|k: int| 0 <= k < i ==> keys[k] <= max,
            max == floor ==> max_idx == 0,
            max > floor ==> max_idx < i && keys[max_idx as int] == max && forall|k: int|
                0 <= k < max_idx ==> keys[k] < max,
        decreases keys.len() - i,
    {
        if keys[i] > max {
            max = keys[i];
            max_idx = i as u32;
        }
        i = i + 1;
    }
    proof {
        if any_above(keys@, floor) {
            let j = choose|j: int| 0 <= j < keys.len() && keys[j] > floor;
            assert(keys[j] <= max);
        }
    }
    max_idx
}

/// Whether the predicted class is `label`.
pub fn prediction_matches(keys: &[u32], floor: u32, label: u32) -> (r: bool)
    requires
        keys.len() <= u32::MAX,
    ensures
        !any_above(keys@, floor) ==> (r <==> label == 0),
        any_above(keys@, floor) ==> (r <==> label < keys.len() && keys[label as int] > floor && first_max(
            keys@,
            label as int,
        )),
{
    let idx = predicted_class(keys, floor);
    proof {
        if any_above(keys@, floor) && label < keys.len() && keys[label as int] > floor && first_max(
            keys@,
            label as int,
        ) {
            if idx < label {
                assert(keys[idx as int] < keys[label as int]);
            } else if idx > label {
                assert(keys[label as int] < keys[idx as int]);
            }
        }
    }
    idx == label
}

/// Every flag of row `i` of a row-major grid with rows `width` long is set.
pub open spec fn row_all_set(flags: Seq<bool>, width: int, i: int) -> bool {
    forall|j: int| 0 <= j < width ==> #[trigger] flags[i * width + j]
}

/// How many of the first `rows` rows have every flag set.
pub open spec fn rows_all_set(flags: Seq<bool>, width: int, rows: int) -> nat
    decreases rows,
{
    if rows <= 0 {
        0
    } else {
        rows_all_set(flags, width, rows - 1) + if row_all_set(flags, width, rows - 1) {
            1nat
        } else {
            0nat
        }
    }
}

/// The count of fully set rows starts at zero and grows by one exactly for
/// each row whose every flag, up to and including the last column, is set;
/// it never exceeds the rows counted, equals them when every flag is set, and
/// falls short of them as soon as any flag of any counted row is unset.
pub proof fn lemma_rows_all_set(flags: Seq<bool>, width: int, rows: int)
    requires
        rows >= 0,
    ensures
        rows_all_set(flags, width, 0) == 0,
        rows_all_set(flags, width, rows + 1) == rows_all_set(flags, width, rows) + if (forall|j: int|
            0 <= j < width ==> #[trigger] flags[rows * width + j]) {
            1int
        } else {
            0int
        },
        (exists|j: int| 0 <= j < width && !#[trigger] flags[rows * width + j]) ==> rows_all_set(
            flags,
            width,
            rows + 1,
        ) == rows_all_set(flags, width, rows),
        rows_all_set(flags, width, rows) <= rows,
        (forall|i: int, j: int| 0 <= i < rows && 0 <= j < width ==> #[trigger] flags[i * width + j])
            ==> rows_all_set(flags, width, rows) == rows,
        (exists|i: int, j: int| 0 <= i < rows && 0 <= j < width && !#[trigger] flags[i * width + j])
            ==> rows_all_set(flags, width, rows) < rows,
    decreases rows,
{
    if rows > 0 {
        lemma_rows_all_set(flags, width, rows - 1);
        if exists|i: int, j: int| 0 <= i < rows && 0 <= j < width && !#[trigger] flags[i * width + j] {
            let (i, j) = choose|i: int, j: int| 0 <= i < rows && 0 <= j < width && !#[trigger] flags[i * width + j];
            if i < rows - 1 {
                assert(exists|ii: int, jj: int|
                    0 <= ii < rows - 1 && 0 <= jj < width && !#[trigger] flags[ii * width + jj]);
            } else {
                assert(!row_all_set(flags, width, rows - 1));
            }
        }
        if forall|i: int, j: int| 0 <= i < rows && 0 <= j < width ==> #[trigger] flags[i * width + j] {
            assert forall|i: int, j: int| 0 <= i < rows - 1 && 0 <= j < width implies #[trigger] flags[i * width
                + j] by {}
            assert forall|j: int| 0 <= j < width implies #[trigger] flags[(rows - 1) * width + j] by {}
        }
    }
}

/// Counts the samples of a batch that were classified correctly: sample `i`
/// is correct when every output of row `i` is close to its expected value,
/// given as one flag per output, row by row.
pub fn count_correct(flags: &[bool], width: usize, rows: u32) -> (r: u32)
    requires
        rows * width <= flags.len(),
    ensures
        r == rows_all_set(flags@, width as int, rows as int),
        r <= rows,
        (forall|i: int, j: int| 0 <= i < rows && 0 <= j < width ==> #[trigger] flags[i * width + j]) ==> r
            == rows,
        (exists|i: int, j: int| 0 <= i < rows && 0 <= j < width && !#[trigger] flags[i * width + j]) ==> r
            < rows,
{
    let mut amount: u32 = 0;
    let mut i: u32 = 0;
    while i < rows
        invariant
            i <= rows,
            rows * width <= flags.len(),
            amount == rows_all_set(flags@, width as int, i as int),
            amount <= i,
        decreases rows - i,
    {
        let mut is_correct = true;
        let mut j: usize = 0;
        while j < width
            invariant
                i < rows,
                j <= width,
                rows * width <= flags.len(),
                is_correct == forall|jj: int| 0 <= jj < j ==> #[trigger] flags[i * width + jj],
            decreases width - j,
        {
            proof {
                lemma_cell_in_grid(i as int, j as int, width as int, rows as int);
            }
            if !flags[i as usize * width + j] {
                is_correct = false;
            }
            j = j + 1;
        }
        if is_correct {
            amount = amount + 1;
        }
        i = i + 1;
    }
    proof {
        lemma_rows_all_set(flags@, width as int, rows as int);
    }
    amount
}

} // verus!
