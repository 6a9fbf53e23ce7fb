use vstd::prelude::*;
use vstd::arithmetic::div_mod::{lemma_fundamental_div_mod, lemma_mod_pos_bound};

verus! {

/// Bytes of one image in an IDX image file (28x28 pixels, one byte each).
pub const IMAGE_SIZE: usize = 28 * 28;

/// Bytes before the first image of an IDX image file.
pub const IMAGE_HEADER_BYTES: usize = 16;

/// Bytes before the first label of an IDX label file.
pub const LABEL_HEADER_BYTES: usize = 8;

/// Digit classes a label can name.
pub const CLASSES: usize = 10;

/// Where to read a run of images and their labels, and how many bytes.
#[derive(Clone, Copy, PartialEq, Eq, Structural, Debug)]
pub struct ReadPlan {
    pub image_pos: u64,
    pub label_pos: u64,
    pub image_len: usize,
    pub label_len: usize,
}

/// Where the `amount` images and labels from sample `offset` on lie in a
/// pair of IDX files: past the image header, `IMAGE_SIZE` bytes per image,
/// and past the label header, one byte per label.
pub fn read_plan(offset: usize, amount: usize) -> (r: ReadPlan)
    requires
        IMAGE_HEADER_BYTES + IMAGE_SIZE * offset <= usize::MAX,
        IMAGE_SIZE * amount <= usize::MAX,
    ensures
        r.image_pos == IMAGE_HEADER_BYTES + IMAGE_SIZE * offset,
        r.label_pos == LABEL_HEADER_BYTES + offset,
        r.image_len == IMAGE_SIZE * amount,
        r.label_len == amount,
{
    assert(IMAGE_SIZE == 784);
    assert(LABEL_HEADER_BYTES + offset <= IMAGE_HEADER_BYTES + IMAGE_SIZE * offset);
    ReadPlan {
        image_pos: (IMAGE_HEADER_BYTES + IMAGE_SIZE * offset) as u64,
        label_pos: (LABEL_HEADER_BYTES + offset) as u64,
        image_len: IMAGE_SIZE * amount,
        label_len: amount,
    }
}

/// The one-hot row of `label`: `one` in column `label`, `zero` elsewhere (a
/// label of ten or more has no column and gives a row of `zero`s).
pub open spec fn one_hot<T>(label: u8, one: T, zero: T, j: int) -> T {
    if j == label {
        one
    } else {
        zero
    }
}

/// A one-hot row holds `one` exactly in the column its label names and
/// `zero` in every other column; a label of ten or more names no column.
pub proof fn lemma_one_hot<T>(label: u8, one: T, zero: T, j: int)
    ensures
        j == label as int ==> one_hot(label, one, zero, j) == one,
        j != label as int ==> one_hot(label, one, zero, j) == zero,
        0 <= j < CLASSES && label as int >= CLASSES ==> one_hot(label, one, zero, j) == zero,
{
}

/// Turns labels into one-hot rows of `CLASSES` values each, one row per
/// label, in order.
pub fn convert_labels<T: Copy>(labels: &Vec<u8>, one: T, zero: T) -> (r: Vec<T>)
    requires
        labels.len() * CLASSES <= usize::MAX,
    ensures
        r.len() == labels.len() * CLASSES,
        forall|i: int, j: int|
            0 <= i < labels.len() && 0 <= j < CLASSES ==> #[trigger] r[i * CLASSES + j] == one_hot(
                labels[i],
                one,
                zero,
                j,
            ),
        forall|i: int, j: int|
            0 <= i < labels.len() && 0 <= j < CLASSES ==> (j == labels[i] as int ==> #[trigger] r[i * CLASSES
                + j] == one) && (j != labels[i] as int ==> r[i * CLASSES + j] == zero),
{
    let mut r: Vec<T> = Vec::new();
    let mut i: usize = 0;
    while i < labels.len()
        invariant
            i <= labels.len(),
            r.len() == i * CLASSES,
            forall|ii: int, j: int|
                0 <= ii < i && 0 <= j < CLASSES ==> #[trigger] r[ii * CLASSES + j] == one_hot(
                    labels[ii],
                    one,
                    zero,
                    j,
                ),
        decreases labels.len() - i,
    {
        let label = labels[i];
        let mut j: u8 = 0;
        while j < 10
            invariant
                i < labels.len(),
                j <= 10,
                label == labels[i as int],
                r.len() == i * CLASSES + j,
                forall|ii: int, jj: int|
                    0 <= ii < i && 0 <= jj < CLASSES ==> #[trigger] r[ii * CLASSES + jj] == one_hot(
                        labels[ii],
                        one,
                        zero,
                        jj,
                    ),
                forall|jj: int| 0 <= jj < j ==> #[trigger] r[i * CLASSES + jj] == one_hot(label, one, zero, jj),
            decreases 10 - j,
        {
            let ghost before = r@;
            if j == label {
                r.push(one);
            } else {
                r.push(zero);
            }
            proof {
                assert forall|ii: int, jj: int| 0 <= ii < i && 0 <= jj < CLASSES implies #[trigger] r[ii
                    * CLASSES + jj] == one_hot(labels[ii], one, zero, jj) by {
                    assert(r[ii * CLASSES + jj] == before[ii * CLASSES + jj]);
                }
                assert forall|jj: int| 0 <= jj < j + 1 implies #[trigger] r[i * CLASSES + jj] == one_hot(
                    label,
                    one,
                    zero,
                    jj,
                ) by {
                    if jj < j {
                        assert(r[i * CLASSES + jj] == before[i * CLASSES + jj]);
                    }
                }
            }
            j = j + 1;
        }
        i = i + 1;
    }
    proof {
        assert forall|ii: int, j: int| 0 <= ii < labels.len() && 0 <= j < CLASSES implies (j == labels[ii] as int
            ==> #[trigger] r[ii * CLASSES + j] == one) && (j != labels[ii] as int ==> r[ii * CLASSES + j]
            == zero) by {
            lemma_one_hot(labels[ii], one, zero, j);
        }
    }
    r
}

/// The batch that follows the full ones: it holds the `total % batch`
/// samples left over, and starts one sample before them.
pub open spec fn leftover_batch(total: int, batch: int) -> (int, int) {
    (total - total % batch - 1, total % batch)
}

/// The batches of one pass over `total` samples: `total / batch` full
/// batches one after another, then the leftover batch.
pub open spec fn batch_at(total: int, batch: int, i: int) -> (int, int) {
    if i < total / batch {
        (batch * i, batch)
    } else {
        leftover_batch(total, batch)
    }
}

/// The samples that a list of batches holds, counted with repetition.
pub open spec fn samples_in(batches: Seq<(usize, usize)>) -> int
    decreases batches.len(),
{
    if batches.len() == 0 {
        0
    } else {
        samples_in(batches.drop_last()) + batches.last().1
    }
}

/// Cuts one pass over `total` samples into batches of `batch` samples,
/// each as (first sample, number of samples): the full batches in order,
/// then the leftover batch.  Together they hold `total` samples, each one
/// within the data.
pub fn batch_schedule(total: usize, batch: usize) -> (r: Vec<(usize, usize)>)
    requires
        0 < batch <= total,
    ensures
        r.len() == total / batch + 1,
        forall|i: int|
            0 <= i < r.len() ==> (#[trigger] r[i]).0 == batch_at(total as int, batch as int, i).0 && r[i].1
                == batch_at(total as int, batch as int, i).1,
        samples_in(r@) == total,
        forall|i: int| 0 <= i < r.len() ==> (#[trigger] r[i]).0 + r[i].1 <= total,
        forall|i: int| 0 <= i < total / batch ==> (#[trigger] r[i]).0 == batch * i && r[i].1 == batch,
        r[(total / batch) as int].0 == total - total % batch - 1,
        r[(total / batch) as int].1 == total % batch,
{
    let full = total / batch;
    let mut r: Vec<(usize, usize)> = Vec::new();
    let mut i: usize = 0;
    proof {
        lemma_fundamental_div_mod(total as int, batch as int);
        lemma_mod_pos_bound(total as int, batch as int);
        assert(full * batch <= total) by (nonlinear_arith)
            requires full * batch + total % batch == total, total % batch >= 0;
    }
    while i < full
        invariant
            0 < batch <= total,
            full == total / batch,
            full * batch <= total,
            i <= full,
            r.len() == i,
            samples_in(r@) == batch * i,
            forall|k: int|
                0 <= k < i ==> (#[trigger] r[k]).0 == batch * k && r[k].1 == batch,
        decreases full - i,
    {
        proof {
            assert(batch * i + batch <= total) by (nonlinear_arith)
                requires i < full, full * batch <= total, batch > 0;
        }
        let ghost before = r@;
        r.push((batch * i, batch));
        proof {
            assert(r@.drop_last() =~= before);
            assert(batch * (i + 1) == batch * i + batch) by (nonlinear_arith);
        }
        i = i + 1;
    }
    let leftover = total % batch;
    proof {
        assert(leftover < total) by (nonlinear_arith)
            requires full * batch + leftover == total, full == total / batch, batch <= total, 0 <= leftover < batch;
    }
    let ghost before = r@;
    r.push((total - leftover - 1, leftover));
    proof {
        assert(r@.drop_last() =~= before);
        assert(batch * full + leftover == total) by (nonlinear_arith)
            requires full * batch + leftover == total;
        assert forall|k: int| 0 <= k < r.len() implies (#[trigger] r[k]).0 + r[k].1 <= total by {
            if k < full {
                assert(batch * k + batch <= total) by (nonlinear_arith)
                    requires k < full, full * batch <= total, batch > 0;
            }
        }
    }
    r
}

/// How many batches pass between two progress reports: enough batches to
/// cover at least `units` samples, rounded so that it is never zero.
pub fn progress_interval(units: u32, batch: u32) -> (r: u32)
    requires
        0 < units,
        0 < batch,
        units * (batch / units + 1) <= u32::MAX,
    ensures
        r == units * (batch / units + 1) / (batch as int),
        r >= 1,
{
    proof {
        assert(batch / units + 1 <= units * (batch / units + 1)) by (nonlinear_arith)
            requires units >= 1, batch / units >= 0;
    }
    let mult = batch / units + 1;
    proof {
        lemma_fundamental_div_mod(batch as int, units as int);
        lemma_mod_pos_bound(batch as int, units as int);
        assert(units * mult > batch) by (nonlinear_arith)
            requires
                mult == batch / units + 1,
                units * (batch / units) + batch % units == batch,
                batch % units < units;
        assert(units * mult / (batch as int) >= 1) by (nonlinear_arith)
            requires units * mult > batch, batch > 0;
    }
    units * mult / batch
}

/// Whether batch `i` is one after which progress is reported.
pub fn is_report_step(i: u32, interval: u32) -> (r: bool)
    requires
        interval > 0,
    ensures
        r == (i % interval == 0),
{
    i % interval == 0
}

} // verus!
