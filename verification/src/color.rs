//! The colour that fills what a picture leaves uncovered.

use std::collections::HashMap;

use vstd::prelude::*;

verus! {

/// An opaque colour whose channels count thirty-seconds of full intensity.
#[derive(Clone, Copy, Debug, PartialEq, Eq, Structural)]
pub struct Srgb {
    pub r: u8,
    pub g: u8,
    pub b: u8,
}

/// Black.
pub open spec fn black() -> Srgb {
    Srgb { r: 0, g: 0, b: 0 }
}

impl Srgb {
    /// Black.
    pub fn black() -> (r: Srgb)
        ensures
            r == black(),
    {
        Srgb { r: 0, g: 0, b: 0 }
    }
}

/// How many pixels lie between two samples of a picture, in each direction.
pub open spec fn sample_step(width: u32, height: u32) -> nat {
    let side = if width >= height {
        width as nat
    } else {
        height as nat
    };
    if side / 64 >= 1 {
        side / 64
    } else {
        1
    }
}

/// How many samples a side of `side` pixels holds.
pub open spec fn samples_in(side: u32, step: nat) -> nat {
    (side as nat + step - 1) as nat / step
}

/// Where the four bytes of a pixel start.
pub open spec fn pixel_start(width: u32, x: nat, y: nat) -> nat {
    (y * width as nat + x) * 4
}

/// The bucket of a pixel: the top four bits of each colour channel. A pixel
/// that is not in the buffer, or is half transparent or more, has none.
pub open spec fn bucket_at(rgba: Seq<u8>, width: u32, x: nat, y: nat) -> Option<u32> {
    let i = pixel_start(width, x, y) as int;
    if i + 3 < rgba.len() && rgba[i + 3] > 128 {
        Some(((rgba[i] / 16) * 256 + (rgba[i + 1] / 16) * 16 + rgba[i + 2] / 16) as u32)
    } else {
        None
    }
}

/// How many of the first `cols` samples of a row fall into a bucket.
pub open spec fn row_count(
    rgba: Seq<u8>,
    width: u32,
    step: nat,
    y: nat,
    cols: nat,
    key: u32,
) -> nat
    decreases cols,
{
    if cols == 0 {
        0
    } else {
        let last = (cols - 1) as nat;
        row_count(rgba, width, step, y, last, key) + if bucket_at(rgba, width, last * step, y)
            == Some(key) {
            1nat
        } else {
            0nat
        }
    }
}

/// How many samples of the first `rows` sampled rows fall into a bucket.
pub open spec fn rows_count(
    rgba: Seq<u8>,
    width: u32,
    step: nat,
    cols: nat,
    rows: nat,
    key: u32,
) -> nat
    decreases rows,
{
    if rows == 0 {
        0
    } else {
        let last = (rows - 1) as nat;
        rows_count(rgba, width, step, cols, last, key) + row_count(
            rgba,
            width,
            step,
            last * step,
            cols,
            key,
        )
    }
}

/// How many samples of a picture fall into a bucket.
pub open spec fn bucket_count(rgba: Seq<u8>, width: u32, height: u32, key: u32) -> nat {
    let step = sample_step(width, height);
    rows_count(rgba, width, step, samples_in(width, step), samples_in(height, step), key)
}

/// `key` is the fullest bucket of a picture, or one of several that are equally
/// full.
pub open spec fn is_fullest(rgba: Seq<u8>, width: u32, height: u32, key: u32) -> bool {
    &&& bucket_count(rgba, width, height, key) > 0
    &&& forall|other: u32| #[trigger]
        bucket_count(rgba, width, height, other) <= bucket_count(rgba, width, height, key)
}

/// The colour in the middle of a bucket.
pub open spec fn middle_of(key: u32) -> Srgb {
    Srgb {
        r: (2 * (key / 256 % 16) + 1) as u8,
        g: (2 * (key / 16 % 16) + 1) as u8,
        b: (2 * (key % 16) + 1) as u8,
    }
}

/// A side holds at most 128 samples.
proof fn lemma_samples_bound(side: u32, width: u32, height: u32)
    requires
        side == width || side == height,
    ensures
        sample_step(width, height) >= 1,
        sample_step(width, height) <= 0x400_0000,
        samples_in(side, sample_step(width, height)) <= 128,
{
    let step = sample_step(width, height);
    assert(side <= 128 * step);
    assert((side as nat + step - 1) as nat / step <= 128) by (nonlinear_arith)
        requires
            side <= 128 * step,
            step >= 1,
    ;
}

/// The sample at `j` is inside a side just when `j` is below the samples of it.
proof fn lemma_sample_inside(side: u32, step: nat, j: nat)
    requires
        step >= 1,
    ensures
        j * step < side <==> j < samples_in(side, step),
{
    let count = samples_in(side, step);
    assert(j * step < side <==> j < count) by (nonlinear_arith)
        requires
            step >= 1,
            count == (side as nat + step - 1) as nat / step,
    ;
}

proof fn lemma_row_count_bound(rgba: Seq<u8>, width: u32, step: nat, y: nat, cols: nat, key: u32)
    ensures
        row_count(rgba, width, step, y, cols, key) <= cols,
    decreases cols,
{
    if cols > 0 {
        lemma_row_count_bound(rgba, width, step, y, (cols - 1) as nat, key);
    }
}

proof fn lemma_rows_count_bound(
    rgba: Seq<u8>,
    width: u32,
    step: nat,
    cols: nat,
    rows: nat,
    key: u32,
)
    ensures
        rows_count(rgba, width, step, cols, rows, key) <= rows * cols,
    decreases rows,
{
    if rows > 0 {
        let last = (rows - 1) as nat;
        lemma_rows_count_bound(rgba, width, step, cols, last, key);
        lemma_row_count_bound(rgba, width, step, last * step, cols, key);
        assert(rows * cols == last * cols + cols) by (nonlinear_arith)
            requires
                rows == last + 1,
        ;
    }
}

/// Past the end of the buffer a row adds nothing to any bucket.
proof fn lemma_row_past_end(
    rgba: Seq<u8>,
    width: u32,
    step: nat,
    y: nat,
    from: nat,
    cols: nat,
    key: u32,
)
    requires
        from <= cols,
        pixel_start(width, from * step, y) + 3 >= rgba.len(),
    ensures
        row_count(rgba, width, step, y, cols, key) == row_count(rgba, width, step, y, from, key),
    decreases cols,
{
    if from < cols {
        let last = (cols - 1) as nat;
        lemma_row_past_end(rgba, width, step, y, from, last, key);
        assert(from * step <= last * step) by (nonlinear_arith)
            requires
                from <= last,
        ;
    }
}

/// The counts of the samples of some whole rows and of part of the next one.
spec fn counted(
    buckets: Map<u32, u32>,
    rgba: Seq<u8>,
    width: u32,
    step: nat,
    cols: nat,
    row: nat,
    done: nat,
) -> bool {
    forall|key: u32|
        {
            let n = rows_count(rgba, width, step, cols, row, key) + row_count(
                rgba,
                width,
                step,
                row * step,
                done,
                key,
            );
            &&& #[trigger] buckets.contains_key(key) <==> n > 0
            &&& buckets.contains_key(key) ==> buckets[key] == n
        }
}

/// Counts the samples of a picture in each bucket.
pub fn count_buckets(rgba: &[u8], width: u32, height: u32) -> (buckets: HashMap<u32, u32>)
    ensures
        forall|key: u32|
            {
                &&& #[trigger] buckets@.contains_key(key) <==> bucket_count(
                    rgba@,
                    width,
                    height,
                    key,
                ) > 0
                &&& buckets@.contains_key(key) ==> buckets@[key] == bucket_count(
                    rgba@,
                    width,
                    height,
                    key,
                )
            },
{
    broadcast use vstd::std_specs::hash::group_hash_axioms;

    let side: u32 = if width >= height {
        width
    } else {
        height
    };
    let step: u64 = if side / 64 >= 1 {
        (side / 64) as u64
    } else {
        1
    };
    let mut buckets: HashMap<u32, u32> = HashMap::new();
    let mut y: u64 = 0;
    let ghost mut row: nat = 0;
    let ghost cols = samples_in(width, step as nat);
    let ghost rows = samples_in(height, step as nat);
    proof {
        lemma_samples_bound(width, width, height);
        lemma_samples_bound(height, width, height);
    }
    while y < height as u64
        invariant
            step == sample_step(width, height),
            1 <= step <= 0x400_0000,
            cols == samples_in(width, step as nat),
            rows == samples_in(height, step as nat),
            cols <= 128,
            rows <= 128,
            row <= rows,
            y == row * step,
            counted(buckets@, rgba@, width, step as nat, cols, row, 0),
        decreases rows - row,
    {
        proof {
            lemma_sample_inside(height, step as nat, row);
            lemma_sample_inside(width, step as nat, 0);
        }
        let mut x: u64 = 0;
        let ghost mut done: nat = 0;
        while x < width as u64
            invariant_except_break
                done <= cols,
                x == done * step,
                x < width <==> done < cols,
                counted(buckets@, rgba@, width, step as nat, cols, row, done),
            invariant
                step == sample_step(width, height),
                1 <= step <= 0x400_0000,
                cols == samples_in(width, step as nat),
                rows == samples_in(height, step as nat),
                cols <= 128,
                rows <= 128,
                row < rows,
                y < height,
                y == row * step,
            ensures
                counted(buckets@, rgba@, width, step as nat, cols, row, cols),
            decreases cols - done,
        {
            proof {
                assert(y * width <= 0xffff_ffff * 0xffff_ffff) by (nonlinear_arith)
                    requires
                        0 <= y <= 0xffff_ffff,
                        0 <= width <= 0xffff_ffff,
                ;
            }
            let start: u128 = (y as u128 * width as u128 + x as u128) * 4;
            if start + 3 >= rgba.len() as u128 {
                proof {
                    assert forall|key: u32| true implies #[trigger] row_count(
                        rgba@,
                        width,
                        step as nat,
                        row * step as nat,
                        cols,
                        key,
                    ) == row_count(rgba@, width, step as nat, row * step as nat, done, key) by {
                        lemma_row_past_end(
                            rgba@,
                            width,
                            step as nat,
                            row * step as nat,
                            done,
                            cols,
                            key,
                        );
                    }
                }
                break;
            }
            let i: usize = start as usize;
            let ghost before = buckets@;
            if rgba[i + 3] > 128 {
                let key: u32 = (rgba[i] / 16) as u32 * 256 + (rgba[i + 1] / 16) as u32 * 16 + (
                rgba[i + 2] / 16) as u32;
                proof {
                    lemma_rows_count_bound(rgba@, width, step as nat, cols, row, key);
                    lemma_row_count_bound(
                        rgba@,
                        width,
                        step as nat,
                        row * step as nat,
                        done,
                        key,
                    );
                    assert(row * cols <= 128 * 128) by (nonlinear_arith)
                        requires
                            row <= 128,
                            cols <= 128,
                    ;
                }
                let seen: u32 = match buckets.get(&key) {
                    Some(n) => *n,
                    None => 0,
                };
                buckets.insert(key, seen + 1);
            }
            proof {
                assert(bucket_at(rgba@, width, done * step as nat, row * step as nat) == if rgba[
                    i + 3] > 128 {
                    Some(
                        ((rgba[i as int] / 16) * 256 + (rgba[i + 1] / 16) * 16 + rgba[i + 2]
                            / 16) as u32,
                    )
                } else {
                    None
                });
                assert((done + 1) * step == done * step + step) by (nonlinear_arith);
                done = done + 1;
                lemma_sample_inside(width, step as nat, done);
            }
            x = x + step;
        }
        proof {
            assert((row + 1) * step == row * step + step) by (nonlinear_arith);
            row = row + 1;
        }
        y = y + step;
    }
    proof {
        lemma_sample_inside(height, step as nat, row);
    }
    buckets
}

/// A bucket that no other one exceeds, if there is any.
///
/// Where several are equally full, the order in which the map is walked decides.
pub fn fullest_bucket(buckets: &HashMap<u32, u32>) -> (r: Option<u32>)
    ensures
        r is None <==> buckets@.dom() =~= Set::<u32>::empty(),
        r matches Some(key) ==> buckets@.contains_key(key) && forall|other: u32| #[trigger]
            buckets@.contains_key(other) ==> buckets@[other] <= buckets@[key],
{
    broadcast use vstd::std_specs::hash::group_hash_axioms;

    let mut best: Option<(u32, u32)> = None;
    for (key, count) in walk: buckets.iter()
        invariant
            best is None <==> walk.index() == 0,
            best matches Some((k, c)) ==> buckets@.contains_key(k) && buckets@[k] == c && forall|
                j: int,
            |
                0 <= j < walk.index() ==> *(#[trigger] walk.seq()[j]).1 <= c,
    {
        let better: bool = match best {
            None => true,
            Some((_, most)) => *count >= most,
        };
        if better {
            best = Some((*key, *count));
        }
    }
    match best {
        Some((key, _)) => Some(key),
        None => None,
    }
}

/// The colour in the middle of a bucket.
pub fn bucket_color(key: u32) -> (r: Srgb)
    ensures
        r == middle_of(key),
{
    Srgb {
        r: (2 * (key / 256 % 16) + 1) as u8,
        g: (2 * (key / 16 % 16) + 1) as u8,
        b: (2 * (key % 16) + 1) as u8,
    }
}

/// `color` is the middle of a fullest bucket of a picture, or black where no
/// sample is opaque.
pub open spec fn is_dominant(rgba: Seq<u8>, width: u32, height: u32, color: Srgb) -> bool {
    if forall|key: u32| #[trigger] bucket_count(rgba, width, height, key) == 0 {
        color == black()
    } else {
        exists|key: u32| #[trigger] is_fullest(rgba, width, height, key) && color == middle_of(key)
    }
}

/// The most frequent colour of a picture, to sixteen steps in each channel.
pub fn dominant_color(rgba: &[u8], width: u32, height: u32) -> (r: Srgb)
    ensures
        is_dominant(rgba@, width, height, r),
{
    let buckets = count_buckets(rgba, width, height);
    match fullest_bucket(&buckets) {
        Some(key) => {
            proof {
                assert forall|other: u32| #[trigger]
                    bucket_count(rgba@, width, height, other) <= bucket_count(
                        rgba@,
                        width,
                        height,
                        key,
                    ) by {
                    assert(buckets@[key] == bucket_count(rgba@, width, height, key));
                    if buckets@.contains_key(other) {
                        assert(buckets@[other] <= buckets@[key]);
                    }
                }
                assert(is_fullest(rgba@, width, height, key));
            }
            bucket_color(key)
        },
        None => {
            proof {
                assert forall|key: u32| #[trigger] bucket_count(rgba@, width, height, key)
                    == 0 by {
                    assert(!buckets@.dom().contains(key));
                    assert(!buckets@.contains_key(key));
                }
            }
            Srgb::black()
        },
    }
}

/// All samples of a picture fall into one bucket.
pub open spec fn is_plain(rgba: Seq<u8>, width: u32, height: u32, key: u32) -> bool {
    let step = sample_step(width, height);
    forall|col: nat, row: nat|
        col < samples_in(width, step) && row < samples_in(height, step) ==> #[trigger] bucket_at(
            rgba,
            width,
            col * step,
            row * step,
        ) == Some(key)
}

proof fn lemma_plain_row(
    rgba: Seq<u8>,
    width: u32,
    step: nat,
    y: nat,
    cols: nat,
    key: u32,
    other: u32,
)
    requires
        forall|col: nat| col < cols ==> #[trigger] bucket_at(rgba, width, col * step, y) == Some(key),
    ensures
        row_count(rgba, width, step, y, cols, other) == if other == key {
            cols
        } else {
            0
        },
    decreases cols,
{
    if cols > 0 {
        let last = (cols - 1) as nat;
        lemma_plain_row(rgba, width, step, y, last, key, other);
        assert(bucket_at(rgba, width, last * step, y) == Some(key));
    }
}

proof fn lemma_plain_rows(
    rgba: Seq<u8>,
    width: u32,
    step: nat,
    cols: nat,
    rows: nat,
    key: u32,
    other: u32,
)
    requires
        forall|col: nat, row: nat|
            col < cols && row < rows ==> #[trigger] bucket_at(rgba, width, col * step, row * step)
                == Some(key),
    ensures
        rows_count(rgba, width, step, cols, rows, other) == if other == key {
            rows * cols
        } else {
            0
        },
    decreases rows,
{
    if rows > 0 {
        let last = (rows - 1) as nat;
        lemma_plain_rows(rgba, width, step, cols, last, key, other);
        lemma_plain_row(rgba, width, step, last * step, cols, key, other);
        assert(rows * cols == last * cols + cols) by (nonlinear_arith)
            requires
                rows == last + 1,
        ;
    } else {
        assert(0 * cols == 0);
    }
}

/// Where all samples of a picture fall into one bucket, its middle is the only
/// colour that can fill what the picture leaves uncovered.
pub proof fn law_plain_picture_decides_color(
    rgba: Seq<u8>,
    width: u32,
    height: u32,
    key: u32,
    color: Srgb,
)
    requires
        width > 0,
        height > 0,
        is_plain(rgba, width, height, key),
        is_dominant(rgba, width, height, color),
    ensures
        color == middle_of(key),
{
    let step = sample_step(width, height);
    let cols = samples_in(width, step);
    let rows = samples_in(height, step);
    lemma_sample_inside(width, step, 0);
    lemma_sample_inside(height, step, 0);
    lemma_plain_rows(rgba, width, step, cols, rows, key, key);
    assert(rows * cols > 0) by (nonlinear_arith)
        requires
            rows > 0,
            cols > 0,
    ;
    assert(bucket_count(rgba, width, height, key) > 0);
    let fullest = choose|fullest: u32| #[trigger]
        is_fullest(rgba, width, height, fullest) && color == middle_of(fullest);
    lemma_plain_rows(rgba, width, step, cols, rows, key, fullest);
}

/// How far two neighbouring samples of a picture are apart: a sixty-fourth of its
/// longer side, but at least one pixel.
pub open spec fn spacing(width: u32, height: u32) -> int {
    let longer = if width < height {
        height
    } else {
        width
    };
    if longer < 64 {
        1
    } else {
        longer as int / 64
    }
}

/// The pixel at `x` and `y` is in the buffer, is opaque, and has these top four bits
/// in its red, green and blue.
pub open spec fn looks_like(
    rgba: Seq<u8>,
    width: u32,
    x: int,
    y: int,
    r: int,
    g: int,
    b: int,
) -> bool {
    let at = 4 * (y * width + x);
    &&& at + 3 < rgba.len()
    &&& rgba[at] / 16 == r
    &&& rgba[at + 1] / 16 == g
    &&& rgba[at + 2] / 16 == b
    &&& rgba[at + 3] > 128
}

/// The samples of a picture that look alike, by their column and row among the
/// samples.
pub open spec fn samples_like(
    rgba: Seq<u8>,
    width: u32,
    height: u32,
    r: int,
    g: int,
    b: int,
) -> Set<(int, int)> {
    let step = spacing(width, height);
    Set::new(
        |p: (int, int)|
            {
                &&& 0 <= p.0 && p.0 * step < width
                &&& 0 <= p.1 && p.1 * step < height
                &&& looks_like(rgba, width, p.0 * step, p.1 * step, r, g, b)
            },
    )
}

/// The samples that look alike of some whole rows and of part of the next one.
spec fn part_like(
    rgba: Seq<u8>,
    width: u32,
    step: nat,
    cols: nat,
    rows: nat,
    done: nat,
    like: (int, int, int),
) -> Set<(int, int)> {
    Set::new(
        |p: (int, int)|
            {
                &&& 0 <= p.0
                &&& 0 <= p.1
                &&& p.1 < rows && p.0 < cols || p.1 == rows && p.0 < done
                &&& looks_like(rgba, width, p.0 * step, p.1 * step, like.0, like.1, like.2)
            },
    )
}

proof fn lemma_bucket_looks(
    rgba: Seq<u8>,
    width: u32,
    x: nat,
    y: nat,
    like: (int, int, int),
)
    requires
        0 <= like.0 < 16,
        0 <= like.1 < 16,
        0 <= like.2 < 16,
    ensures
        bucket_at(rgba, width, x, y) == Some((like.0 * 256 + like.1 * 16 + like.2) as u32)
            <==> looks_like(rgba, width, x as int, y as int, like.0, like.1, like.2),
{
    let at = 4 * (y * width + x);
    assert(0 <= y * width) by (nonlinear_arith);
    assert(pixel_start(width, x, y) == at);
}

proof fn lemma_part_of_row(
    rgba: Seq<u8>,
    width: u32,
    step: nat,
    cols: nat,
    rows: nat,
    done: nat,
    like: (int, int, int),
)
    requires
        0 <= like.0 < 16,
        0 <= like.1 < 16,
        0 <= like.2 < 16,
        part_like(rgba, width, step, cols, rows, 0, like).finite(),
    ensures
        part_like(rgba, width, step, cols, rows, done, like).finite(),
        part_like(rgba, width, step, cols, rows, done, like).len() == part_like(
            rgba,
            width,
            step,
            cols,
            rows,
            0,
            like,
        ).len() + row_count(
            rgba,
            width,
            step,
            rows * step,
            done,
            (like.0 * 256 + like.1 * 16 + like.2) as u32,
        ),
    decreases done,
{
    if done > 0 {
        let last = (done - 1) as nat;
        lemma_part_of_row(rgba, width, step, cols, rows, last, like);
        lemma_bucket_looks(rgba, width, last * step, rows * step, like);
        let before = part_like(rgba, width, step, cols, rows, last, like);
        let after = part_like(rgba, width, step, cols, rows, done, like);
        let p = (last as int, rows as int);
        if looks_like(rgba, width, p.0 * step, p.1 * step, like.0, like.1, like.2) {
            assert(after =~= before.insert(p));
            assert(!before.contains(p));
        } else {
            assert(after =~= before);
        }
    }
}

proof fn lemma_part_of_picture(
    rgba: Seq<u8>,
    width: u32,
    step: nat,
    cols: nat,
    rows: nat,
    like: (int, int, int),
)
    requires
        0 <= like.0 < 16,
        0 <= like.1 < 16,
        0 <= like.2 < 16,
    ensures
        part_like(rgba, width, step, cols, rows, 0, like).finite(),
        part_like(rgba, width, step, cols, rows, 0, like).len() == rows_count(
            rgba,
            width,
            step,
            cols,
            rows,
            (like.0 * 256 + like.1 * 16 + like.2) as u32,
        ),
    decreases rows,
{
    let part = part_like(rgba, width, step, cols, rows, 0, like);
    if rows == 0 {
        assert(part =~= Set::empty());
    } else {
        let last = (rows - 1) as nat;
        lemma_part_of_picture(rgba, width, step, cols, last, like);
        lemma_part_of_row(rgba, width, step, cols, last, cols, like);
        assert(part =~= part_like(rgba, width, step, cols, last, cols, like));
    }
}

/// A bucket counts the samples that look alike: pixels whose column and row are
/// multiples of the spacing, each read from the four bytes of its own.
pub proof fn law_buckets_count_samples(
    rgba: Seq<u8>,
    width: u32,
    height: u32,
    r: int,
    g: int,
    b: int,
)
    requires
        0 <= r < 16,
        0 <= g < 16,
        0 <= b < 16,
    ensures
        samples_like(rgba, width, height, r, g, b).finite(),
        bucket_count(rgba, width, height, (r * 256 + g * 16 + b) as u32) == samples_like(
            rgba,
            width,
            height,
            r,
            g,
            b,
        ).len(),
{
    let step = sample_step(width, height);
    let cols = samples_in(width, step);
    let rows = samples_in(height, step);
    lemma_part_of_picture(rgba, width, step, cols, rows, (r, g, b));
    let part = part_like(rgba, width, step, cols, rows, 0, (r, g, b));
    let all = samples_like(rgba, width, height, r, g, b);
    assert forall|p: (int, int)| #[trigger] all.contains(p) <==> part.contains(p) by {
        if 0 <= p.0 && 0 <= p.1 {
            lemma_sample_inside(width, step, p.0 as nat);
            lemma_sample_inside(height, step, p.1 as nat);
        }
    }
    assert(all =~= part);
}

/// A bucket that is not of sixteen steps in each channel stays empty.
proof fn lemma_no_other_bucket(rgba: Seq<u8>, width: u32, height: u32, key: u32)
    requires
        key >= 4096,
    ensures
        bucket_count(rgba, width, height, key) == 0,
{
    let step = sample_step(width, height);
    lemma_no_other_bucket_in_rows(
        rgba,
        width,
        step,
        samples_in(width, step),
        samples_in(height, step),
        key,
    );
}

proof fn lemma_no_other_bucket_in_row(
    rgba: Seq<u8>,
    width: u32,
    step: nat,
    y: nat,
    cols: nat,
    key: u32,
)
    requires
        key >= 4096,
    ensures
        row_count(rgba, width, step, y, cols, key) == 0,
    decreases cols,
{
    if cols > 0 {
        lemma_no_other_bucket_in_row(rgba, width, step, y, (cols - 1) as nat, key);
    }
}

proof fn lemma_no_other_bucket_in_rows(
    rgba: Seq<u8>,
    width: u32,
    step: nat,
    cols: nat,
    rows: nat,
    key: u32,
)
    requires
        key >= 4096,
    ensures
        rows_count(rgba, width, step, cols, rows, key) == 0,
    decreases rows,
{
    if rows > 0 {
        let last = (rows - 1) as nat;
        lemma_no_other_bucket_in_rows(rgba, width, step, cols, last, key);
        lemma_no_other_bucket_in_row(rgba, width, step, last * step, cols, key);
    }
}

proof fn lemma_key_of_color(key: u32, color: Srgb)
    requires
        key < 4096,
        color == middle_of(key),
    ensures
        ({
            let (x, y, z) = ((color.r - 1) / 2, (color.g - 1) / 2, (color.b - 1) / 2);
            &&& 0 <= x < 16 && color.r == 2 * x + 1
            &&& 0 <= y < 16 && color.g == 2 * y + 1
            &&& 0 <= z < 16 && color.b == 2 * z + 1
            &&& key == x * 256 + y * 16 + z
        }),
{
    let (x, y, z) = (key as int / 256, key as int / 16 % 16, key as int % 16);
    assert(key == x * 256 + y * 16 + z);
    assert(color.r == 2 * x + 1 && color.g == 2 * y + 1 && color.b == 2 * z + 1);
}

/// The dominant colour is black where no sample is opaque. Else each of its channels
/// is the middle of a sixteenth, and no other look has more samples than the one of
/// these sixteenths.
pub proof fn law_dominant_color_has_most_samples(
    rgba: Seq<u8>,
    width: u32,
    height: u32,
    color: Srgb,
    r: int,
    g: int,
    b: int,
)
    requires
        is_dominant(rgba, width, height, color),
        0 <= r < 16,
        0 <= g < 16,
        0 <= b < 16,
    ensures
        color == (Srgb { r: 0, g: 0, b: 0 }) ==> samples_like(rgba, width, height, r, g, b).len()
            == 0,
        color != (Srgb { r: 0, g: 0, b: 0 }) ==> {
            let (x, y, z) = ((color.r - 1) / 2, (color.g - 1) / 2, (color.b - 1) / 2);
            &&& 0 <= x < 16 && color.r == 2 * x + 1
            &&& 0 <= y < 16 && color.g == 2 * y + 1
            &&& 0 <= z < 16 && color.b == 2 * z + 1
            &&& samples_like(rgba, width, height, x, y, z).len() > 0
            &&& samples_like(rgba, width, height, x, y, z).len() >= samples_like(
                rgba,
                width,
                height,
                r,
                g,
                b,
            ).len()
        },
{
    law_buckets_count_samples(rgba, width, height, r, g, b);
    let asked = (r * 256 + g * 16 + b) as u32;
    if forall|key: u32| #[trigger] bucket_count(rgba, width, height, key) == 0 {
        assert(bucket_count(rgba, width, height, asked) == 0);
    } else {
        let key = choose|key: u32| #[trigger]
            is_fullest(rgba, width, height, key) && color == middle_of(key);
        if key >= 4096 {
            lemma_no_other_bucket(rgba, width, height, key);
        }
        lemma_key_of_color(key, color);
        let (x, y, z) = ((color.r - 1) / 2, (color.g - 1) / 2, (color.b - 1) / 2);
        law_buckets_count_samples(rgba, width, height, x, y, z);
        assert(bucket_count(rgba, width, height, asked) <= bucket_count(rgba, width, height, key));
    }
}

/// A look that more samples have than any other one decides the colour: each channel
/// is the middle of its sixteenth.
pub proof fn law_most_frequent_look_wins(
    rgba: Seq<u8>,
    width: u32,
    height: u32,
    color: Srgb,
    r: int,
    g: int,
    b: int,
)
    requires
        is_dominant(rgba, width, height, color),
        0 <= r < 16,
        0 <= g < 16,
        0 <= b < 16,
        samples_like(rgba, width, height, r, g, b).len() > 0,
        forall|x: int, y: int, z: int|
            0 <= x < 16 && 0 <= y < 16 && 0 <= z < 16 && (x, y, z) != (r, g, b)
                ==> #[trigger] samples_like(rgba, width, height, x, y, z).len() < samples_like(
                rgba,
                width,
                height,
                r,
                g,
                b,
            ).len(),
    ensures
        color.r == 2 * r + 1,
        color.g == 2 * g + 1,
        color.b == 2 * b + 1,
{
    law_dominant_color_has_most_samples(rgba, width, height, color, r, g, b);
    let (x, y, z) = ((color.r - 1) / 2, (color.g - 1) / 2, (color.b - 1) / 2);
    assert(samples_like(rgba, width, height, x, y, z).len() >= samples_like(
        rgba,
        width,
        height,
        r,
        g,
        b,
    ).len());
}

/// All samples of a picture, by their column and row among the samples.
pub open spec fn all_samples(width: u32, height: u32) -> Set<(int, int)> {
    let step = spacing(width, height);
    Set::new(
        |p: (int, int)| 0 <= p.0 && p.0 * step < width && 0 <= p.1 && p.1 * step < height,
    )
}

spec fn grid(cols: nat, rows: nat, done: nat) -> Set<(int, int)> {
    Set::new(
        |p: (int, int)|
            0 <= p.0 && 0 <= p.1 && (p.1 < rows && p.0 < cols || p.1 == rows && p.0 < done),
    )
}

proof fn lemma_grid_finite(cols: nat, rows: nat, done: nat)
    ensures
        grid(cols, rows, done).finite(),
    decreases rows, done,
{
    if done > 0 {
        lemma_grid_finite(cols, rows, (done - 1) as nat);
        let before = grid(cols, rows, (done - 1) as nat);
        assert(grid(cols, rows, done) =~= before.insert((done - 1, rows as int)));
    } else if rows > 0 {
        lemma_grid_finite(cols, (rows - 1) as nat, cols);
        assert(grid(cols, rows, done) =~= grid(cols, (rows - 1) as nat, cols));
    } else {
        assert(grid(cols, rows, done) =~= Set::empty());
    }
}

proof fn lemma_samples_finite(width: u32, height: u32)
    ensures
        all_samples(width, height).finite(),
{
    let all = all_samples(width, height);
    let area = grid(width as nat, height as nat, 0);
    lemma_grid_finite(width as nat, height as nat, 0);
    let step = spacing(width, height);
    assert forall|p: (int, int)| #[trigger] all.contains(p) implies area.contains(p) by {
        let (x, y) = p;
        assert(x < width && y < height) by (nonlinear_arith)
            requires
                0 <= x,
                0 <= y,
                step >= 1,
                x * step < width,
                y * step < height,
        ;
    }
    vstd::set_lib::lemma_len_subset(all, area);
}

/// A look that more than half of the samples have decides the colour.
pub proof fn law_look_of_the_majority_wins(
    rgba: Seq<u8>,
    width: u32,
    height: u32,
    color: Srgb,
    r: int,
    g: int,
    b: int,
)
    requires
        is_dominant(rgba, width, height, color),
        0 <= r < 16,
        0 <= g < 16,
        0 <= b < 16,
        2 * samples_like(rgba, width, height, r, g, b).len() > all_samples(width, height).len(),
    ensures
        color.r == 2 * r + 1,
        color.g == 2 * g + 1,
        color.b == 2 * b + 1,
{
    let all = all_samples(width, height);
    let most = samples_like(rgba, width, height, r, g, b);
    law_buckets_count_samples(rgba, width, height, r, g, b);
    lemma_samples_finite(width, height);
    assert forall|x: int, y: int, z: int|
        0 <= x < 16 && 0 <= y < 16 && 0 <= z < 16 && (x, y, z) != (r, g, b)
        implies #[trigger] samples_like(rgba, width, height, x, y, z).len() < most.len() by {
        let other = samples_like(rgba, width, height, x, y, z);
        law_buckets_count_samples(rgba, width, height, x, y, z);
        assert(most.disjoint(other));
        vstd::set_lib::lemma_set_disjoint_lens(most, other);
        assert((most + other).subset_of(all));
        vstd::set_lib::lemma_len_subset(most + other, all);
    }
    law_most_frequent_look_wins(rgba, width, height, color, r, g, b);
}

/// The colour found for a picture is the middle of the sixteenths that more than half of
/// its samples have.
pub proof fn law_color_of_the_majority_is_found(
    rgba: &[u8],
    width: u32,
    height: u32,
    color: Srgb,
    r: int,
    g: int,
    b: int,
)
    requires
        call_ensures(dominant_color, (rgba, width, height), color),
        0 <= r < 16,
        0 <= g < 16,
        0 <= b < 16,
        2 * samples_like(rgba@, width, height, r, g, b).len() > all_samples(width, height).len(),
    ensures
        color == (Srgb { r: (2 * r + 1) as u8, g: (2 * g + 1) as u8, b: (2 * b + 1) as u8 }),
{
    law_look_of_the_majority_wins(rgba@, width, height, color, r, g, b);
}

/// The counts of a picture have just the looks that some sample has, each with the number
/// of samples that have it.
pub proof fn law_looks_are_counted(
    rgba: &[u8],
    width: u32,
    height: u32,
    buckets: HashMap<u32, u32>,
    r: int,
    g: int,
    b: int,
)
    requires
        call_ensures(count_buckets, (rgba, width, height), buckets),
        0 <= r < 16,
        0 <= g < 16,
        0 <= b < 16,
    ensures
        ({
            let key = (r * 256 + g * 16 + b) as u32;
            let count = samples_like(rgba@, width, height, r, g, b).len();
            &&& buckets@.contains_key(key) <==> count > 0
            &&& buckets@.contains_key(key) ==> buckets@[key] == count
        }),
{
    law_buckets_count_samples(rgba@, width, height, r, g, b);
}

} // verus!
