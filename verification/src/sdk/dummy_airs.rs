use vstd::prelude::*;

verus! {

/// The number of columns of the Fibonacci AIR.
pub const NUM_FIBONACCI_COLS: usize = 2;

/// One row of the Fibonacci AIR.
pub struct FibonacciCols<F> {
    pub left: F,
    pub right: F,
}

impl<F> FibonacciCols<F> {
    pub fn new(left: F, right: F) -> (cols: FibonacciCols<F>)
        ensures
            cols.left == left,
            cols.right == right,
    {
        FibonacciCols { left, right }
    }
}

/// The columns of the AIR that does nothing but send or receive its
/// rows: the count first, then the fields of the message.
pub struct DummyInteractionCols;

impl DummyInteractionCols {
    pub fn count_col() -> (col: usize)
        ensures
            col == 0,
    {
        0
    }

    pub fn field_col(field_idx: usize) -> (col: usize)
        requires
            field_idx < usize::MAX,
        ensures
            col == field_idx + 1,
    {
        field_idx + 1
    }
}

/// The AIR that sends or receives each of its rows as a message on one
/// bus.
#[derive(Clone, Copy, Debug)]
pub struct DummyInteractionAir {
    pub field_width: usize,
    /// Send if true, receive if false.
    pub is_send: bool,
    pub bus_index: usize,
    pub count_weight: u32,
    /// If true, the count and the fields are in separate partitions of
    /// the main trace.
    pub partition: bool,
}

impl DummyInteractionAir {
    pub fn new(field_width: usize, is_send: bool, bus_index: usize) -> (air: Self)
        ensures
            air == (DummyInteractionAir {
                field_width,
                is_send,
                bus_index,
                count_weight: 0,
                partition: false,
            }),
    {
        DummyInteractionAir { field_width, is_send, bus_index, count_weight: 0, partition: false }
    }

    /// The same AIR with the count and the fields in separate partitions.
    pub fn partition(self) -> (air: Self)
        ensures
            air == (DummyInteractionAir { partition: true, ..self }),
    {
        DummyInteractionAir { partition: true, ..self }
    }

    pub fn field_width(&self) -> (w: usize)
        ensures
            w == self.field_width,
    {
        self.field_width
    }

    /// The widths of the cached partitions of the main trace: that of
    /// the fields if the AIR is partitioned, else none.
    pub fn cached_main_widths(&self) -> (widths: Vec<usize>)
        ensures
            widths@ == (if self.partition {
                seq![self.field_width]
            } else {
                Seq::<usize>::empty()
            }),
    {
        let mut widths: Vec<usize> = Vec::new();
        if self.partition {
            widths.push(self.field_width);
        }
        widths
    }

    /// The width of the common partition of the main trace: the count
    /// alone if the AIR is partitioned, else the count and the fields.
    pub fn common_main_width(&self) -> (width: usize)
        requires
            self.field_width < usize::MAX,
        ensures
            width == (if self.partition {
                1
            } else {
                1 + self.field_width
            }),
    {
        if self.partition {
            1
        } else {
            1 + self.field_width
        }
    }

    /// The number of columns of the AIR.
    pub fn width(&self) -> (width: usize)
        requires
            self.field_width < usize::MAX,
        ensures
            width == 1 + self.field_width,
    {
        1 + self.field_width
    }
}

/// The rows of the interaction AIR: for each row its count and its
/// fields.
#[derive(Clone, Debug)]
pub struct DummyInteractionData {
    pub count: Vec<u32>,
    pub fields: Vec<Vec<u32>>,
}

impl DummyInteractionData {
    /// There is at least one row, one list of fields per count, and every
    /// row has `field_width` fields.
    pub open spec fn fits(&self, field_width: usize) -> bool {
        &&& self.count@.len() > 0
        &&& self.fields@.len() == self.count@.len()
        &&& forall|r: int|
            0 <= r < self.fields@.len() ==> (#[trigger] self.fields@[r])@.len() == field_width
    }

    /// Checks that the data has the shape of a trace of the AIR with
    /// `field_width` fields.
    pub fn check(&self, field_width: usize) -> (ok: bool)
        ensures
            ok == self.fits(field_width),
    {
        let h = self.count.len();
        if h == 0 || self.fields.len() != h {
            return false;
        }
        let mut r: usize = 0;
        while r < h
            invariant
                h == self.fields@.len(),
                r <= h,
                forall|q: int| 0 <= q < r ==> (#[trigger] self.fields@[q])@.len() == field_width,
            decreases h - r,
        {
            if self.fields[r].len() != field_width {
                return false;
            }
            r += 1;
        }
        true
    }
}

/// The entry in row `r` and column `c` of the trace without partition:
/// the count and the fields of the row, and zero in the rows that pad the
/// trace.
pub open spec fn unpartitioned_entry(data: DummyInteractionData, r: int, c: int) -> u32 {
    if r < data.count@.len() {
        if c == 0 {
            data.count@[r]
        } else {
            data.fields@[r]@[c - 1]
        }
    } else {
        0
    }
}

/// The least power of two that is at least `n`.
pub open spec fn spec_next_power_of_two(n: nat) -> nat
    decreases n,
{
    if n <= 1 {
        1
    } else {
        2 * spec_next_power_of_two(((n + 1) / 2) as nat)
    }
}

/// `spec_next_power_of_two(n)` is a power of two, it is at least `n`, and
/// half of it is not.
pub proof fn lemma_next_power_of_two_is_least(n: nat)
    ensures
        spec_next_power_of_two(n) >= n,
        spec_next_power_of_two(n) >= 1,
        vstd::arithmetic::power2::is_pow2(spec_next_power_of_two(n) as int),
        spec_next_power_of_two(n) == 1 || spec_next_power_of_two(n) / 2 < n,
    decreases n,
{
    reveal(vstd::arithmetic::power2::is_pow2);
    if n > 1 {
        let half = ((n + 1) / 2) as nat;
        lemma_next_power_of_two_is_least(half);
        let p = spec_next_power_of_two(half);
        assert(spec_next_power_of_two(n) == 2 * p);
        assert((2 * p) / 2 == p);
        assert((2 * p) % 2 == 0);
    }
}

/// The least power of two that is at least `n`.
pub fn next_power_of_two(n: usize) -> (p: usize)
    requires
        spec_next_power_of_two(n as nat) <= usize::MAX,
    ensures
        p == spec_next_power_of_two(n as nat),
    decreases n,
{
    if n <= 1 {
        1
    } else {
        2 * next_power_of_two(n / 2 + n % 2)
    }
}

/// The trace of the interaction AIR without partition, row after row:
/// each row holds its count and then its fields, and rows of zeros pad
/// the trace to a height that is a power of two.  The result is the
/// entries and the width.
pub fn generate_traces_without_partition(data: &DummyInteractionData, field_width: usize) -> (trace:
    (Vec<u32>, usize))
    requires
        data.fits(field_width),
        spec_next_power_of_two(data.count@.len()) * (field_width + 1) <= usize::MAX,
    ensures
        trace.1 == field_width + 1,
        trace.0@.len() == spec_next_power_of_two(data.count@.len()) * (field_width + 1),
        forall|r: int, c: int|
            0 <= r < spec_next_power_of_two(data.count@.len()) && 0 <= c <= field_width
                ==> #[trigger] trace.0@[r * (field_width + 1) + c] == unpartitioned_entry(
                *data,
                r,
                c,
            ),
{
    let h = data.count.len();
    let w = field_width;
    proof {
        lemma_next_power_of_two_is_least(h as nat);
        let p = spec_next_power_of_two(h as nat);
        assert(p <= p * (w + 1) && w + 1 <= p * (w + 1)) by (nonlinear_arith)
            requires
                p >= 1,
                w >= 0,
        ;
    }
    let height = next_power_of_two(h);
    let width = w + 1;
    let mut values: Vec<u32> = Vec::new();
    let mut r: usize = 0;
    while r < height
        invariant
            h == data.count@.len(),
            data.fits(field_width),
            w == field_width,
            width == w + 1,
            r <= height,
            values@.len() == r * width,
            forall|q: int, c: int|
                0 <= q < r && 0 <= c < width ==> #[trigger] values@[q * width + c]
                    == unpartitioned_entry(*data, q, c),
        decreases height - r,
    {
        let ghost before = values@;
        assert((r + 1) * width == r * width + width) by (nonlinear_arith);
        if r < h {
            values.push(data.count[r]);
        } else {
            values.push(0);
        }
        let mut c: usize = 0;
        while c < w
            invariant
                h == data.count@.len(),
                data.fits(field_width),
                w == field_width,
                width == w + 1,
                r < height,
                c <= w,
                values@.len() == r * width + 1 + c,
                forall|i: int| 0 <= i < r * width ==> values@[i] == before[i],
                before.len() == r * width,
                forall|d: int|
                    0 <= d < 1 + c ==> #[trigger] values@[r * width + d] == unpartitioned_entry(
                        *data,
                        r as int,
                        d,
                    ),
            decreases w - c,
        {
            if r < h {
                assert(data.fields@[r as int]@.len() == field_width);
                values.push(data.fields[r][c]);
            } else {
                values.push(0);
            }
            c += 1;
        }
        proof {
            assert forall|q: int, d: int| 0 <= q < r + 1 && 0 <= d < width implies #[trigger] values@[q
                * width + d] == unpartitioned_entry(*data, q, d) by {
                if q < r {
                    assert(q * width + d < r * width) by (nonlinear_arith)
                        requires
                            0 <= q < r,
                            0 <= d < width,
                    ;
                    assert(values@[q * width + d] == before[q * width + d]);
                }
            }
        }
        r += 1;
    }
    (values, width)
}

/// The entry in row `r` and column `c` of the cached partition of the
/// partitioned trace: the fields of the row, and zero in the rows that
/// pad the trace.
pub open spec fn cached_entry(data: DummyInteractionData, r: int, c: int) -> u32 {
    if r < data.count@.len() {
        data.fields@[r]@[c]
    } else {
        0
    }
}

/// The entry in row `r` of the common partition of the partitioned
/// trace: the count of the row, and zero in the rows that pad the trace.
pub open spec fn common_entry(data: DummyInteractionData, r: int) -> u32 {
    if r < data.count@.len() {
        data.count@[r]
    } else {
        0
    }
}

/// The trace of the interaction AIR in two partitions: the counts in the
/// common partition, one column wide, and the fields in the cached
/// partition, both padded with zeros to a height that is a power of two.
/// The result is the entries of the common partition and the entries of
/// the cached partition, row after row.
pub fn generate_traces_with_partition(data: &DummyInteractionData, field_width: usize) -> (trace:
    (Vec<u32>, Vec<u32>))
    requires
        data.fits(field_width),
        spec_next_power_of_two(data.count@.len()) <= usize::MAX,
        spec_next_power_of_two(data.count@.len()) * field_width <= usize::MAX,
    ensures
        trace.0@.len() == spec_next_power_of_two(data.count@.len()),
        trace.1@.len() == trace.0@.len() * field_width,
        forall|r: int| 0 <= r < trace.0@.len() ==> #[trigger] trace.0@[r] == common_entry(*data, r),
        forall|r: int, c: int|
            0 <= r < trace.0@.len() && 0 <= c < field_width ==> #[trigger] trace.1@[r * field_width
                + c] == cached_entry(*data, r, c),
{
    let h = data.count.len();
    let w = field_width;
    let height = next_power_of_two(h);
    let mut common: Vec<u32> = Vec::with_capacity(height);
    let mut cached: Vec<u32> = Vec::new();
    let mut r: usize = 0;
    while r < height
        invariant
            h == data.count@.len(),
            data.fits(field_width),
            w == field_width,
            r <= height,
            common@.len() == r,
            cached@.len() == r * w,
            forall|q: int| 0 <= q < r ==> #[trigger] common@[q] == common_entry(*data, q),
            forall|q: int, c: int|
                0 <= q < r && 0 <= c < w ==> #[trigger] cached@[q * w + c] == cached_entry(
                    *data,
                    q,
                    c,
                ),
        decreases height - r,
    {
        let ghost before = cached@;
        assert((r + 1) * w == r * w + w) by (nonlinear_arith);
        common.push(if r < h {
            data.count[r]
        } else {
            0
        });
        let mut c: usize = 0;
        while c < w
            invariant
                h == data.count@.len(),
                data.fits(field_width),
                w == field_width,
                r < height,
                c <= w,
                cached@.len() == r * w + c,
                before.len() == r * w,
                forall|i: int| 0 <= i < r * w ==> cached@[i] == before[i],
                forall|d: int|
                    0 <= d < c ==> #[trigger] cached@[r * w + d] == cached_entry(*data, r as int, d),
            decreases w - c,
        {
            if r < h {
                assert(data.fields@[r as int]@.len() == field_width);
                cached.push(data.fields[r][c]);
            } else {
                cached.push(0);
            }
            c += 1;
        }
        proof {
            assert forall|q: int, d: int| 0 <= q < r + 1 && 0 <= d < w implies #[trigger] cached@[q
                * w + d] == cached_entry(*data, q, d) by {
                if q < r {
                    assert(q * w + d < r * w) by (nonlinear_arith)
                        requires
                            0 <= q < r,
                            0 <= d < w,
                    ;
                    assert(cached@[q * w + d] == before[q * w + d]);
                }
            }
        }
        r += 1;
    }
    (common, cached)
}

} // verus!
