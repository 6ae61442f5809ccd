//! A latency histogram: each value lands in a power-of-two band split into linear
//! sub-buckets, so that it reads back within a sixteenth of its true size.

use vstd::arithmetic::div_mod::*;
use vstd::arithmetic::mul::*;
use vstd::arithmetic::power2::*;
use vstd::bits::*;
use vstd::prelude::*;
use vstd::std_specs::bits::u64_leading_zeros;

verus! {

/// Resolution bits of a band.
pub const SUB_BITS: u32 = 4;

/// Sub-buckets of a band.
pub const SUB_BUCKETS: u64 = 16;

/// Sixteen buckets for the small values, one each, and sixteen for each of the
/// sixty bands above.
pub const NUM_BUCKETS: usize = 976;

/// The number of values in a bucket.
pub open spec fn bucket_width(bucket: int) -> int {
    if bucket < 16 {
        1
    } else {
        pow2((bucket / 16 - 1) as nat) as int
    }
}

/// The smallest value in a bucket.
pub open spec fn bucket_low(bucket: int) -> int {
    if bucket < 16 {
        bucket
    } else {
        (16 + bucket % 16) * pow2((bucket / 16 - 1) as nat)
    }
}

/// Whether a value lies in a bucket.
pub open spec fn in_bucket(value: int, bucket: int) -> bool {
    bucket_low(bucket) <= value < bucket_low(bucket) + bucket_width(bucket)
}

/// The value that stands for a bucket: its middle.
pub open spec fn midpoint(bucket: int) -> int {
    bucket_low(bucket) + bucket_width(bucket) / 2
}

/// Buckets follow each other without a gap.
proof fn buckets_adjoin(bucket: int)
    requires
        0 <= bucket,
    ensures
        bucket_low(bucket) + bucket_width(bucket) == bucket_low(bucket + 1),
        bucket_width(bucket) > 0,
{
    if bucket < 15 {
    } else if bucket == 15 {
        lemma2_to64();
    } else {
        let band = (bucket / 16 - 1) as nat;
        lemma_pow2_pos(band);
        if bucket % 16 == 15 {
            assert((bucket + 1) / 16 - 1 == band + 1);
            assert((bucket + 1) % 16 == 0);
            lemma_pow2_unfold(band + 1);
            assert((16 + 15) * pow2(band) + pow2(band) == 16 * (2 * pow2(band)))
                by (nonlinear_arith);
        } else {
            assert((bucket + 1) / 16 == bucket / 16);
            assert((bucket + 1) % 16 == bucket % 16 + 1);
            assert((16 + bucket % 16) * pow2(band) + pow2(band) == (16 + (bucket % 16 + 1))
                * pow2(band)) by (nonlinear_arith);
        }
    }
}

/// A later bucket lies above an earlier one.
proof fn buckets_ascend(a: int, b: int)
    requires
        0 <= a < b,
    ensures
        bucket_low(a) + bucket_width(a) <= bucket_low(b),
    decreases b - a,
{
    buckets_adjoin(a);
    if a + 1 < b {
        buckets_ascend(a + 1, b);
        buckets_adjoin(a + 1);
    }
}

/// No value lies in two buckets.
pub proof fn bucket_is_unique(value: int, a: int, b: int)
    requires
        0 <= a,
        0 <= b,
        in_bucket(value, a),
        in_bucket(value, b),
    ensures
        a == b,
{
    if a < b {
        buckets_ascend(a, b);
    } else if b < a {
        buckets_ascend(b, a);
    }
}

/// The last bucket ends where `u64` does.
proof fn buckets_end(bucket: int)
    requires
        0 <= bucket < NUM_BUCKETS,
    ensures
        bucket_low(bucket) + bucket_width(bucket) <= 0x1_0000_0000_0000_0000,
{
    lemma2_to64_rest();
    assert(bucket_low(975) + bucket_width(975) == 31 * pow2(59) + pow2(59));
    assert(pow2(64) == 0x1_0000_0000_0000_0000) by {
        lemma_pow2_adds(5, 59);
        lemma2_to64();
    }
    lemma_pow2_adds(5, 59);
    lemma2_to64();
    assert(31 * pow2(59) + pow2(59) == pow2(64));
    if bucket < 975 {
        buckets_ascend(bucket, 975);
        buckets_adjoin(975);
    }
}

/// The middle of a bucket lies in it, so a value that is read back lands in the
/// bucket that it was read from.
pub proof fn midpoint_is_in_its_bucket(bucket: int)
    requires
        0 <= bucket,
    ensures
        in_bucket(midpoint(bucket), bucket),
{
    buckets_adjoin(bucket);
}

/// A value reads back within a sixteenth of its true size.
pub proof fn midpoint_is_close(value: int, bucket: int)
    requires
        0 <= bucket,
        in_bucket(value, bucket),
    ensures
        16 * (midpoint(bucket) - value) <= value,
        16 * (value - midpoint(bucket)) <= value,
{
    buckets_adjoin(bucket);
    if bucket >= 16 {
        let width = bucket_width(bucket);
        let sub = bucket % 16;
        assert(bucket_low(bucket) >= 16 * width) by {
            assert((16 + sub) * width >= 16 * width) by (nonlinear_arith)
                requires
                    sub >= 0,
                    width > 0,
            ;
        }
    }
}

/// The bits that a value needs.
proof fn magnitude_bounds(value: u64)
    ensures
        0 <= u64_leading_zeros(value) <= 64,
        value == 0 ==> u64_leading_zeros(value) == 64,
        value > 0 ==> u64_leading_zeros(value) < 64 && pow2(
            (63 - u64_leading_zeros(value)) as nat,
        ) <= value < pow2((64 - u64_leading_zeros(value)) as nat),
    decreases value,
{
    reveal(u64_leading_zeros);
    if value > 0 {
        magnitude_bounds(value / 2);
        lemma2_to64();
        if value / 2 > 0 {
            let bits = (64 - u64_leading_zeros(value / 2)) as nat;
            assert(u64_leading_zeros(value) == 63 - bits);
            if bits == 64 {
                lemma2_to64_rest();
                assert(pow2(63) == 0x8000_0000_0000_0000);
                assert(value / 2 < 0x8000_0000_0000_0000);
                assert(false);
            }
            lemma_pow2_unfold(bits + 1);
            lemma_pow2_unfold(bits);
        } else {
            assert(value == 1);
            assert(u64_leading_zeros(value) == 63);
        }
    }
}

/// How many of some samples lie in a bucket.
pub open spec fn tally(samples: Seq<u64>, bucket: int) -> nat
    decreases samples.len(),
{
    if samples.len() == 0 {
        0
    } else {
        tally(samples.drop_last(), bucket) + if in_bucket(samples.last() as int, bucket) {
            1nat
        } else {
            0nat
        }
    }
}

/// How many of some samples lie below a value.
pub open spec fn below(samples: Seq<u64>, value: int) -> nat
    decreases samples.len(),
{
    if samples.len() == 0 {
        0
    } else {
        below(samples.drop_last(), value) + if samples.last() < value {
            1nat
        } else {
            0nat
        }
    }
}

/// Whether `value` is the `rank`-th smallest of some samples, counted from one.
pub open spec fn is_ranked(samples: Seq<u64>, rank: int, value: u64) -> bool {
    below(samples, value as int) < rank <= below(samples, value + 1)
}

/// The samples in the buckets before `bucket` are those below its smallest value.
proof fn tallies_add_up(samples: Seq<u64>, bucket: int)
    requires
        0 <= bucket,
    ensures
        below(samples, bucket_low(bucket)) + tally(samples, bucket) == below(
            samples,
            bucket_low(bucket + 1),
        ),
    decreases samples.len(),
{
    if samples.len() > 0 {
        tallies_add_up(samples.drop_last(), bucket);
        buckets_adjoin(bucket);
    }
}

proof fn below_grows(samples: Seq<u64>, a: int, b: int)
    requires
        a <= b,
    ensures
        below(samples, a) <= below(samples, b) <= samples.len(),
    decreases samples.len(),
{
    if samples.len() > 0 {
        below_grows(samples.drop_last(), a, b);
    }
}

proof fn all_below(samples: Seq<u64>)
    ensures
        below(samples, 0x1_0000_0000_0000_0000) == samples.len(),
        below(samples, 0) == 0,
    decreases samples.len(),
{
    if samples.len() > 0 {
        all_below(samples.drop_last());
    }
}

proof fn tally_is_bounded(samples: Seq<u64>, bucket: int)
    ensures
        tally(samples, bucket) <= samples.len(),
    decreases samples.len(),
{
    if samples.len() > 0 {
        tally_is_bounded(samples.drop_last(), bucket);
    }
}

/// Counts latencies in nanoseconds.
pub struct LatencyHistogram {
    counts: Vec<u64>,
    total: u64,
    min: u64,
    max: u64,
    samples: Ghost<Seq<u64>>,
}

impl View for LatencyHistogram {
    type V = Seq<u64>;

    /// The samples that were recorded, in order.
    closed spec fn view(&self) -> Seq<u64> {
        self.samples@
    }
}

/// Whether `value` is the smallest of some samples.
pub open spec fn is_min(samples: Seq<u64>, value: u64) -> bool {
    samples.contains(value) && forall|i: int| 0 <= i < samples.len() ==> value <= #[trigger]
        samples[i]
}

/// Whether `value` is the largest of some samples.
pub open spec fn is_max(samples: Seq<u64>, value: u64) -> bool {
    samples.contains(value) && forall|i: int| 0 <= i < samples.len() ==> #[trigger] samples[i]
        <= value
}

impl LatencyHistogram {
    /// The counts, the total and the bounds are those of the samples.
    pub closed spec fn wf(self) -> bool {
        &&& self.counts@.len() == NUM_BUCKETS
        &&& forall|b: int| 0 <= b < NUM_BUCKETS ==> #[trigger] self.counts@[b] == tally(
            self.samples@,
            b,
        )
        &&& self.total == self.samples@.len()
        &&& self.samples@.len() == 0 ==> self.min == u64::MAX && self.max == 0
        &&& self.samples@.len() > 0 ==> is_min(self.samples@, self.min) && is_max(
            self.samples@,
            self.max,
        )
    }

    pub fn new() -> (histogram: Self)
        ensures
            histogram.wf(),
            histogram@ == Seq::<u64>::empty(),
    {
        let mut counts: Vec<u64> = Vec::new();
        let mut i: usize = 0;
        while i < NUM_BUCKETS
            invariant
                i <= NUM_BUCKETS,
                counts@.len() == i,
                forall|b: int| 0 <= b < i ==> #[trigger] counts@[b] == 0,
            decreases NUM_BUCKETS - i,
        {
            counts.push(0);
            i += 1;
        }
        LatencyHistogram {
            counts,
            total: 0,
            min: u64::MAX,
            max: 0,
            samples: Ghost(Seq::empty()),
        }
    }

    /// The bucket of a value.
    pub fn bucket_of(ns: u64) -> (bucket: usize)
        ensures
            bucket < NUM_BUCKETS,
            in_bucket(ns as int, bucket as int),
    {
        proof {
            magnitude_bounds(ns);
            lemma2_to64();
        }
        let magnitude: u32 = 64 - ns.leading_zeros();
        if magnitude <= SUB_BITS {
            proof {
                if ns > 0 && magnitude < 4 {
                    lemma_pow2_strictly_increases(magnitude as nat, 4);
                }
                assert(ns < 16);
            }
            return ns as usize;
        }
        let band: u64 = (magnitude - SUB_BITS) as u64;
        let shift: u32 = magnitude - SUB_BITS - 1;
        let top: u64 = ns >> shift;
        proof {
            let s = shift as nat;
            lemma_pow2_pos(s);
            lemma_u64_shr_is_div(ns, shift as u64);
            assert(ns >> shift == ns >> (shift as u64));
            lemma_pow2_adds(s, 4);
            lemma_pow2_adds(s, 5);
            let p = pow2(s) as int;
            assert(pow2((magnitude - 1) as nat) == 16 * p);
            assert(pow2(magnitude as nat) == 32 * p);
            lemma_fundamental_div_mod(ns as int, p);
            lemma_mod_bound(ns as int, p);
            assert(16 <= top < 32) by (nonlinear_arith)
                requires
                    16 * p <= ns < 32 * p,
                    p > 0,
                    ns == p * (top as int) + ns as int % p,
                    0 <= ns as int % p < p,
            ;
            assert(top & 15 == top - 16) by (bit_vector)
                requires
                    16 <= top < 32,
            ;
        }
        let sub: u64 = top & (SUB_BUCKETS - 1);
        proof {
            let p = pow2(shift as nat) as int;
            let bucket = 16 * band + sub;
            assert(bucket / 16 == band && bucket % 16 == sub);
            assert(bucket_low(bucket as int) == (16 + sub) * p);
            assert((16 + sub) * p <= ns < (16 + sub) * p + p) by (nonlinear_arith)
                requires
                    top == 16 + sub,
                    ns == p * (top as int) + ns as int % p,
                    0 <= ns as int % p < p,
            ;
        }
        (SUB_BUCKETS * band + sub) as usize
    }

    /// The value that stands for a bucket.
    pub fn bucket_midpoint(bucket: usize) -> (value: u64)
        requires
            bucket < NUM_BUCKETS,
        ensures
            value == midpoint(bucket as int),
    {
        let index: u64 = bucket as u64;
        if index < SUB_BUCKETS {
            return index;
        }
        let band: u64 = index / SUB_BUCKETS;
        let sub: u64 = index % SUB_BUCKETS;
        let shift: u32 = (band - 1) as u32;
        proof {
            let p = pow2(shift as nat) as int;
            lemma_pow2_pos(shift as nat);
            buckets_end(bucket as int);
            assert(bucket_low(bucket as int) == (16 + sub) * p);
            assert(p <= (16 + sub) * p) by (nonlinear_arith)
                requires
                    p > 0,
            ;
            lemma_u64_shl_is_mul((16 + sub) as u64, shift as u64);
            lemma_u64_shl_is_mul(1, shift as u64);
        }
        let low: u64 = (SUB_BUCKETS + sub) << (shift as u64);
        let width: u64 = 1u64 << (shift as u64);
        low + width / 2
    }

    /// Records one sample.
    pub fn record(&mut self, ns: u64)
        requires
            old(self).wf(),
            old(self)@.len() < u64::MAX,
        ensures
            final(self).wf(),
            final(self)@ == old(self)@.push(ns),
    {
        let bucket: usize = Self::bucket_of(ns);
        let ghost before = self.samples@;
        let ghost after = before.push(ns);
        proof {
            tally_is_bounded(before, bucket as int);
            assert(after.drop_last() =~= before);
            assert forall|b: int| 0 <= b < NUM_BUCKETS && b != bucket implies tally(after, b)
                == #[trigger] tally(before, b) by {
                if in_bucket(ns as int, b) {
                    bucket_is_unique(ns as int, b, bucket as int);
                }
            }
        }
        let count: u64 = self.counts[bucket];
        self.counts.set(bucket, count + 1);
        self.total = self.total + 1;
        if ns < self.min {
            self.min = ns;
        }
        if ns > self.max {
            self.max = ns;
        }
        self.samples = Ghost(after);
        proof {
            assert(after[before.len() as int] == ns);
            assert forall|v: u64| before.contains(v) implies after.contains(v) by {
                let i = choose|i: int| 0 <= i < before.len() && before[i] == v;
                assert(after[i] == v);
            }
        }
    }

    /// The number of samples.
    pub fn count(&self) -> (count: u64)
        requires
            self.wf(),
        ensures
            count == self@.len(),
    {
        self.total
    }

    /// The smallest sample; zero where there is none.
    pub fn min(&self) -> (min: u64)
        requires
            self.wf(),
        ensures
            self@.len() > 0 ==> is_min(self@, min),
            self@.len() == 0 ==> min == 0,
    {
        if self.total == 0 {
            0
        } else {
            self.min
        }
    }

    /// The largest sample; zero where there is none.
    pub fn max(&self) -> (max: u64)
        requires
            self.wf(),
        ensures
            self@.len() > 0 ==> is_max(self@, max),
            self@.len() == 0 ==> max == 0,
    {
        self.max
    }

    /// The value at a rank, counted from one: the middle of the bucket in which
    /// the sample of that rank lies. A rank of zero counts as one; past the last
    /// sample the value is the largest one.
    pub fn value_at_rank(&self, rank: u64) -> (value: u64)
        requires
            self.wf(),
        ensures
            self@.len() == 0 ==> value == 0,
            self@.len() > 0 && rank > self@.len() ==> is_max(self@, value),
            self@.len() > 0 && rank <= self@.len() ==> exists|b: int|
                #![trigger midpoint(b)]
                {
                    &&& 0 <= b < NUM_BUCKETS
                    &&& value == midpoint(b)
                    &&& below(self@, bucket_low(b)) < (if rank == 0 {
                        1
                    } else {
                        rank as int
                    }) <= below(self@, bucket_low(b + 1))
                },
    {
        if self.total == 0 {
            return 0;
        }
        let wanted: u64 = if rank == 0 {
            1
        } else {
            rank
        };
        let mut seen: u64 = 0;
        let mut bucket: usize = 0;
        proof {
            all_below(self.samples@);
        }
        while bucket < NUM_BUCKETS
            invariant
                self.wf(),
                bucket <= NUM_BUCKETS,
                wanted == (if rank == 0 {
                    1u64
                } else {
                    rank
                }),
                self@.len() > 0,
                seen == below(self.samples@, bucket_low(bucket as int)),
                seen < wanted,
            decreases NUM_BUCKETS - bucket,
        {
            proof {
                tallies_add_up(self.samples@, bucket as int);
                buckets_adjoin(bucket as int);
                below_grows(
                    self.samples@,
                    bucket_low(bucket as int),
                    bucket_low(bucket + 1),
                );
            }
            seen = seen + self.counts[bucket];
            if seen >= wanted {
                return Self::bucket_midpoint(bucket);
            }
            bucket += 1;
        }
        proof {
            lemma2_to64();
            lemma2_to64_rest();
            buckets_adjoin(975);
            buckets_end(975);
            lemma_pow2_adds(5, 59);
            assert(bucket_low(976) == 0x1_0000_0000_0000_0000) by {
                assert(bucket_low(975) + bucket_width(975) == 31 * pow2(59) + pow2(59));
                assert(pow2(64) == 32 * pow2(59));
            }
            all_below(self.samples@);
        }
        self.max
    }
}

/// What a histogram gives for a rank is within a sixteenth of the sample of that
/// rank.
pub proof fn ranked_value_is_close(samples: Seq<u64>, rank: int, exact: u64, bucket: int)
    requires
        0 <= bucket,
        is_ranked(samples, rank, exact),
        below(samples, bucket_low(bucket)) < rank <= below(samples, bucket_low(bucket + 1)),
    ensures
        in_bucket(exact as int, bucket),
        16 * (midpoint(bucket) - exact) <= exact,
        16 * (exact - midpoint(bucket)) <= exact,
{
    buckets_adjoin(bucket);
    if exact < bucket_low(bucket) {
        below_grows(samples, exact + 1, bucket_low(bucket));
    } else if exact >= bucket_low(bucket + 1) {
        below_grows(samples, bucket_low(bucket + 1), exact as int);
    }
    midpoint_is_close(exact as int, bucket);
}

/// The buckets tile the range of `u64`: they begin at zero, each ends where the next one
/// begins, none is empty, and the last one ends where the range does. A bucket is no
/// wider than a sixteenth of its smallest value, and one of the first sixteen holds one
/// value.
pub proof fn buckets_tile_the_range(bucket: int)
    requires
        0 <= bucket < NUM_BUCKETS,
    ensures
        bucket_low(0) == 0,
        bucket_low(bucket) < bucket_low(bucket + 1),
        bucket_low(NUM_BUCKETS as int) == 0x1_0000_0000_0000_0000,
        bucket < 16 ==> bucket_low(bucket) == bucket && bucket_low(bucket + 1) == bucket + 1,
        bucket >= 16 ==> 16 * (bucket_low(bucket + 1) - bucket_low(bucket)) <= bucket_low(bucket),
{
    buckets_adjoin(bucket);
    lemma2_to64();
    lemma2_to64_rest();
    buckets_adjoin(975);
    lemma_pow2_adds(5, 59);
    assert(bucket_low(976) == 0x1_0000_0000_0000_0000) by {
        assert(bucket_low(975) + bucket_width(975) == 31 * pow2(59) + pow2(59));
        assert(pow2(64) == 32 * pow2(59));
    }
    if bucket == 15 {
        assert(bucket_low(16) == 16 * pow2(0));
    }
    if bucket >= 16 {
        let width = bucket_width(bucket);
        let sub = bucket % 16;
        assert((16 + sub) * width >= 16 * width) by (nonlinear_arith)
            requires
                sub >= 0,
                width > 0,
        ;
    }
}

/// The value that stands for a bucket is its middle: as far from its smallest value as
/// from the end of it, but for a rounding down. So a value reads back within a
/// thirty-second of its true size, and a small one exactly.
pub proof fn the_midpoint_is_the_middle(value: int, bucket: int)
    requires
        0 <= bucket < NUM_BUCKETS,
        in_bucket(value, bucket),
    ensures
        midpoint(bucket) - bucket_low(bucket) <= bucket_low(bucket + 1) - midpoint(bucket),
        bucket_low(bucket + 1) - midpoint(bucket) <= midpoint(bucket) - bucket_low(bucket) + 1,
        value < 16 ==> midpoint(bucket) == value,
        32 * (midpoint(bucket) - value) <= value,
        32 * (value - midpoint(bucket)) <= value,
{
    buckets_adjoin(bucket);
    buckets_tile_the_range(bucket);
    if value < 16 && bucket >= 16 {
        if bucket > 16 {
            buckets_ascend(16, bucket);
            buckets_adjoin(16);
        }
        buckets_tile_the_range(15);
    }
}

proof fn below_counts(samples: Seq<u64>, value: int)
    ensures
        below(samples, value) == 0 <==> forall|i: int|
            0 <= i < samples.len() ==> value <= #[trigger] samples[i],
        below(samples, value) == samples.len() <==> forall|i: int|
            0 <= i < samples.len() ==> #[trigger] samples[i] < value,
        below(samples, value) <= samples.len(),
    decreases samples.len(),
{
    if samples.len() > 0 {
        let most = samples.drop_last();
        let last = samples.len() - 1;
        below_counts(most, value);
        assert forall|i: int| 0 <= i < most.len() implies most[i] == #[trigger] samples[i] by {}
        if below(samples, value) == 0 {
            assert forall|i: int| 0 <= i < samples.len() implies value <= #[trigger] samples[i] by {
                if i < last {
                    assert(value <= most[i]);
                }
            }
        }
        if forall|i: int| 0 <= i < samples.len() ==> value <= #[trigger] samples[i] {
            assert(value <= samples[last]);
            assert forall|i: int| 0 <= i < most.len() implies value <= #[trigger] most[i] by {
                assert(value <= samples[i]);
            }
        }
        if below(samples, value) == samples.len() {
            assert forall|i: int| 0 <= i < samples.len() implies #[trigger] samples[i] < value by {
                if i < last {
                    assert(most[i] < value);
                }
            }
        }
        if forall|i: int| 0 <= i < samples.len() ==> #[trigger] samples[i] < value {
            assert(samples[last] < value);
            assert forall|i: int| 0 <= i < most.len() implies #[trigger] most[i] < value by {
                assert(samples[i] < value);
            }
        }
    }
}

/// The ranks span the samples: the first is the smallest sample, and the last is the
/// largest.
pub proof fn ranks_span_the_samples(samples: Seq<u64>, value: u64)
    requires
        samples.len() > 0,
    ensures
        is_min(samples, value) ==> is_ranked(samples, 1, value),
        is_ranked(samples, 1, value) ==> is_min(samples, value),
        is_max(samples, value) ==> is_ranked(samples, samples.len() as int, value),
        is_ranked(samples, samples.len() as int, value) ==> is_max(samples, value),
{
    below_counts(samples, value as int);
    below_counts(samples, value + 1);
    if is_min(samples, value) {
        let i = choose|i: int| 0 <= i < samples.len() && samples[i] == value;
        assert(!(value + 1 <= samples[i]));
    }
    if is_ranked(samples, 1, value) {
        let i = choose|i: int| 0 <= i < samples.len() && !(value + 1 <= #[trigger] samples[i]);
        assert(value <= samples[i]);
        assert(samples[i] == value);
    }
    if is_max(samples, value) {
        let i = choose|i: int| 0 <= i < samples.len() && samples[i] == value;
        assert(!(samples[i] < value));
        assert forall|i: int| 0 <= i < samples.len() implies #[trigger] samples[i] < value + 1 by {
            assert(samples[i] <= value);
        }
    }
    if is_ranked(samples, samples.len() as int, value) {
        let i = choose|i: int| 0 <= i < samples.len() && !(#[trigger] samples[i] < value);
        assert(samples[i] < value + 1);
        assert(samples[i] == value);
        assert forall|i: int| 0 <= i < samples.len() implies #[trigger] samples[i] <= value by {
            assert(samples[i] < value + 1);
        }
    }
}

} // verus!
