//! Choosing a themed cursor's image size, and stepping through its frames.
use vstd::prelude::*;

verus! {

pub open spec fn distance(a: u32, b: u32) -> int {
    if a >= b {
        a - b
    } else {
        b - a
    }
}

/// `a` is at least as good a nominal size as `b` for `target`: nearer, or as
/// near and larger.
pub open spec fn preferred(a: u32, b: u32, target: u32) -> bool {
    distance(a, target) < distance(b, target) || (distance(a, target) == distance(b, target) && a
        >= b)
}

/// `size` is the best positive size among `sizes` for `target`.
pub open spec fn best_size(sizes: Seq<u32>, target: u32, size: u32) -> bool {
    &&& size > 0
    &&& sizes.contains(size)
    &&& forall|i: int| 0 <= i < sizes.len() && sizes[i] > 0 ==> preferred(size, #[trigger] sizes[i], target)
}

/// The best size is unique.
pub proof fn lemma_best_size_unique(sizes: Seq<u32>, target: u32, a: u32, b: u32)
    requires
        best_size(sizes, target, a),
        best_size(sizes, target, b),
    ensures
        a == b,
{
    let i = choose|i: int| 0 <= i < sizes.len() && sizes[i] == a;
    let j = choose|j: int| 0 <= j < sizes.len() && sizes[j] == b;
    assert(preferred(a, sizes[j], target));
    assert(preferred(b, sizes[i], target));
}

/// The nominal size to load: of the positive sizes, the one nearest to
/// `target`, the larger on a tie; none if no size is positive.
pub fn nominal_size(sizes: &Vec<u32>, target: u32) -> (r: Option<u32>)
    ensures
        r is None <==> (forall|i: int| 0 <= i < sizes@.len() ==> #[trigger] sizes@[i] == 0),
        r matches Some(s) ==> best_size(sizes@, target, s),
{
    let mut best: Option<u32> = None;
    let mut i: usize = 0;
    while i < sizes.len()
        invariant
            i <= sizes@.len(),
            best is None <==> (forall|j: int| 0 <= j < i ==> #[trigger] sizes@[j] == 0),
            best matches Some(s) ==> best_size(sizes@.subrange(0, i as int), target, s),
        decreases sizes@.len() - i,
    {
        let size = sizes[i];
        let ghost before = sizes@.subrange(0, i as int);
        let ghost after = sizes@.subrange(0, i + 1);
        assert(after == before.push(size));
        if size > 0 {
            let take = match best {
                None => true,
                Some(b) => {
                    let db = if b >= target {
                        b - target
                    } else {
                        target - b
                    };
                    let ds = if size >= target {
                        size - target
                    } else {
                        target - size
                    };
                    ds < db || (ds == db && size > b)
                },
            };
            if take {
                best = Some(size);
            }
        }
        proof {
            if let Some(s) = best {
                assert(after[i as int] == size);
                if before.contains(s) {
                    let k = choose|k: int| 0 <= k < before.len() && before[k] == s;
                    assert(after[k] == s);
                }
                assert(after.contains(s));
                assert forall|j: int| 0 <= j < after.len() && after[j] > 0 implies preferred(
                    s,
                    #[trigger] after[j],
                    target,
                ) by {
                    if j < i {
                        assert(after[j] == before[j]);
                    }
                }
            }
        }
        i = i + 1;
    }
    assert(sizes@.subrange(0, sizes@.len() as int) == sizes@);
    best
}

/// Nanoseconds in a millisecond.
pub const NANOS_PER_MILLI: u64 = 1_000_000;

/// Largest frame delay in nanoseconds: `u32::MAX` milliseconds.
pub open spec fn max_delay() -> int {
    u32::MAX * 1_000_000
}

/// Sum of the first `n` delays.
pub open spec fn prefix(delays: Seq<u64>, n: int) -> int
    decreases n,
{
    if n <= 0 {
        0
    } else {
        prefix(delays, n - 1) + delays[n - 1]
    }
}

/// Length of one animation cycle.
pub open spec fn cycle(delays: Seq<u64>) -> int {
    prefix(delays, delays.len() as int)
}

/// Frame `k` is showing at `position` within the cycle.
pub open spec fn showing(delays: Seq<u64>, position: int, k: int) -> bool {
    0 <= k < delays.len() && prefix(delays, k) <= position < prefix(delays, k + 1)
}

/// Every delay lies between a millisecond and `u32::MAX` milliseconds.
pub open spec fn delays_wf(delays: Seq<u64>) -> bool {
    forall|i: int| 0 <= i < delays.len() ==> 1_000_000 <= #[trigger] delays[i] <= max_delay()
}

proof fn lemma_prefix_grows(delays: Seq<u64>, a: int, b: int)
    requires
        delays_wf(delays),
        0 <= a <= b <= delays.len(),
    ensures
        prefix(delays, a) + (b - a) <= prefix(delays, b),
    decreases b - a,
{
    if a < b {
        lemma_prefix_grows(delays, a, b - 1);
        assert(delays[b - 1] >= 1_000_000);
    }
}

/// At every position of the cycle at most one frame shows.
pub proof fn lemma_one_frame_showing(delays: Seq<u64>, position: int, k1: int, k2: int)
    requires
        delays_wf(delays),
        showing(delays, position, k1),
        showing(delays, position, k2),
    ensures
        k1 == k2,
{
    if k1 < k2 {
        lemma_prefix_grows(delays, k1 + 1, k2);
    } else if k2 < k1 {
        lemma_prefix_grows(delays, k2 + 1, k1);
    }
}

/// At every position of the cycle some frame shows.
pub proof fn lemma_some_frame_showing(delays: Seq<u64>, position: int)
    requires
        delays_wf(delays),
        0 <= position < cycle(delays),
    ensures
        exists|k: int| showing(delays, position, k),
{
    lemma_frame_from(delays, position, 0);
}

proof fn lemma_frame_from(delays: Seq<u64>, position: int, k: int)
    requires
        0 <= k <= delays.len(),
        prefix(delays, k) <= position < cycle(delays),
    ensures
        exists|j: int| showing(delays, position, j),
    decreases delays.len() - k,
{
    if k == delays.len() {
        assert(false);
    } else if position < prefix(delays, k + 1) {
        assert(showing(delays, position, k));
    } else {
        lemma_frame_from(delays, position, k + 1);
    }
}

/// The animation repeats: the frame showing after `elapsed` shows again
/// any whole number of cycles later.
pub proof fn lemma_cycle_repeats(delays: Seq<u64>, elapsed: nat, cycles: nat, k: int)
    requires
        delays_wf(delays),
        delays.len() >= 1,
    ensures
        showing(delays, elapsed as int % cycle(delays), k) <==> showing(
            delays,
            (elapsed + cycles * cycle(delays)) % cycle(delays),
            k,
        ),
{
    lemma_prefix_grows(delays, 0, delays.len() as int);
    assert(cycles * cycle(delays) == cycle(delays) * cycles) by (nonlinear_arith);
    vstd::arithmetic::div_mod::lemma_mod_multiples_vanish(cycles as int, elapsed as int, cycle(delays));
}

/// The frame delays of a themed cursor, in nanoseconds. Each is at least a
/// millisecond: a zero delay still advances, without an immediate timer loop.
pub struct FrameTimes {
    delays: Vec<u64>,
}

impl FrameTimes {
    pub closed spec fn delays(&self) -> Seq<u64> {
        self.delays@
    }

    pub closed spec fn wf(&self) -> bool {
        delays_wf(self.delays@)
    }

    /// Every delay of well-formed frame times lasts at least a millisecond
    /// and at most `u32::MAX` milliseconds.
    pub proof fn lemma_times_wf(&self)
        requires
            self.wf(),
        ensures
            delays_wf(self.delays()),
    {
    }

    pub fn new() -> (r: FrameTimes)
        ensures
            r.wf(),
            r.delays() == Seq::<u64>::empty(),
    {
        FrameTimes { delays: Vec::new() }
    }

    /// The delay of a frame whose image asks for `delay_ms` milliseconds.
    pub fn delay_nanos(delay_ms: u32) -> (r: u64)
        ensures
            r == (if delay_ms == 0 {
                1
            } else {
                delay_ms
            }) * 1_000_000,
    {
        let ms: u64 = if delay_ms == 0 {
            1
        } else {
            delay_ms as u64
        };
        ms * NANOS_PER_MILLI
    }

    /// Append a frame shown for `delay_ms` milliseconds.
    pub fn push(&mut self, delay_ms: u32)
        requires
            old(self).wf(),
        ensures
            final(self).wf(),
            final(self).delays() == old(self).delays().push(FrameTimes::delay_nanos_spec(delay_ms)),
    {
        let d = FrameTimes::delay_nanos(delay_ms);
        self.delays.push(d);
    }

    pub open spec fn delay_nanos_spec(delay_ms: u32) -> u64 {
        ((if delay_ms == 0 {
            1
        } else {
            delay_ms
        }) * 1_000_000) as u64
    }

    pub fn len(&self) -> (r: usize)
        ensures
            r == self.delays().len(),
    {
        self.delays.len()
    }

    /// The frame showing `elapsed` nanoseconds after the animation began,
    /// missed frames skipped rather than queued, and how long it still shows.
    /// A single frame shows forever.
    pub fn frame_at(&self, elapsed: u128) -> (r: (usize, Option<u64>))
        requires
            self.wf(),
            self.delays().len() >= 1,
        ensures
            self.delays().len() == 1 ==> r == (0usize, None::<u64>),
            self.delays().len() > 1 ==> ({
                let position = elapsed as int % cycle(self.delays());
                &&& showing(self.delays(), position, r.0 as int)
                &&& r.1 == Some((prefix(self.delays(), r.0 + 1) - position) as u64)
                &&& 0 < r.1->0 <= self.delays()[r.0 as int]
            }),
    {
        if self.delays.len() == 1 {
            return (0, None);
        }
        let total = self.total();
        let mut position: u128 = elapsed % total;
        let ghost p = elapsed as int % cycle(self.delays());
        let mut k: usize = 0;
        while k < self.delays.len()
            invariant
                self.wf(),
                self.delays@.len() > 1,
                k <= self.delays@.len(),
                p == elapsed as int % cycle(self.delays@),
                0 <= p < cycle(self.delays@),
                position == p - prefix(self.delays@, k as int),
                prefix(self.delays@, k as int) <= p,
            decreases self.delays@.len() - k,
        {
            let delay = self.delays[k];
            if position < delay as u128 {
                return (k, Some((delay as u128 - position) as u64));
            }
            position = position - delay as u128;
            k = k + 1;
        }
        proof {
            assert(prefix(self.delays@, self.delays@.len() as int) == cycle(self.delays@));
        }
        (0, None)
    }

    /// Length of one cycle in nanoseconds.
    pub fn total(&self) -> (r: u128)
        requires
            self.wf(),
            self.delays().len() >= 1,
        ensures
            r == cycle(self.delays()),
            r > 0,
    {
        let mut sum: u128 = 0;
        let mut k: usize = 0;
        while k < self.delays.len()
            invariant
                self.wf(),
                k <= self.delays@.len(),
                sum == prefix(self.delays@, k as int),
                sum <= k * max_delay(),
                k >= 1 ==> sum > 0,
            decreases self.delays@.len() - k,
        {
            proof {
                assert(k * max_delay() + max_delay() == (k + 1) * max_delay()) by (nonlinear_arith);
                assert((k + 1) * max_delay() <= usize::MAX * max_delay()) by (nonlinear_arith)
                    requires
                        k + 1 <= usize::MAX,
                ;
                assert(usize::MAX * max_delay() <= 0x1_0000_0000_0000_0000 * 0x10_0000_0000_0000)
                    by (nonlinear_arith)
                    requires
                        usize::MAX < 0x1_0000_0000_0000_0000,
                ;
                assert(self.delays@[k as int] <= max_delay());
            }
            sum = sum + self.delays[k] as u128;
            k = k + 1;
        }
        sum
    }
}

/// The indices below `n` of the images of size `nominal`, in file order.
pub open spec fn frames_of(sizes: Seq<u32>, nominal: u32, n: int) -> Seq<usize>
    decreases n,
{
    if n <= 0 {
        Seq::empty()
    } else if sizes[n - 1] == nominal {
        frames_of(sizes, nominal, n - 1).push((n - 1) as usize)
    } else {
        frames_of(sizes, nominal, n - 1)
    }
}

/// The delays, in nanoseconds, of the images at `indices`.
pub open spec fn delays_of(delays_ms: Seq<u32>, indices: Seq<usize>) -> Seq<u64> {
    Seq::new(indices.len(), |k: int| FrameTimes::delay_nanos_spec(delays_ms[indices[k] as int]))
}

proof fn lemma_frames_nonempty(sizes: Seq<u32>, nominal: u32, n: int, i: int)
    requires
        0 <= i < n <= sizes.len(),
        sizes[i] == nominal,
    ensures
        frames_of(sizes, nominal, n).len() > 0,
    decreases n,
{
    if i < n - 1 {
        lemma_frames_nonempty(sizes, nominal, n - 1, i);
    }
}

/// Which images of a cursor make up its animation, and for how long each
/// shows: the images of the nominal size for `target` (see
/// `nominal_size`), in file order, each for its delay (a zero delay counts
/// as a millisecond). None when the cursor has no sized image. Images are
/// given as their nominal sizes and delays in milliseconds.
pub fn frame_plan(sizes: &Vec<u32>, delays_ms: &Vec<u32>, target: u32) -> (r: Option<(u32, Vec<usize>, FrameTimes)>)
    requires
        delays_ms@.len() == sizes@.len(),
    ensures
        r is None <==> (forall|i: int| 0 <= i < sizes@.len() ==> #[trigger] sizes@[i] == 0),
        r matches Some((nominal, chosen, times)) ==> {
            &&& best_size(sizes@, target, nominal)
            &&& chosen@ == frames_of(sizes@, nominal, sizes@.len() as int)
            &&& chosen@.len() > 0
            &&& times.wf()
            &&& times.delays() == delays_of(delays_ms@, chosen@)
        },
{
    let nominal = match nominal_size(sizes, target) {
        None => {
            return None;
        },
        Some(s) => s,
    };
    let mut chosen: Vec<usize> = Vec::new();
    let mut times = FrameTimes::new();
    let mut i: usize = 0;
    while i < sizes.len()
        invariant
            i <= sizes@.len(),
            delays_ms@.len() == sizes@.len(),
            chosen@ == frames_of(sizes@, nominal, i as int),
            forall|k: int| 0 <= k < chosen@.len() ==> #[trigger] chosen@[k] < i,
            times.wf(),
            times.delays() == delays_of(delays_ms@, chosen@),
        decreases sizes@.len() - i,
    {
        if sizes[i] == nominal {
            let ghost before = chosen@;
            chosen.push(i);
            times.push(delays_ms[i]);
            proof {
                assert(times.delays() =~= delays_of(delays_ms@, chosen@)) by {
                    assert forall|k: int| 0 <= k < chosen@.len() implies #[trigger] times.delays()[k]
                        == FrameTimes::delay_nanos_spec(delays_ms@[chosen@[k] as int]) by {
                        if k < before.len() {
                            assert(chosen@[k] == before[k]);
                        }
                    }
                }
            }
        }
        i = i + 1;
    }
    proof {
        let k = choose|k: int| 0 <= k < sizes@.len() && sizes@[k] == nominal;
        lemma_frames_nonempty(sizes@, nominal, sizes@.len() as int, k);
    }
    Some((nominal, chosen, times))
}

} // verus!
