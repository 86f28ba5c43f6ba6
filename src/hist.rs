use vstd::prelude::*;

use crate::image_op::BufferError;

verus! {

/// How many of the first `k` pixels of `data` hold `value` in `channel`
/// (0 = red, 1 = green, 2 = blue).
pub open spec fn count_upto(data: Seq<u8>, channel: int, value: int, k: int) -> nat
    decreases k,
{
    if k <= 0 {
        0
    } else {
        count_upto(data, channel, value, k - 1) + if data[3 * (k - 1) + channel] == value {
            1nat
        } else {
            0nat
        }
    }
}

/// The 256 bins of one channel of `data`: bin `v` counts the pixels whose `channel` is `v`.
pub open spec fn histogram_of(data: Seq<u8>, channel: int) -> Seq<u32> {
    Seq::new(256, |v: int| count_upto(data, channel, v, (data.len() / 3) as int) as u32)
}

/// The largest element of `s`; 0 when `s` is empty.
pub open spec fn seq_max(s: Seq<u32>) -> int
    decreases s.len(),
{
    if s.len() == 0 {
        0
    } else {
        let m = seq_max(s.drop_last());
        if s.last() > m {
            s.last() as int
        } else {
            m
        }
    }
}

/// The sum of the elements of `s`.
pub open spec fn seq_sum(s: Seq<u32>) -> int
    decreases s.len(),
{
    if s.len() == 0 {
        0
    } else {
        seq_sum(s.drop_last()) + s.last()
    }
}

/// The sum of `i * s[i]` over all positions `i` of `s`.
pub open spec fn weighted_sum(s: Seq<u32>) -> int
    decreases s.len(),
{
    if s.len() == 0 {
        0
    } else {
        weighted_sum(s.drop_last()) + (s.len() - 1) * s.last()
    }
}

/// The largest count over the three channels' bins of `data`, or 1 for an empty buffer,
/// so that a scale derived from it never divides by zero.
pub open spec fn max_count_of(data: Seq<u8>) -> int {
    if data.len() == 0 {
        1
    } else {
        let r = seq_max(histogram_of(data, 0));
        let g = seq_max(histogram_of(data, 1));
        let b = seq_max(histogram_of(data, 2));
        if r >= g && r >= b {
            r
        } else if g >= b {
            g
        } else {
            b
        }
    }
}

/// How many of the first `k` pixels of `data` hold a value below `n` in `channel`.
pub open spec fn below_upto(data: Seq<u8>, channel: int, n: int, k: int) -> nat
    decreases k,
{
    if k <= 0 {
        0
    } else {
        below_upto(data, channel, n, k - 1) + if data[3 * (k - 1) + channel] < n {
            1nat
        } else {
            0nat
        }
    }
}

/// The sum of `count_upto(data, channel, v, k)` over the values `v < n`.
pub open spec fn count_sum(data: Seq<u8>, channel: int, n: int, k: int) -> nat
    decreases n,
{
    if n <= 0 {
        0
    } else {
        count_sum(data, channel, n - 1, k) + count_upto(data, channel, n - 1, k)
    }
}

proof fn lemma_count_upto_le(data: Seq<u8>, channel: int, value: int, k: int)
    requires
        k >= 0,
    ensures
        count_upto(data, channel, value, k) <= k,
    decreases k,
{
    if k > 0 {
        lemma_count_upto_le(data, channel, value, k - 1);
    }
}

proof fn lemma_below_step(data: Seq<u8>, channel: int, n: int, k: int)
    ensures
        below_upto(data, channel, n + 1, k) == below_upto(data, channel, n, k) + count_upto(
            data,
            channel,
            n,
            k,
        ),
    decreases k,
{
    if k > 0 {
        lemma_below_step(data, channel, n, k - 1);
    }
}

proof fn lemma_count_sum_is_below(data: Seq<u8>, channel: int, n: int, k: int)
    requires
        n >= 0,
    ensures
        count_sum(data, channel, n, k) == below_upto(data, channel, n, k),
    decreases n,
{
    if n == 0 {
        lemma_below_zero(data, channel, k);
    } else {
        lemma_count_sum_is_below(data, channel, n - 1, k);
        lemma_below_step(data, channel, n - 1, k);
    }
}

proof fn lemma_below_zero(data: Seq<u8>, channel: int, k: int)
    ensures
        below_upto(data, channel, 0, k) == 0,
    decreases k,
{
    if k > 0 {
        lemma_below_zero(data, channel, k - 1);
    }
}

proof fn lemma_below_all(data: Seq<u8>, channel: int, k: int)
    requires
        0 <= k,
        0 <= channel < 3,
        3 * k <= data.len(),
    ensures
        below_upto(data, channel, 256, k) == k,
    decreases k,
{
    if k > 0 {
        lemma_below_all(data, channel, k - 1);
    }
}

proof fn lemma_prefix_sum(data: Seq<u8>, channel: int, n: int)
    requires
        0 <= n <= 256,
        data.len() / 3 <= u32::MAX,
    ensures
        seq_sum(histogram_of(data, channel).subrange(0, n)) == count_sum(
            data,
            channel,
            n,
            (data.len() / 3) as int,
        ),
    decreases n,
{
    let h = histogram_of(data, channel);
    if n > 0 {
        lemma_prefix_sum(data, channel, n - 1);
        assert(h.subrange(0, n).drop_last() =~= h.subrange(0, n - 1));
        lemma_count_upto_le(data, channel, n - 1, (data.len() / 3) as int);
    } else {
        assert(h.subrange(0, 0) =~= Seq::<u32>::empty());
    }
}

/// The bins of any channel add up to the number of pixels of the buffer.
pub proof fn lemma_histogram_total(data: Seq<u8>, channel: int)
    requires
        data.len() % 3 == 0,
        data.len() / 3 <= u32::MAX,
        0 <= channel < 3,
    ensures
        seq_sum(histogram_of(data, channel)) == data.len() / 3,
{
    let k = (data.len() / 3) as int;
    lemma_prefix_sum(data, channel, 256);
    assert(histogram_of(data, channel).subrange(0, 256) =~= histogram_of(data, channel));
    lemma_count_sum_is_below(data, channel, 256, k);
    lemma_below_all(data, channel, k);
}

/// The largest element of `bins`; 0 when it is empty.
fn bins_max(bins: &[u32]) -> (r: u32)
    ensures
        r == seq_max(bins@),
{
    let mut m: u32 = 0;
    let mut i: usize = 0;
    assert(bins@.subrange(0, 0) =~= Seq::<u32>::empty());
    while i < bins.len()
        invariant
            i <= bins@.len(),
            m == seq_max(bins@.subrange(0, i as int)),
        decreases bins@.len() - i,
    {
        assert(bins@.subrange(0, i + 1).drop_last() =~= bins@.subrange(0, i as int));
        if bins[i] > m {
            m = bins[i];
        }
        i = i + 1;
    }
    assert(bins@.subrange(0, bins@.len() as int) =~= bins@);
    m
}

/// The sums `(sum of i * bins[i], sum of bins[i])`, from which a channel's mean
/// intensity is taken.
fn calculate_mean(bins: &[u32]) -> (r: (u64, u64))
    requires
        bins@.len() <= 256,
    ensures
        r.0 == weighted_sum(bins@),
        r.1 == seq_sum(bins@),
{
    let mut wsum: u64 = 0;
    let mut total: u64 = 0;
    let mut i: usize = 0;
    assert(bins@.subrange(0, 0) =~= Seq::<u32>::empty());
    while i < bins.len()
        invariant
            i <= bins@.len() <= 256,
            wsum == weighted_sum(bins@.subrange(0, i as int)),
            total == seq_sum(bins@.subrange(0, i as int)),
            wsum <= i * 1_095_216_660_225,
            total <= i * 0xffff_ffff,
        decreases bins@.len() - i,
    {
        assert(bins@.subrange(0, i + 1).drop_last() =~= bins@.subrange(0, i as int));
        let x = bins[i] as u64;
        let iw = i as u64;
        assert(iw * x <= 1_095_216_660_225) by (nonlinear_arith)
            requires
                iw < 256,
                x <= 0xffff_ffff,
        ;
        assert(bins@.subrange(0, i + 1).last() == x);
        wsum = wsum + iw * x;
        total = total + x;
        i = i + 1;
    }
    assert(bins@.subrange(0, bins@.len() as int) =~= bins@);
    (wsum, total)
}

/// Per-channel intensity histogram of an RGB buffer, recomputed lazily: a new buffer
/// only marks it stale, and the bins are rebuilt on the next read.
pub struct RGBHistogram {
    data: Vec<u8>,
    red_bins: Vec<u32>,
    green_bins: Vec<u32>,
    blue_bins: Vec<u32>,
    max_count: u32,
    needs_update: bool,
}

/// Summary of a histogram. The mean intensity of a channel is
/// `*_intensity_sum / *_count`, taken as 0 when `*_count` is 0.
#[derive(Debug, Clone, Copy, PartialEq, Eq, Structural)]
pub struct HistogramStats {
    pub total_pixels: usize,
    pub red_max: u32,
    pub green_max: u32,
    pub blue_max: u32,
    /// Sum of `intensity * count` over the red bins.
    pub red_intensity_sum: u64,
    /// Sum of the red bins' counts.
    pub red_count: u64,
    pub green_intensity_sum: u64,
    pub green_count: u64,
    pub blue_intensity_sum: u64,
    pub blue_count: u64,
}

/// A vector of 256 zero counters.
fn zero_bins() -> (r: Vec<u32>)
    ensures
        r@.len() == 256,
        forall|v: int| 0 <= v < 256 ==> r@[v] == 0,
{
    let mut r: Vec<u32> = Vec::with_capacity(256);
    let mut i: usize = 0;
    while i < 256
        invariant
            i <= 256,
            r@.len() == i,
            forall|v: int| 0 <= v < i ==> r@[v] == 0,
        decreases 256 - i,
    {
        r.push(0);
        i = i + 1;
    }
    r
}

impl RGBHistogram {
    /// The buffer the histogram describes.
    pub closed spec fn data_view(&self) -> Seq<u8> {
        self.data@
    }

    /// The bins of `channel` (0 = red, 1 = green, 2 = blue) as they stand.
    pub closed spec fn bins_view(&self, channel: int) -> Seq<u32> {
        if channel == 0 {
            self.red_bins@
        } else if channel == 1 {
            self.green_bins@
        } else {
            self.blue_bins@
        }
    }

    /// The cached largest bin count, used to scale a rendering.
    pub closed spec fn max_count_view(&self) -> u32 {
        self.max_count
    }

    /// Whether the bins still have to be rebuilt from the buffer.
    pub closed spec fn is_stale(&self) -> bool {
        self.needs_update
    }

    /// The bins and the cached maximum agree with the buffer. After `clear` the
    /// cached maximum of the empty buffer is 0 rather than 1.
    pub open spec fn is_current(&self) -> bool {
        &&& forall|c: int| 0 <= c < 3 ==> #[trigger] self.bins_view(c) == histogram_of(
            self.data_view(),
            c,
        )
        &&& (self.max_count_view() == max_count_of(self.data_view()) || (self.data_view().len()
            == 0 && self.max_count_view() == 0))
    }

    pub closed spec fn wf(&self) -> bool {
        &&& self.data@.len() % 3 == 0
        &&& self.data@.len() / 3 <= u32::MAX
        &&& self.red_bins@.len() == 256
        &&& self.green_bins@.len() == 256
        &&& self.blue_bins@.len() == 256
        &&& !self.needs_update ==> self.is_current()
    }

    /// An empty histogram, to be filled by `update_data`.
    pub fn new() -> (r: Self)
        ensures
            r.wf(),
            r.data_view().len() == 0,
            r.is_stale(),
            r.max_count_view() == 0,
            forall|c: int, v: int| 0 <= c < 3 && 0 <= v < 256 ==> #[trigger] r.bins_view(c)[v] == 0,
    {
        RGBHistogram {
            data: Vec::new(),
            red_bins: zero_bins(),
            green_bins: zero_bins(),
            blue_bins: zero_bins(),
            max_count: 0,
            needs_update: true,
        }
    }

    /// Replaces the buffer the histogram describes and marks the bins stale; they are
    /// rebuilt on the next read. A buffer whose length is not a multiple of three is
    /// refused and the histogram is left as it was.
    pub fn update_data(&mut self, data: Vec<u8>) -> (res: Result<(), BufferError>)
        requires
            old(self).wf(),
            data@.len() / 3 <= u32::MAX,
        ensures
            final(self).wf(),
            res is Ok <==> data@.len() % 3 == 0,
            res is Ok ==> final(self).data_view() == data@ && final(self).is_stale(),
            res is Err ==> res == Err::<(), BufferError>(BufferError::LengthNotMultipleOfThree)
                && *final(self) == *old(self),
    {
        if data.len() % 3 != 0 {
            return Err(BufferError::LengthNotMultipleOfThree);
        }
        self.data = data;
        self.needs_update = true;
        Ok(())
    }

    /// Empties the buffer, zeroes every bin and the cached maximum, and marks the
    /// histogram current.
    pub fn clear(&mut self)
        requires
            old(self).wf(),
        ensures
            final(self).wf(),
            final(self).data_view().len() == 0,
            !final(self).is_stale(),
            final(self).is_current(),
            final(self).max_count_view() == 0,
            forall|c: int, v: int|
                0 <= c < 3 && 0 <= v < 256 ==> #[trigger] final(self).bins_view(c)[v] == 0,
    {
        self.data.clear();
        self.red_bins = zero_bins();
        self.green_bins = zero_bins();
        self.blue_bins = zero_bins();
        self.max_count = 0;
        self.needs_update = false;
        proof {
            assert forall|c: int| 0 <= c < 3 implies #[trigger] self.bins_view(c) == histogram_of(
                self.data@,
                c,
            ) by {
                assert(self.bins_view(c) =~= histogram_of(self.data@, c));
            }
        }
    }

    /// Rebuilds the bins and the cached maximum from the buffer in one pass.
    fn calculate_histogram(&mut self)
        requires
            old(self).wf(),
        ensures
            final(self).wf(),
            !final(self).is_stale(),
            final(self).data_view() == old(self).data_view(),
            final(self).max_count_view() == max_count_of(final(self).data_view()),
    {
        let ghost data = self.data@;
        let mut red = zero_bins();
        let mut green = zero_bins();
        let mut blue = zero_bins();
        let n = self.data.len() / 3;
        let mut k: usize = 0;
        while k < n
            invariant
                self.data@ == data,
                data.len() % 3 == 0,
                n == data.len() / 3,
                3 * n == data.len(),
                data.len() <= usize::MAX,
                n <= u32::MAX,
                k <= n,
                red@.len() == 256,
                green@.len() == 256,
                blue@.len() == 256,
                forall|v: int| 0 <= v < 256 ==> #[trigger] red@[v] == count_upto(data, 0, v, k as int),
                forall|v: int|
                    0 <= v < 256 ==> #[trigger] green@[v] == count_upto(data, 1, v, k as int),
                forall|v: int| 0 <= v < 256 ==> #[trigger] blue@[v] == count_upto(data, 2, v, k as int),
            decreases n - k,
        {
            let r = self.data[3 * k] as usize;
            let g = self.data[3 * k + 1] as usize;
            let b = self.data[3 * k + 2] as usize;
            proof {
                lemma_count_upto_le(data, 0, r as int, k as int);
                lemma_count_upto_le(data, 1, g as int, k as int);
                lemma_count_upto_le(data, 2, b as int, k as int);
            }
            let x = red[r];
            red.set(r, x + 1);
            let x = green[g];
            green.set(g, x + 1);
            let x = blue[b];
            blue.set(b, x + 1);
            k = k + 1;
        }
        proof {
            assert(red@ =~= histogram_of(data, 0));
            assert(green@ =~= histogram_of(data, 1));
            assert(blue@ =~= histogram_of(data, 2));
        }
        let mr = bins_max(&red);
        let mg = bins_max(&green);
        let mb = bins_max(&blue);
        let m = if mr >= mg && mr >= mb {
            mr
        } else if mg >= mb {
            mg
        } else {
            mb
        };
        self.red_bins = red;
        self.green_bins = green;
        self.blue_bins = blue;
        self.max_count = if self.data.len() == 0 {
            1
        } else {
            m
        };
        self.needs_update = false;
        proof {
            assert(self.bins_view(0) == histogram_of(data, 0));
            assert(self.bins_view(1) == histogram_of(data, 1));
            assert(self.bins_view(2) == histogram_of(data, 2));
        }
    }

    /// Brings the bins up to date with the buffer if they are stale.
    pub fn refresh(&mut self)
        requires
            old(self).wf(),
        ensures
            final(self).wf(),
            !final(self).is_stale(),
            final(self).is_current(),
            final(self).data_view() == old(self).data_view(),
            old(self).is_stale() ==> final(self).max_count_view() == max_count_of(
                final(self).data_view(),
            ),
            !old(self).is_stale() ==> *final(self) == *old(self),
    {
        if self.needs_update {
            self.calculate_histogram();
        }
    }

    /// The bins of `channel` (0 = red, 1 = green, 2 = blue).
    pub fn bins(&self, channel: usize) -> (r: &[u32])
        requires
            channel < 3,
        ensures
            r@ == self.bins_view(channel as int),
    {
        if channel == 0 {
            self.red_bins.as_slice()
        } else if channel == 1 {
            self.green_bins.as_slice()
        } else {
            self.blue_bins.as_slice()
        }
    }

    /// The cached largest bin count over the three channels.
    pub fn max_count(&self) -> (r: u32)
        ensures
            r == self.max_count_view(),
    {
        self.max_count
    }

    /// Pixel count, per-channel largest bin and per-channel sums for the mean, after
    /// bringing the bins up to date.
    pub fn statistics(&mut self) -> (r: HistogramStats)
        requires
            old(self).wf(),
        ensures
            final(self).wf(),
            !final(self).is_stale(),
            final(self).is_current(),
            final(self).data_view() == old(self).data_view(),
            r.total_pixels == old(self).data_view().len() / 3,
            r.red_max == seq_max(histogram_of(old(self).data_view(), 0)),
            r.green_max == seq_max(histogram_of(old(self).data_view(), 1)),
            r.blue_max == seq_max(histogram_of(old(self).data_view(), 2)),
            r.red_intensity_sum == weighted_sum(histogram_of(old(self).data_view(), 0)),
            r.green_intensity_sum == weighted_sum(histogram_of(old(self).data_view(), 1)),
            r.blue_intensity_sum == weighted_sum(histogram_of(old(self).data_view(), 2)),
            r.red_count == seq_sum(histogram_of(old(self).data_view(), 0)),
            r.green_count == seq_sum(histogram_of(old(self).data_view(), 1)),
            r.blue_count == seq_sum(histogram_of(old(self).data_view(), 2)),
            r.red_count == r.total_pixels,
            r.green_count == r.total_pixels,
            r.blue_count == r.total_pixels,
    {
        self.refresh();
        proof {
            assert(self.bins_view(0) == histogram_of(self.data@, 0));
            assert(self.bins_view(1) == histogram_of(self.data@, 1));
            assert(self.bins_view(2) == histogram_of(self.data@, 2));
            lemma_histogram_total(self.data@, 0);
            lemma_histogram_total(self.data@, 1);
            lemma_histogram_total(self.data@, 2);
        }
        let (red_intensity_sum, red_count) = calculate_mean(&self.red_bins);
        let (green_intensity_sum, green_count) = calculate_mean(&self.green_bins);
        let (blue_intensity_sum, blue_count) = calculate_mean(&self.blue_bins);
        HistogramStats {
            total_pixels: self.data.len() / 3,
            red_max: bins_max(&self.red_bins),
            green_max: bins_max(&self.green_bins),
            blue_max: bins_max(&self.blue_bins),
            red_intensity_sum,
            red_count,
            green_intensity_sum,
            green_count,
            blue_intensity_sum,
            blue_count,
        }
    }
}

impl Default for RGBHistogram {
    fn default() -> (r: Self)
        ensures
            r.wf(),
            r.data_view().len() == 0,
            r.is_stale(),
            r.max_count_view() == 0,
    {
        RGBHistogram::new()
    }
}

} // verus!
