//! Band-limited synthesis buffer.
//!
//! Amplitude changes arrive as deltas stamped with a time on a fast clock. Each
//! delta is spread over sixteen neighbouring output samples by a windowed-sinc
//! step kernel chosen by the delta's sub-sample position, so that integrating
//! the buffer yields an alias-free signal at the output rate.

use vstd::prelude::*;

verus! {

/// Fixed-point unit of the clock-to-sample conversion: one sample.
pub const TIME_UNIT: u64 = 0x10_0000_0000_0000;

/// Divisor that reduces a fixed-point time to sub-sample resolution.
pub const PRE_UNIT: u64 = 0x1_0000_0000;

/// Sub-sample positions distinguished within one sample.
pub const FRAC_UNIT: u64 = 0x10_0000;

/// Largest supported ratio of clock rate to sample rate.
pub const MAX_RATIO: u64 = 0x10_0000;

/// Number of taps on each side of a delta.
pub const HALF_WIDTH: usize = 8;

/// Samples after the end of a frame that a delta may still reach.
pub const END_FRAME_EXTRA: usize = 2;

/// Entries the buffer holds beyond its nominal size.
pub const BUF_EXTRA: usize = HALF_WIDTH * 2 + END_FRAME_EXTRA;

/// Kernel phases per sample.
pub const PHASE_COUNT: usize = 32;

/// Fixed-point unit of a buffered amplitude: one output level.
pub const DELTA_UNIT: i64 = 32768;

/// Amount of the output fed back per sample by the high-pass filter.
pub const BASS_GAIN: i64 = 64;

/// Band-limited step responses, one row per phase, first half of each.
/// The second half is the mirrored row of the complementary phase.
pub const BL_STEP: [[i16; 8]; 33] = [
    [43, -115, 350, -488, 1136, -914, 5861, 21022],
    [44, -118, 348, -473, 1076, -799, 5274, 21001],
    [45, -121, 344, -454, 1011, -677, 4706, 20936],
    [46, -122, 336, -431, 942, -549, 4156, 20829],
    [47, -123, 327, -404, 868, -418, 3629, 20679],
    [47, -122, 316, -375, 792, -285, 3124, 20488],
    [47, -120, 303, -344, 714, -151, 2644, 20256],
    [46, -117, 289, -310, 634, -17, 2188, 19985],
    [46, -114, 273, -275, 553, 117, 1758, 19675],
    [44, -108, 255, -237, 471, 247, 1356, 19327],
    [43, -103, 237, -199, 390, 373, 981, 18944],
    [42, -98, 218, -160, 310, 495, 633, 18527],
    [40, -91, 198, -121, 231, 611, 314, 18078],
    [38, -84, 178, -81, 153, 722, 22, 17599],
    [36, -76, 157, -43, 80, 824, -241, 17092],
    [34, -68, 135, -3, 8, 919, -476, 16558],
    [32, -61, 115, 34, -60, 1006, -683, 16001],
    [29, -52, 94, 70, -123, 1083, -862, 15422],
    [27, -44, 73, 106, -184, 1152, -1015, 14824],
    [25, -36, 53, 139, -239, 1211, -1142, 14210],
    [22, -27, 34, 170, -290, 1261, -1244, 13582],
    [20, -20, 16, 199, -335, 1301, -1322, 12942],
    [18, -12, -3, 226, -375, 1331, -1376, 12293],
    [15, -4, -19, 250, -410, 1351, -1408, 11638],
    [13, 3, -35, 272, -439, 1361, -1419, 10979],
    [11, 9, -49, 292, -464, 1362, -1410, 10319],
    [9, 16, -63, 309, -483, 1354, -1383, 9660],
    [7, 22, -75, 322, -496, 1337, -1339, 9005],
    [6, 26, -85, 333, -504, 1312, -1280, 8355],
    [4, 31, -94, 341, -507, 1278, -1205, 7713],
    [3, 35, -102, 347, -506, 1238, -1119, 7082],
    [1, 40, -110, 350, -499, 1190, -1021, 6464],
    [0, 43, -115, 350, -488, 1136, -914, 5861],
];

/// The value nearest to `x` that an `i64` can hold.
pub open spec fn saturate(x: int) -> int {
    if x > i64::MAX {
        i64::MAX as int
    } else if x < i64::MIN {
        i64::MIN as int
    } else {
        x
    }
}

/// The value nearest to `x` that an output sample can hold.
pub open spec fn clamp_sample(x: int) -> int {
    if x > i16::MAX {
        i16::MAX as int
    } else if x < i16::MIN {
        i16::MIN as int
    } else {
        x
    }
}

/// Conversion factor for the given rates: `TIME_UNIT * sample_rate / clock_rate`, rounded up.
pub open spec fn rate_factor(clock_rate: int, sample_rate: int) -> int {
    (TIME_UNIT * sample_rate + clock_rate - 1) / clock_rate
}

/// Part of a delta that goes to the later of the two kernel phases around it.
pub open spec fn late_part(delta: int, interp: int) -> int {
    delta * interp / (DELTA_UNIT as int)
}

/// Weight that a delta adds to the `tap`-th of the sixteen samples it touches,
/// for a delta that falls `interp / DELTA_UNIT` of the way from `phase` to the next phase.
pub open spec fn tap_weight(phase: int, interp: int, delta: int, tap: int) -> int {
    let late = late_part(delta, interp);
    let early = delta - late;
    if tap < HALF_WIDTH {
        BL_STEP[phase][tap] * early + BL_STEP[phase + 1][tap] * late
    } else {
        BL_STEP[PHASE_COUNT - phase][15 - tap] * early + BL_STEP[PHASE_COUNT - phase - 1][15
            - tap] * late
    }
}

/// Running sum of the read filter after it has consumed the first `n` entries of `deltas`,
/// starting from `start`. Each step adds one entry and removes a fraction of the sample
/// just produced, which makes the filter forget constant offsets.
pub open spec fn integrator_at(deltas: Seq<i64>, start: int, n: nat) -> int
    decreases n,
{
    if n == 0 {
        start
    } else {
        let prev = integrator_at(deltas, start, (n - 1) as nat);
        saturate(prev + deltas[n - 1] - clamp_sample(prev / (DELTA_UNIT as int)) * BASS_GAIN)
    }
}

/// The `i`-th sample the read filter produces from `deltas`, starting from `start`.
pub open spec fn sample_at(deltas: Seq<i64>, start: int, i: nat) -> int {
    clamp_sample(integrator_at(deltas, start, i) / (DELTA_UNIT as int))
}

/// Abstract state of a [`BlipBuf`].
pub struct BlipState {
    /// Samples per clock, in units of `1 / TIME_UNIT`.
    pub factor: u64,
    /// Position of the start of the current frame within its sample, in units of `1 / TIME_UNIT`.
    pub offset: u64,
    /// Number of finished samples waiting to be read.
    pub avail: nat,
    /// Running sum of the read filter.
    pub integrator: i64,
    /// Filtered deltas per sample, the oldest unread sample first.
    pub deltas: Seq<i64>,
}

impl BlipState {
    /// Number of samples the buffer can hold.
    pub open spec fn size(self) -> int {
        self.deltas.len() - BUF_EXTRA
    }

    /// Whether the state is one that a buffer can be in.
    pub open spec fn wf(self) -> bool {
        &&& self.deltas.len() >= BUF_EXTRA
        &&& self.avail <= self.size()
        &&& self.offset < TIME_UNIT
        &&& 0 < self.factor <= TIME_UNIT
    }

    /// Fixed-point sample position of clock time `time`, counted from the first unfinished sample.
    pub open spec fn fixed(self, time: int) -> int {
        time * self.factor + self.offset
    }

    /// Whole samples between the start of the frame and clock time `time`.
    pub open spec fn position(self, time: int) -> int {
        self.fixed(time) / (TIME_UNIT as int)
    }

    /// Kernel phase of clock time `time`.
    pub open spec fn phase(self, time: int) -> int {
        (self.fixed(time) / (PRE_UNIT as int)) % (FRAC_UNIT as int) / (DELTA_UNIT as int)
    }

    /// Distance of clock time `time` past its kernel phase, in units of `1 / DELTA_UNIT`.
    pub open spec fn interp(self, time: int) -> int {
        (self.fixed(time) / (PRE_UNIT as int)) % (DELTA_UNIT as int)
    }

    /// Whether a delta at clock time `time` lands inside the buffer.
    pub open spec fn accepts(self, time: int) -> bool {
        self.avail + self.position(time) <= self.size() + END_FRAME_EXTRA
    }

    /// Whether a frame of `duration` clocks can be finished without exceeding the buffer.
    pub open spec fn fits(self, duration: int) -> bool {
        self.avail + self.position(duration) <= self.size()
    }

    /// The state with every pending delta and the filter memory erased.
    pub open spec fn clear(self) -> BlipState {
        BlipState {
            factor: self.factor,
            offset: self.factor / 2,
            avail: 0,
            integrator: 0,
            deltas: Seq::new(self.deltas.len(), |i: int| 0i64),
        }
    }

    /// The state after an amplitude change of `delta` at clock time `time`.
    pub open spec fn add_delta(self, time: int, delta: int) -> BlipState {
        let first = self.avail + self.position(time);
        let phase = self.phase(time);
        let interp = self.interp(time);
        BlipState {
            deltas: Seq::new(
                self.deltas.len(),
                |i: int|
                    if first <= i < first + 2 * HALF_WIDTH {
                        saturate(self.deltas[i] + tap_weight(phase, interp, delta, i - first))
                            as i64
                    } else {
                        self.deltas[i]
                    },
            ),
            ..self
        }
    }

    /// The state after the current frame has ended `duration` clocks after it began.
    pub open spec fn end_frame(self, duration: int) -> BlipState {
        BlipState {
            avail: (self.avail + self.position(duration)) as nat,
            offset: (self.fixed(duration) % (TIME_UNIT as int)) as u64,
            ..self
        }
    }

    /// The state after the `count` oldest samples have been read.
    pub open spec fn consume(self, count: nat) -> BlipState {
        BlipState {
            avail: (self.avail - count) as nat,
            integrator: integrator_at(self.deltas, self.integrator as int, count) as i64,
            deltas: self.deltas.skip(count as int) + Seq::new(count, |i: int| 0i64),
            ..self
        }
    }

    /// Whether `other` counts time and samples as this state does: the same rates,
    /// the same frame start, as many finished samples, the same size.
    pub open spec fn same_frame(self, other: BlipState) -> bool {
        &&& self.factor == other.factor
        &&& self.offset == other.offset
        &&& self.avail == other.avail
        &&& self.deltas.len() == other.deltas.len()
    }

    /// Whether nothing is pending: no delta is buffered and the filter is at rest.
    pub open spec fn is_silent(self) -> bool {
        &&& self.integrator == 0
        &&& forall|i: int| 0 <= i < self.deltas.len() ==> #[trigger] self.deltas[i] == 0
    }
}

/// Buffer that turns timed amplitude changes into output samples.
pub struct BlipBuf {
    factor: u64,
    offset: u64,
    avail: usize,
    integrator: i64,
    buf: Vec<i64>,
}

impl View for BlipBuf {
    type V = BlipState;

    closed spec fn view(&self) -> BlipState {
        BlipState {
            factor: self.factor,
            offset: self.offset,
            avail: self.avail as nat,
            integrator: self.integrator,
            deltas: self.buf@,
        }
    }
}

/// `x` divided by `DELTA_UNIT`, rounded towards negative infinity.
fn floor_units(x: i64) -> (r: i64)
    ensures
        r == x as int / (DELTA_UNIT as int),
{
    if x >= 0 {
        x / DELTA_UNIT
    } else {
        -1 - (-(x + 1)) / DELTA_UNIT
    }
}

/// `x` narrowed to the nearest `i64`.
fn saturate_wide(x: i128) -> (r: i64)
    ensures
        r == saturate(x as int),
{
    if x > i64::MAX as i128 {
        i64::MAX
    } else if x < i64::MIN as i128 {
        i64::MIN
    } else {
        x as i64
    }
}

/// `time * factor + offset` without overflow.
fn fixed_time(time: u64, factor: u64, offset: u64) -> (r: u128)
    ensures
        r == time as int * factor as int + offset as int,
{
    assert(time as int * factor as int <= 0xffff_ffff_ffff_ffff * 0xffff_ffff_ffff_ffff)
        by (nonlinear_arith)
        requires
            0 <= time <= 0xffff_ffff_ffff_ffff,
            0 <= factor <= 0xffff_ffff_ffff_ffff,
    ;
    assert(0 <= time as int * factor as int) by (nonlinear_arith)
        requires
            0 <= time,
            0 <= factor,
    ;
    (time as u128) * (factor as u128) + (offset as u128)
}

impl BlipBuf {
    /// Whether the buffer is in a state that its methods leave it in.
    pub open spec fn wf(&self) -> bool {
        self@.wf()
    }

    /// An empty buffer for `size` samples, at the slowest supported output rate.
    pub fn new(size: usize) -> (r: BlipBuf)
        requires
            size + BUF_EXTRA <= usize::MAX,
        ensures
            r.wf(),
            r@.size() == size,
            r@.factor == TIME_UNIT / MAX_RATIO,
            r@.offset == r@.factor / 2,
            r@.avail == 0,
            r@.is_silent(),
    {
        let n: usize = size + BUF_EXTRA;
        let mut buf: Vec<i64> = Vec::new();
        let mut i: usize = 0;
        while i < n
            invariant
                i <= n,
                buf@.len() == i,
                forall|j: int| 0 <= j < i ==> buf@[j] == 0,
            decreases n - i,
        {
            buf.push(0);
            i += 1;
        }
        let factor: u64 = TIME_UNIT / MAX_RATIO;
        BlipBuf { factor, offset: factor / 2, avail: 0, integrator: 0, buf }
    }

    /// Number of samples the buffer can hold.
    pub fn size(&self) -> (r: usize)
        requires
            self.wf(),
        ensures
            r == self@.size(),
    {
        self.buf.len() - BUF_EXTRA
    }

    /// Samples per clock, in units of `1 / TIME_UNIT`.
    pub fn factor(&self) -> (r: u64)
        ensures
            r == self@.factor,
    {
        self.factor
    }

    /// Sets the clock rate and the sample rate that times and samples are counted in.
    pub fn set_rates(&mut self, clock_rate: u32, sample_rate: u32)
        requires
            old(self).wf(),
            0 < sample_rate <= clock_rate,
        ensures
            final(self).wf(),
            final(self)@ == (BlipState {
                factor: rate_factor(clock_rate as int, sample_rate as int) as u64,
                ..old(self)@
            }),
    {
        let scaled: u128 = (TIME_UNIT as u128) * (sample_rate as u128);
        let rate: u128 = clock_rate as u128;
        let factor: u128 = (scaled + rate - 1) / rate;
        assert(factor == rate_factor(clock_rate as int, sample_rate as int));
        assert(factor <= TIME_UNIT) by (nonlinear_arith)
            requires
                factor == (TIME_UNIT as int * sample_rate as int + rate as int - 1) / (
                rate as int),
                0 < sample_rate <= rate,
        ;
        assert(factor > 0) by (nonlinear_arith)
            requires
                factor == (TIME_UNIT as int * sample_rate as int + rate as int - 1) / (
                rate as int),
                0 < sample_rate,
                0 < rate,
        ;
        self.factor = factor as u64;
    }

    /// Erases every pending delta and the filter memory.
    pub fn clear(&mut self)
        requires
            old(self).wf(),
        ensures
            final(self).wf(),
            final(self)@ == old(self)@.clear(),
    {
        self.offset = self.factor / 2;
        self.avail = 0;
        self.integrator = 0;
        let n: usize = self.buf.len();
        let mut i: usize = 0;
        while i < n
            invariant
                i <= n,
                self.buf@.len() == n,
                self.factor == old(self).factor,
                self.offset == self.factor / 2,
                self.avail == 0,
                self.integrator == 0,
                forall|j: int| 0 <= j < i ==> self.buf@[j] == 0,
            decreases n - i,
        {
            self.buf[i] = 0;
            i += 1;
        }
        assert(self.buf@ =~= old(self)@.clear().deltas);
    }

    /// Number of finished samples waiting to be read.
    pub fn samples_avail(&self) -> (r: usize)
        ensures
            r == self@.avail,
    {
        self.avail
    }

    /// Ends the current frame `duration` clocks after it began; the samples it covers
    /// become available and the next frame begins where this one ended.
    pub fn end_frame(&mut self, duration: u64)
        requires
            old(self).wf(),
            old(self)@.fits(duration as int),
        ensures
            final(self).wf(),
            final(self)@ == old(self)@.end_frame(duration as int),
    {
        let off: u128 = fixed_time(duration, self.factor, self.offset);
        let whole: u128 = off / (TIME_UNIT as u128);
        assert(self.avail + whole <= self.buf.len());
        self.avail = self.avail + whole as usize;
        self.offset = (off % (TIME_UNIT as u128)) as u64;
    }

    /// Records an amplitude change of `delta` at `time` clocks into the current frame.
    pub fn add_delta(&mut self, time: u64, delta: i32)
        requires
            old(self).wf(),
            old(self)@.accepts(time as int),
        ensures
            final(self).wf(),
            final(self)@ == old(self)@.add_delta(time as int, delta as int),
    {
        let fixed: u128 = fixed_time(time, self.factor, self.offset);
        assert(self.avail + fixed / (TIME_UNIT as u128) <= self.buf.len());
        let first: usize = self.avail + (fixed / (TIME_UNIT as u128)) as usize;
        let frac: u64 = ((fixed / (PRE_UNIT as u128)) % (FRAC_UNIT as u128)) as u64;
        let phase: usize = (frac / (DELTA_UNIT as u64)) as usize;
        let interp: i64 = (frac % (DELTA_UNIT as u64)) as i64;
        assert(interp == old(self)@.interp(time as int)) by {
            let x = fixed as int / (PRE_UNIT as int);
            assert(x % (FRAC_UNIT as int) % (DELTA_UNIT as int) == x % (DELTA_UNIT as int));
        }
        assert(delta as int * interp as int <= 0x8000_0000 * 0x8000) by (nonlinear_arith)
            requires
                -0x8000_0000 <= delta <= 0x8000_0000,
                0 <= interp <= 0x8000,
        ;
        assert(delta as int * interp as int >= -0x8000_0000 * 0x8000) by (nonlinear_arith)
            requires
                -0x8000_0000 <= delta <= 0x8000_0000,
                0 <= interp <= 0x8000,
        ;
        let late: i64 = floor_units((delta as i64) * interp);
        let early: i64 = delta as i64 - late;
        let ghost before = self.buf@;
        let mut tap: usize = 0;
        while tap < 2 * HALF_WIDTH
            invariant
                tap <= 2 * HALF_WIDTH,
                phase < PHASE_COUNT,
                -0x1_0000_0000 <= late <= 0x1_0000_0000,
                -0x2_0000_0000 <= early <= 0x2_0000_0000,
                late == late_part(delta as int, interp as int),
                early == delta - late,
                self.buf@.len() == before.len(),
                first + 2 * HALF_WIDTH <= before.len(),
                before.len() <= usize::MAX,
                self.factor == old(self).factor,
                self.offset == old(self).offset,
                self.avail == old(self).avail,
                self.integrator == old(self).integrator,
                forall|i: int|
                    0 <= i < before.len() ==> self.buf@[i] == (if first <= i < first + tap {
                        saturate(
                            before[i] + tap_weight(
                                phase as int,
                                interp as int,
                                delta as int,
                                i - first,
                            ),
                        ) as i64
                    } else {
                        before[i]
                    }),
            decreases 2 * HALF_WIDTH - tap,
        {
            let a: i64 = if tap < HALF_WIDTH {
                BL_STEP[phase][tap] as i64
            } else {
                BL_STEP[PHASE_COUNT - phase][15 - tap] as i64
            };
            let b: i64 = if tap < HALF_WIDTH {
                BL_STEP[phase + 1][tap] as i64
            } else {
                BL_STEP[PHASE_COUNT - phase - 1][15 - tap] as i64
            };
            assert(-0x8000 * 0x2_0000_0000 <= a as int * early as int <= 0x8000 * 0x2_0000_0000)
                by (nonlinear_arith)
                requires
                    -0x8000 <= a <= 0x8000,
                    -0x2_0000_0000 <= early <= 0x2_0000_0000,
            ;
            assert(-0x8000 * 0x1_0000_0000 <= b as int * late as int <= 0x8000 * 0x1_0000_0000)
                by (nonlinear_arith)
                requires
                    -0x8000 <= b <= 0x8000,
                    -0x1_0000_0000 <= late <= 0x1_0000_0000,
            ;
            let weight: i64 = a * early + b * late;
            assert(weight == tap_weight(phase as int, interp as int, delta as int, tap as int));
            let at: usize = first + tap;
            self.buf[at] = saturate_wide(self.buf[at] as i128 + weight as i128);
            tap += 1;
        }
        assert(self.buf@ =~= old(self)@.add_delta(time as int, delta as int).deltas);
    }

    /// Moves finished samples into `out`, the oldest first, until `out` is full or
    /// none is left, and returns how many were moved.
    pub fn read_samples(&mut self, out: &mut [i16]) -> (count: usize)
        requires
            old(self).wf(),
        ensures
            final(self).wf(),
            count == if old(self)@.avail <= old(out)@.len() {
                old(self)@.avail
            } else {
                old(out)@.len()
            },
            final(self)@ == old(self)@.consume(count as nat),
            final(out)@.len() == old(out)@.len(),
            forall|i: int|
                0 <= i < old(out)@.len() ==> #[trigger] final(out)@[i] == (if i < count {
                    sample_at(old(self)@.deltas, old(self)@.integrator as int, i as nat) as i16
                } else {
                    old(out)@[i]
                }),
    {
        let count: usize = if self.avail <= out.len() {
            self.avail
        } else {
            out.len()
        };
        let ghost deltas = self.buf@;
        let ghost first = self.integrator as int;
        let mut sum: i64 = self.integrator;
        let mut i: usize = 0;
        while i < count
            invariant
                i <= count,
                count <= self.avail,
                self.avail + BUF_EXTRA <= self.buf@.len(),
                count <= out@.len(),
                out@.len() == old(out)@.len(),
                self.buf@ == deltas,
                *self == *old(self),
                sum == integrator_at(deltas, first, i as nat),
                forall|j: int|
                    0 <= j < out@.len() ==> #[trigger] out@[j] == (if j < i {
                        sample_at(deltas, first, j as nat) as i16
                    } else {
                        old(out)@[j]
                    }),
            decreases count - i,
        {
            let level: i64 = floor_units(sum);
            let sample: i16 = if level > i16::MAX as i64 {
                i16::MAX
            } else if level < i16::MIN as i64 {
                i16::MIN
            } else {
                level as i16
            };
            out[i] = sample;
            let feedback: i64 = (sample as i64) * BASS_GAIN;
            sum = saturate_wide(sum as i128 + self.buf[i] as i128 - feedback as i128);
            i += 1;
        }
        self.integrator = sum;
        self.remove_samples(count);
        count
    }

    /// Drops the `count` oldest samples and makes room for as many new ones.
    fn remove_samples(&mut self, count: usize)
        requires
            old(self).buf@.len() >= BUF_EXTRA,
            count <= old(self).avail,
            old(self).avail + BUF_EXTRA <= old(self).buf@.len(),
        ensures
            final(self).factor == old(self).factor,
            final(self).offset == old(self).offset,
            final(self).integrator == old(self).integrator,
            final(self).avail == old(self).avail - count,
            final(self).buf@ == old(self).buf@.skip(count as int) + Seq::new(
                count as nat,
                |i: int| 0i64,
            ),
    {
        let n: usize = self.buf.len();
        let remain: usize = n - count;
        let ghost before = self.buf@;
        let mut i: usize = 0;
        while i < remain
            invariant
                i <= remain,
                remain + count == n,
                self.buf@.len() == n,
                before.len() == n,
                self.factor == old(self).factor,
                self.offset == old(self).offset,
                self.avail == old(self).avail,
                self.integrator == old(self).integrator,
                forall|j: int| 0 <= j < i ==> self.buf@[j] == before[j + count],
                forall|j: int| i <= j < n ==> self.buf@[j] == before[j],
            decreases remain - i,
        {
            self.buf[i] = self.buf[i + count];
            i += 1;
        }
        while i < n
            invariant
                remain <= i <= n,
                remain + count == n,
                self.buf@.len() == n,
                before.len() == n,
                self.factor == old(self).factor,
                self.offset == old(self).offset,
                self.avail == old(self).avail,
                self.integrator == old(self).integrator,
                forall|j: int| 0 <= j < remain ==> self.buf@[j] == before[j + count],
                forall|j: int| remain <= j < i ==> self.buf@[j] == 0,
            decreases n - i,
        {
            self.buf[i] = 0;
            i += 1;
        }
        self.avail = self.avail - count;
        assert(self.buf@ =~= before.skip(count as int) + Seq::new(count as nat, |i: int| 0i64));
    }
}

/// Sum of the first `n` weights that a delta adds to the buffer.
pub open spec fn weight_sum(phase: int, interp: int, delta: int, n: nat) -> int
    decreases n,
{
    if n == 0 {
        0
    } else {
        weight_sum(phase, interp, delta, (n - 1) as nat) + tap_weight(phase, interp, delta, n - 1)
    }
}

/// Sum of the first `n` entries of row `phase` of the step table.
pub open spec fn row_sum(phase: int, n: nat) -> int
    decreases n,
{
    if n == 0 {
        0
    } else {
        row_sum(phase, (n - 1) as nat) + BL_STEP[phase][n - 1]
    }
}

/// A row of the step table and the row of the complementary phase add up to one unit.
proof fn lemma_rows_complement(phase: int)
    requires
        0 <= phase <= PHASE_COUNT,
    ensures
        row_sum(phase, 8) + row_sum(PHASE_COUNT - phase, 8) == DELTA_UNIT,
{
    reveal_with_fuel(row_sum, 9);
}

/// The weights on the taps before the delta follow the rows of its two phases.
proof fn lemma_weights_before(phase: int, interp: int, delta: int, n: nat)
    requires
        n <= HALF_WIDTH,
    ensures
        weight_sum(phase, interp, delta, n) == row_sum(phase, n) * (delta - late_part(
            delta,
            interp,
        )) + row_sum(phase + 1, n) * late_part(delta, interp),
    decreases n,
{
    let late = late_part(delta, interp);
    let early = delta - late;
    if n > 0 {
        lemma_weights_before(phase, interp, delta, (n - 1) as nat);
        let x = row_sum(phase, (n - 1) as nat);
        let y = row_sum(phase + 1, (n - 1) as nat);
        let p = BL_STEP[phase][n - 1] as int;
        let q = BL_STEP[phase + 1][n - 1] as int;
        assert((x + p) * early + (y + q) * late == x * early + y * late + (p * early + q * late))
            by (nonlinear_arith);
    }
}

/// The weights on the taps after the delta follow the mirrored rows of the
/// complementary phases.
proof fn lemma_weights_after(phase: int, interp: int, delta: int, m: nat)
    requires
        m <= HALF_WIDTH,
    ensures
        weight_sum(phase, interp, delta, 8 + m) == weight_sum(phase, interp, delta, 8) + (row_sum(
            PHASE_COUNT - phase,
            8,
        ) - row_sum(PHASE_COUNT - phase, (8 - m) as nat)) * (delta - late_part(delta, interp)) + (
        row_sum(PHASE_COUNT - phase - 1, 8) - row_sum(PHASE_COUNT - phase - 1, (8 - m) as nat))
            * late_part(delta, interp),
    decreases m,
{
    let late = late_part(delta, interp);
    let early = delta - late;
    let c = PHASE_COUNT - phase;
    let d = PHASE_COUNT - phase - 1;
    if m == 0 {
        assert((row_sum(c, 8) - row_sum(c, 8)) * early + (row_sum(d, 8) - row_sum(d, 8)) * late
            == 0) by (nonlinear_arith);
    } else {
        lemma_weights_after(phase, interp, delta, (m - 1) as nat);
        let x = row_sum(c, 8) - row_sum(c, (8 - m + 1) as nat);
        let y = row_sum(d, 8) - row_sum(d, (8 - m + 1) as nat);
        let p = BL_STEP[c][8 - m] as int;
        let q = BL_STEP[d][8 - m] as int;
        assert(row_sum(c, (8 - m + 1) as nat) == row_sum(c, (8 - m) as nat) + p);
        assert(row_sum(d, (8 - m + 1) as nat) == row_sum(d, (8 - m) as nat) + q);
        assert(tap_weight(phase, interp, delta, 8 + m - 1) == p * early + q * late);
        assert((x + p) * early + (y + q) * late == x * early + y * late + (p * early + q * late))
            by (nonlinear_arith);
    }
}

/// The sums of the first entries of a row of the step table stay small
/// below and never pass the row's own sum above.
proof fn lemma_row_sum_range(phase: int, n: nat)
    requires
        0 <= phase <= PHASE_COUNT,
        n <= HALF_WIDTH,
    ensures
        -256 <= row_sum(phase, n) <= 26895,
{
    let row = BL_STEP[phase];
    assert(row_sum(phase, 0) == 0);
    assert(row_sum(phase, 1) == row[0]);
    assert(row_sum(phase, 2) == row[0] + row[1]);
    assert(row_sum(phase, 3) == row[0] + row[1] + row[2]);
    assert(row_sum(phase, 4) == row[0] + row[1] + row[2] + row[3]);
    assert(row_sum(phase, 5) == row_sum(phase, 4) + row[4]);
    assert(row_sum(phase, 6) == row_sum(phase, 5) + row[5]);
    assert(row_sum(phase, 7) == row_sum(phase, 6) + row[6]);
    assert(row_sum(phase, 8) == row_sum(phase, 7) + row[7]);
    if phase < 8 {
    } else if phase < 16 {
    } else if phase < 24 {
    } else {
    }
}

/// The sum of the first weights of a rising delta never falls below the
/// delta's height by more than one part in 128, nor rises above it by more:
/// the step comes without an overshoot to speak of.
pub proof fn lemma_weight_sum_range(phase: int, interp: int, delta: int, n: nat)
    requires
        0 <= phase < PHASE_COUNT,
        0 <= interp < DELTA_UNIT,
        0 <= delta,
        n <= 2 * HALF_WIDTH,
    ensures
        -256 * delta <= weight_sum(phase, interp, delta, n) <= 33024 * delta,
{
    let late = late_part(delta, interp);
    let early = delta - late;
    assert(0 <= late <= delta) by (nonlinear_arith)
        requires
            late == delta * interp / 32768,
            0 <= interp < 32768,
            0 <= delta,
    ;
    if n <= 8 {
        lemma_weights_before(phase, interp, delta, n);
        lemma_row_sum_range(phase, n);
        lemma_row_sum_range(phase + 1, n);
        let a = row_sum(phase, n);
        let b = row_sum(phase + 1, n);
        assert(-256 * delta <= a * early + b * late <= 26895 * delta) by (nonlinear_arith)
            requires
                -256 <= a <= 26895,
                -256 <= b <= 26895,
                0 <= early,
                0 <= late,
                early + late == delta,
        ;
    } else {
        let m = (n - 8) as nat;
        let c = PHASE_COUNT - phase;
        let d = PHASE_COUNT - phase - 1;
        lemma_weights_before(phase, interp, delta, 8);
        lemma_weights_after(phase, interp, delta, m);
        lemma_rows_complement(phase);
        lemma_rows_complement(phase + 1);
        lemma_row_sum_range(c, (8 - m) as nat);
        lemma_row_sum_range(d, (8 - m) as nat);
        let a = row_sum(phase, 8);
        let b = row_sum(phase + 1, 8);
        let cc = row_sum(c, 8);
        let dd = row_sum(d, 8);
        let x = row_sum(c, (8 - m) as nat);
        let y = row_sum(d, (8 - m) as nat);
        let sum = weight_sum(phase, interp, delta, n);
        assert(-256 * delta <= sum <= 33024 * delta) by (nonlinear_arith)
            requires
                sum == a * early + b * late + (cc - x) * early + (dd - y) * late,
                a + cc == 32768,
                b + dd == 32768,
                -256 <= x <= 26895,
                -256 <= y <= 26895,
                0 <= early,
                0 <= late,
                early + late == delta,
        ;
    }
}

/// No weight of a delta is more than the buffer can hold.
pub proof fn lemma_tap_weight_range(phase: int, interp: int, delta: int, tap: int)
    requires
        0 <= phase < PHASE_COUNT,
        0 <= interp < DELTA_UNIT,
        i32::MIN <= delta <= i32::MAX,
        0 <= tap < 2 * HALF_WIDTH,
    ensures
        -0x4_0000_0000_0000 <= tap_weight(phase, interp, delta, tap) <= 0x4_0000_0000_0000,
{
    let late = late_part(delta, interp);
    let early = delta - late;
    assert(-0x1_0000_0000 <= late <= 0x1_0000_0000) by (nonlinear_arith)
        requires
            late == delta * interp / 32768,
            -0x8000_0000 <= delta <= 0x8000_0000,
            0 <= interp < 32768,
    ;
    let (a, b) = if tap < HALF_WIDTH {
        (BL_STEP[phase][tap] as int, BL_STEP[phase + 1][tap] as int)
    } else {
        (
            BL_STEP[PHASE_COUNT - phase][15 - tap] as int,
            BL_STEP[PHASE_COUNT - phase - 1][15 - tap] as int,
        )
    };
    assert(-0x4_0000_0000_0000 <= a * early + b * late <= 0x4_0000_0000_0000)
        by (nonlinear_arith)
        requires
            -0x8000 <= a <= 0x8000,
            -0x8000 <= b <= 0x8000,
            -0x2_0000_0000 <= early <= 0x2_0000_0000,
            -0x1_0000_0000 <= late <= 0x1_0000_0000,
    ;
}

/// The sixteen weights of a delta add up to the delta itself, in units of
/// `1 / DELTA_UNIT`, wherever the delta falls within a sample: a step settles
/// at exactly its height.
pub proof fn step_weights_add_up(phase: int, interp: int, delta: int)
    requires
        0 <= phase < PHASE_COUNT,
    ensures
        weight_sum(phase, interp, delta, 16) == delta * DELTA_UNIT,
{
    let late = late_part(delta, interp);
    let early = delta - late;
    let a = row_sum(phase, 8);
    let b = row_sum(phase + 1, 8);
    let c = row_sum(PHASE_COUNT - phase, 8);
    let d = row_sum(PHASE_COUNT - phase - 1, 8);
    lemma_rows_complement(phase);
    lemma_rows_complement(phase + 1);
    lemma_weights_before(phase, interp, delta, 8);
    lemma_weights_after(phase, interp, delta, 8);
    assert(row_sum(PHASE_COUNT - phase, 0) == 0);
    assert(row_sum(PHASE_COUNT - phase - 1, 0) == 0);
    assert(a * early + b * late + (c - 0) * early + (d - 0) * late == delta * DELTA_UNIT)
        by (nonlinear_arith)
        requires
            a + c == DELTA_UNIT,
            b + d == DELTA_UNIT,
            early + late == delta,
    ;
}

/// Clock times grow with sample positions.
pub proof fn lemma_position_grows(blip: BlipState, earlier: int, later: int)
    requires
        0 <= earlier <= later,
    ensures
        0 <= blip.position(earlier) <= blip.position(later),
{
    assert(0 <= earlier * blip.factor <= later * blip.factor) by (nonlinear_arith)
        requires
            0 <= earlier <= later,
            0 <= blip.factor,
    ;
}

/// A change of amplitude moves no sample boundary.
pub proof fn lemma_add_delta_frame(blip: BlipState, time: int, delta: int)
    ensures
        blip.add_delta(time, delta).factor == blip.factor,
        blip.add_delta(time, delta).offset == blip.offset,
        blip.add_delta(time, delta).avail == blip.avail,
        blip.add_delta(time, delta).integrator == blip.integrator,
        blip.add_delta(time, delta).deltas.len() == blip.deltas.len(),
        blip.wf() ==> blip.add_delta(time, delta).wf(),
        forall|t: int| blip.add_delta(time, delta).position(t) == blip.position(t),
{
}

/// The running sum of the read filter stays within what the buffer can hold.
pub proof fn lemma_integrator_range(deltas: Seq<i64>, start: int, n: nat)
    requires
        i64::MIN <= start <= i64::MAX,
    ensures
        i64::MIN <= integrator_at(deltas, start, n) <= i64::MAX,
    decreases n,
{
    if n > 0 {
        lemma_integrator_range(deltas, start, (n - 1) as nat);
    }
}

/// The read filter can stop and go on: after `m` entries have been read and
/// dropped, the next `n` are filtered as they would have been in one go.
pub proof fn lemma_integrator_resumes(deltas: Seq<i64>, start: int, m: nat, n: nat)
    requires
        m + n <= deltas.len(),
    ensures
        integrator_at(
            deltas.skip(m as int) + Seq::new(m, |i: int| 0i64),
            integrator_at(deltas, start, m),
            n,
        ) == integrator_at(deltas, start, m + n),
    decreases n,
{
    if n > 0 {
        lemma_integrator_resumes(deltas, start, m, (n - 1) as nat);
        let rest = deltas.skip(m as int) + Seq::new(m, |i: int| 0i64);
        assert(rest[n - 1] == deltas[m + n - 1]);
    }
}

/// Reading `m` samples and then `n` leaves the buffer as reading `m + n` does.
pub proof fn lemma_consume_twice(blip: BlipState, m: nat, n: nat)
    requires
        m + n <= blip.avail <= blip.deltas.len(),
    ensures
        blip.consume(m).consume(n) == blip.consume(m + n),
{
    let start = blip.integrator as int;
    lemma_integrator_range(blip.deltas, start, m);
    lemma_integrator_resumes(blip.deltas, start, m, n);
    assert(blip.consume(m).consume(n).deltas =~= blip.consume(m + n).deltas);
}

/// After `m` samples have been read, the `i`-th of the next is the one that
/// would have been read as the `m + i`-th.
pub proof fn lemma_sample_resumes(blip: BlipState, m: nat, i: nat)
    requires
        m + i <= blip.deltas.len(),
    ensures
        sample_at(blip.consume(m).deltas, blip.consume(m).integrator as int, i) == sample_at(
            blip.deltas,
            blip.integrator as int,
            m + i,
        ),
{
    let start = blip.integrator as int;
    lemma_integrator_range(blip.deltas, start, m);
    lemma_integrator_resumes(blip.deltas, start, m, i);
}

/// The buffer that holds one delta and nothing else: its sixteen weights from
/// sample `first` on.
#[verifier::opaque]
pub open spec fn step_buffer(len: nat, first: int, phase: int, interp: int, delta: int) -> Seq<
    i64,
> {
    Seq::new(
        len,
        |i: int|
            if first <= i < first + 2 * HALF_WIDTH {
                tap_weight(phase, interp, delta, i - first) as i64
            } else {
                0i64
            },
    )
}

/// Into a buffer in which nothing is pending, a delta puts its sixteen
/// weights, spread over sixteen samples, and nothing else.
pub proof fn lemma_delta_in_silence(blip: BlipState, time: int, delta: int)
    requires
        blip.is_silent(),
        0 <= time,
        i32::MIN <= delta <= i32::MAX,
    ensures
        0 <= blip.phase(time) < PHASE_COUNT,
        0 <= blip.interp(time) < DELTA_UNIT,
        blip.add_delta(time, delta).integrator == 0,
        blip.add_delta(time, delta).deltas == step_buffer(
            blip.deltas.len(),
            blip.avail + blip.position(time),
            blip.phase(time),
            blip.interp(time),
            delta,
        ),
        forall|tap: int|
            0 <= tap < 2 * HALF_WIDTH ==> i64::MIN <= #[trigger] tap_weight(
                blip.phase(time),
                blip.interp(time),
                delta,
                tap,
            ) <= i64::MAX,
{
    reveal(step_buffer);
    let phase = blip.phase(time);
    let interp = blip.interp(time);
    assert(0 <= blip.fixed(time)) by (nonlinear_arith)
        requires
            0 <= time,
            blip.fixed(time) == time * blip.factor + blip.offset,
            0 <= blip.factor,
            0 <= blip.offset,
    ;
    assert forall|tap: int| 0 <= tap < 2 * HALF_WIDTH implies -0x4_0000_0000_0000
        <= #[trigger] tap_weight(phase, interp, delta, tap) <= 0x4_0000_0000_0000 by {
        lemma_tap_weight_range(phase, interp, delta, tap);
    }
    assert(blip.add_delta(time, delta).deltas =~= step_buffer(
        blip.deltas.len(),
        blip.avail + blip.position(time),
        phase,
        interp,
        delta,
    ));
}

/// With nothing more coming in, a level that the read filter holds falls
/// slowly and evenly: each sample takes off at most one part in 512 of it, and
/// it neither rises nor falls below zero.
pub proof fn lemma_level_decays(deltas: Seq<i64>, start: int, n: nat)
    requires
        i64::MIN <= start <= i64::MAX,
        n < deltas.len(),
        deltas[n as int] == 0,
        0 <= integrator_at(deltas, start, n),
    ensures
        0 <= integrator_at(deltas, start, n + 1) <= integrator_at(deltas, start, n),
        512 * integrator_at(deltas, start, n + 1) >= 511 * integrator_at(deltas, start, n),
        0 <= sample_at(deltas, start, n + 1) <= sample_at(deltas, start, n),
{
    lemma_integrator_range(deltas, start, n);
    let before = integrator_at(deltas, start, n);
    let level = clamp_sample(before / (DELTA_UNIT as int));
    assert(integrator_at(deltas, start, n + 1) == saturate(
        before + deltas[n as int] - level * BASS_GAIN,
    ));
}

/// Before anything has come in, the read filter is at rest.
pub proof fn lemma_quiet_before(deltas: Seq<i64>, n: nat)
    requires
        n <= deltas.len(),
        forall|i: int| 0 <= i < n ==> #[trigger] deltas[i] == 0,
    ensures
        integrator_at(deltas, 0, n) == 0,
    decreases n,
{
    if n > 0 {
        lemma_quiet_before(deltas, (n - 1) as nat);
    }
}

/// While the weights of a rising step come in, the read filter follows
/// their sum: what the filter takes off in the meantime is little.
proof fn lemma_step_tracks(len: nat, first: int, phase: int, interp: int, delta: int, j: nat)
    requires
        0 <= first,
        first + 2 * HALF_WIDTH <= len,
        j <= 2 * HALF_WIDTH,
        0 <= phase < PHASE_COUNT,
        0 <= interp < DELTA_UNIT,
        0 <= delta <= i32::MAX,
    ensures
        ({
            let step = step_buffer(len, first, phase, interp, delta);
            let held = integrator_at(step, 0, (first + j) as nat);
            let sum = weight_sum(phase, interp, delta, j);
            sum - j * (70 * delta + 70) <= held <= sum + j * (70 * delta + 70)
        }),
    decreases j,
{
    reveal(step_buffer);
    let step = step_buffer(len, first, phase, interp, delta);
    let slack = 70 * delta + 70;
    if j == 0 {
        lemma_quiet_before(step, first as nat);
        assert(0 * slack == 0) by (nonlinear_arith);
    } else {
        let i = (j - 1) as nat;
        lemma_step_tracks(len, first, phase, interp, delta, i);
        lemma_weight_sum_range(phase, interp, delta, i);
        lemma_tap_weight_range(phase, interp, delta, i as int);
        let before = integrator_at(step, 0, (first + i) as nat);
        let weight = tap_weight(phase, interp, delta, i as int);
        assert(step[first + i] == weight);
        assert(integrator_at(step, 0, (first + j) as nat) == saturate(
            before + step[first + j - 1] - clamp_sample(before / (DELTA_UNIT as int)) * BASS_GAIN,
        ));
        assert(0 <= i * slack <= 15 * slack && j * slack == i * slack + slack)
            by (nonlinear_arith)
            requires
                0 <= i <= 15,
                j == i + 1,
                0 <= slack,
        ;
    }
}

/// Once the sixteen weights of a rising step have come in, the read filter
/// holds the height of the step, in units of `1 / DELTA_UNIT`, but for what it
/// has taken off in the meantime: it is within 35 parts in 1024 of the height,
/// and of one level.
pub proof fn step_settles(len: nat, first: int, phase: int, interp: int, delta: int)
    requires
        0 <= first,
        first + 2 * HALF_WIDTH <= len,
        0 <= phase < PHASE_COUNT,
        0 <= interp < DELTA_UNIT,
        0 <= delta <= i32::MAX,
    ensures
        ({
            let step = step_buffer(len, first, phase, interp, delta);
            let held = integrator_at(step, 0, (first + 2 * HALF_WIDTH) as nat);
            31648 * delta - 1120 <= held <= 33888 * delta + 1120
        }),
{
    lemma_step_tracks(len, first, phase, interp, delta, 16);
    step_weights_add_up(phase, interp, delta);
    let slack = 70 * delta + 70;
    assert(16 * slack == 1120 * delta + 1120);
}

/// After a rising step has come in, the read filter holds its level and
/// lets it fall slowly: from one sample to the next the level never rises,
/// never falls below zero, and loses at most one part in 512.
pub proof fn step_holds_its_level(
    len: nat,
    first: int,
    phase: int,
    interp: int,
    delta: int,
    k: nat,
)
    requires
        0 <= first,
        2 * HALF_WIDTH <= k,
        first + k < len,
        0 <= phase < PHASE_COUNT,
        0 <= interp < DELTA_UNIT,
        1 <= delta <= i32::MAX,
    ensures
        ({
            let step = step_buffer(len, first, phase, interp, delta);
            let held = integrator_at(step, 0, (first + k) as nat);
            let next = integrator_at(step, 0, (first + k + 1) as nat);
            &&& 0 <= next <= held <= 33888 * delta + 1120
            &&& 512 * next >= 511 * held
            &&& 0 <= sample_at(step, 0, (first + k + 1) as nat) <= sample_at(
                step,
                0,
                (first + k) as nat,
            )
        }),
    decreases k,
{
    reveal(step_buffer);
    let step = step_buffer(len, first, phase, interp, delta);
    if k == 2 * HALF_WIDTH {
        step_settles(len, first, phase, interp, delta);
    } else {
        step_holds_its_level(len, first, phase, interp, delta, (k - 1) as nat);
    }
    lemma_level_decays(step, 0, (first + k) as nat);
}

/// Up to the sample that a step falls in, the read filter puts out nothing.
pub proof fn step_comes_in_time(len: nat, first: int, phase: int, interp: int, delta: int, i: nat)
    requires
        0 <= first,
        first + 2 * HALF_WIDTH <= len,
        i <= first,
    ensures
        sample_at(step_buffer(len, first, phase, interp, delta), 0, i) == 0,
{
    reveal(step_buffer);
    lemma_quiet_before(step_buffer(len, first, phase, interp, delta), i);
}

/// Sixteen samples after the one that a rising step falls in, the read filter
/// puts out the height of the step, within 35 parts in 1024 and one level.
pub proof fn step_reaches_its_height(len: nat, first: int, phase: int, interp: int, delta: int)
    requires
        0 <= first,
        first + 2 * HALF_WIDTH <= len,
        0 <= phase < PHASE_COUNT,
        0 <= interp < DELTA_UNIT,
        1 <= delta <= i32::MAX,
    ensures
        ({
            let step = step_buffer(len, first, phase, interp, delta);
            let settled = sample_at(step, 0, (first + 2 * HALF_WIDTH) as nat);
            &&& 0 <= settled
            &&& 32768 * settled <= 33888 * delta + 1120
            &&& settled == i16::MAX || 32768 * (settled + 1) > 31648 * delta - 1120
        }),
{
    step_settles(len, first, phase, interp, delta);
}

/// After a rising step has come in, what the read filter puts out never
/// rises again and never falls below zero.
pub proof fn step_never_rises(
    len: nat,
    first: int,
    phase: int,
    interp: int,
    delta: int,
    i: nat,
    j: nat,
)
    requires
        0 <= first,
        first + 2 * HALF_WIDTH <= i <= j <= len,
        0 <= phase < PHASE_COUNT,
        0 <= interp < DELTA_UNIT,
        1 <= delta <= i32::MAX,
    ensures
        0 <= sample_at(step_buffer(len, first, phase, interp, delta), 0, j) <= sample_at(
            step_buffer(len, first, phase, interp, delta),
            0,
            i,
        ),
    decreases j - i,
{
    if i < j {
        step_never_rises(len, first, phase, interp, delta, i, (j - 1) as nat);
        step_holds_its_level(len, first, phase, interp, delta, (j - 1 - first) as nat);
    } else {
        step_reaches_its_height(len, first, phase, interp, delta);
        if i > first + 2 * HALF_WIDTH {
            step_holds_its_level(len, first, phase, interp, delta, (i - 1 - first) as nat);
        }
    }
}

/// After a rising step has come in, the level that the read filter holds
/// sinks slowly: `k` samples on, no more than `k` parts in 512 of it are gone.
pub proof fn step_sinks_slowly(
    len: nat,
    first: int,
    phase: int,
    interp: int,
    delta: int,
    k: nat,
)
    requires
        0 <= first,
        first + 2 * HALF_WIDTH + k <= len,
        k <= 512,
        0 <= phase < PHASE_COUNT,
        0 <= interp < DELTA_UNIT,
        1 <= delta <= i32::MAX,
    ensures
        ({
            let step = step_buffer(len, first, phase, interp, delta);
            let settled = integrator_at(step, 0, (first + 2 * HALF_WIDTH) as nat);
            let held = integrator_at(step, 0, (first + 2 * HALF_WIDTH + k) as nat);
            &&& 0 <= held <= settled
            &&& 512 * held >= settled * (512 - k)
        }),
    decreases k,
{
    let step = step_buffer(len, first, phase, interp, delta);
    let settled = integrator_at(step, 0, (first + 2 * HALF_WIDTH) as nat);
    if k == 0 {
        step_settles(len, first, phase, interp, delta);
        assert(settled * (512 - 0) == 512 * settled) by (nonlinear_arith);
    } else {
        step_sinks_slowly(len, first, phase, interp, delta, (k - 1) as nat);
        step_holds_its_level(len, first, phase, interp, delta, (2 * HALF_WIDTH + k - 1) as nat);
        let before = integrator_at(step, 0, (first + 2 * HALF_WIDTH + k - 1) as nat);
        assert(settled * (512 - (k - 1)) - settled == settled * (512 - k)) by (nonlinear_arith);
    }
}

/// A delta of zero changes nothing.
pub proof fn lemma_zero_delta(blip: BlipState, time: int)
    ensures
        blip.add_delta(time, 0) == blip,
{
    let phase = blip.phase(time);
    let interp = blip.interp(time);
    assert(late_part(0, interp) == 0) by (nonlinear_arith)
        requires
            late_part(0, interp) == 0 * interp / 32768,
    ;
    assert forall|tap: int| tap_weight(phase, interp, 0, tap) == 0 by {
        assert(forall|x: int| #[trigger] (x * 0) == 0) by (nonlinear_arith);
    }
    assert(blip.add_delta(time, 0).deltas =~= blip.deltas);
}

/// At rest and with nothing buffered, the read filter stays at rest.
pub proof fn lemma_silent_integrator(deltas: Seq<i64>, n: nat)
    requires
        n <= deltas.len(),
        forall|i: int| 0 <= i < deltas.len() ==> #[trigger] deltas[i] == 0,
    ensures
        integrator_at(deltas, 0, n) == 0,
        sample_at(deltas, 0, n) == 0,
    decreases n,
{
    if n > 0 {
        lemma_silent_integrator(deltas, (n - 1) as nat);
    }
}

/// Reading from a buffer in which nothing is pending yields zeros and leaves
/// nothing pending.
pub proof fn lemma_silent_consume(blip: BlipState, count: nat)
    requires
        blip.is_silent(),
        count <= blip.deltas.len(),
    ensures
        blip.consume(count).is_silent(),
        forall|i: nat| i < count ==> sample_at(blip.deltas, blip.integrator as int, i) == 0,
{
    lemma_silent_integrator(blip.deltas, count);
    assert forall|i: nat| i < count implies sample_at(blip.deltas, blip.integrator as int, i)
        == 0 by {
        lemma_silent_integrator(blip.deltas, i);
    }
}

} // verus!
