//! Host-side protocol decoders for raw capture data.
//!
//! These decoders operate on the raw sample stream produced by the logic capture
//! subsystem. Each sample is one byte where bit N represents the state of capture
//! channel N.
//!
//! Both decoders are stateful: call [`I2cDecoder::feed`] or [`UartDecoder::feed`]
//! with each chunk of samples. The returned cursor yields the decoded frames or
//! bytes of that chunk. State is preserved across calls so a protocol
//! transaction can span multiple chunks.
use vstd::prelude::*;
use vstd::arithmetic::div_mod::{lemma_fundamental_div_mod, lemma_fundamental_div_mod_converse};

use crate::text::{decimal, hex2, push_decimal, push_hex2};

verus! {

/// Whether capture channel `bit` is high in `sample`.
pub open spec fn channel_high(sample: u8, bit: u8) -> bool {
    (sample >> bit) & 1u8 == 1u8
}

/// The sequence holding the element of `o`, if any.
pub open spec fn option_seq<T>(o: Option<T>) -> Seq<T> {
    match o {
        Some(x) => seq![x],
        None => Seq::empty(),
    }
}

// ---------------------------------------------------------------------------
// I2C Decoder
// ---------------------------------------------------------------------------

/// A decoded I2C bus event.
#[derive(Debug, Clone, Copy, PartialEq, Eq, Structural)]
pub enum I2cFrame {
    /// START condition (SDA falls while SCL is high).
    Start {
        /// Sample index within the capture stream.
        sample_index: u64,
    },
    /// Repeated START condition.
    RepeatedStart {
        /// Sample index within the capture stream.
        sample_index: u64,
    },
    /// STOP condition (SDA rises while SCL is high).
    Stop {
        /// Sample index within the capture stream.
        sample_index: u64,
    },
    /// A complete byte (8 data bits + ACK/NACK).
    Data {
        /// The decoded byte value.
        value: u8,
        /// `true` if the receiver acknowledged (SDA low on 9th clock).
        ack: bool,
        /// Sample index of the first bit (the SCL rising edge that clocks
        /// it in).
        sample_index: u64,
    },
}

impl I2cFrame {
    /// The sample index carried by the frame, whatever its variant.
    pub open spec fn spec_sample_index(self) -> u64 {
        match self {
            I2cFrame::Start { sample_index } => sample_index,
            I2cFrame::RepeatedStart { sample_index } => sample_index,
            I2cFrame::Stop { sample_index } => sample_index,
            I2cFrame::Data { sample_index, .. } => sample_index,
        }
    }

    /// The display text of the frame: `[S @i]`, `[Sr @i]`, `[P @i]`, or
    /// `[0xVV A @i]` / `[0xVV N @i]` for an acknowledged / unacknowledged byte,
    /// with `VV` in upper-case hexadecimal and `i` in decimal.
    pub open spec fn text(self) -> Seq<char> {
        match self {
            I2cFrame::Start { sample_index } => seq!['[', 'S', ' ', '@'] + decimal(sample_index as nat)
                + seq![']'],
            I2cFrame::RepeatedStart { sample_index } => seq!['[', 'S', 'r', ' ', '@'] + decimal(
                sample_index as nat,
            ) + seq![']'],
            I2cFrame::Stop { sample_index } => seq!['[', 'P', ' ', '@'] + decimal(sample_index as nat)
                + seq![']'],
            I2cFrame::Data { value, ack, sample_index } => seq!['[', '0', 'x'] + hex2(value, true)
                + seq![' ', if ack { 'A' } else { 'N' }, ' ', '@'] + decimal(sample_index as nat)
                + seq![']'],
        }
    }

    /// The display text of the frame (see [`I2cFrame::text`]).
    pub fn to_string(&self) -> (s: String)
        ensures
            s@ == self.text(),
    {
        proof {
            reveal_strlit("[S @");
            reveal_strlit("[Sr @");
            reveal_strlit("[P @");
            reveal_strlit("[0x");
            reveal_strlit(" A @");
            reveal_strlit(" N @");
            reveal_strlit("]");
        }
        let mut s = String::new();
        match self {
            I2cFrame::Start { sample_index } => {
                s.append("[S @");
                push_decimal(&mut s, *sample_index);
            },
            I2cFrame::RepeatedStart { sample_index } => {
                s.append("[Sr @");
                push_decimal(&mut s, *sample_index);
            },
            I2cFrame::Stop { sample_index } => {
                s.append("[P @");
                push_decimal(&mut s, *sample_index);
            },
            I2cFrame::Data { value, ack, sample_index } => {
                s.append("[0x");
                push_hex2(&mut s, *value, true);
                if *ack {
                    s.append(" A @");
                } else {
                    s.append(" N @");
                }
                push_decimal(&mut s, *sample_index);
            },
        }
        s.append("]");
        proof {
            assert(s@ =~= self.text());
        }
        s
    }

    /// Sample index of the event.
    pub fn sample_index(&self) -> (r: u64)
        ensures
            r == self.spec_sample_index(),
    {
        match self {
            I2cFrame::Start { sample_index } => *sample_index,
            I2cFrame::RepeatedStart { sample_index } => *sample_index,
            I2cFrame::Stop { sample_index } => *sample_index,
            I2cFrame::Data { sample_index, .. } => *sample_index,
        }
    }
}

/// Internal state machine for the I2C decoder.
#[derive(Debug, Clone, Copy, PartialEq, Eq, Structural)]
pub enum I2cState {
    /// Waiting for a START condition.
    Idle,
    /// Collecting data bits (0–7).
    CollectBits { byte_val: u8, bit_count: u8 },
    /// Waiting for the ACK/NACK bit (9th clock).
    WaitAck { byte_val: u8 },
}

/// Stateful I2C bus decoder.
///
/// Detects START, STOP, data bytes, and ACK/NACK by monitoring SDA transitions
/// relative to SCL state, and sampling SDA on SCL rising edges.
pub struct I2cDecoder {
    sda_bit: u8,
    scl_bit: u8,
    state: I2cState,
    prev_sda: bool,
    prev_scl: bool,
    /// Running sample counter (persists across `feed` calls).
    sample_offset: u64,
    /// Sample index at which the first bit of the current byte was clocked in.
    byte_start: u64,
    /// Sample rate in Hz (kept for timing calculations).
    sample_rate_hz: u32,
}

/// The abstract state of an [`I2cDecoder`].
pub struct I2cModel {
    pub sda_bit: u8,
    pub scl_bit: u8,
    pub state: I2cState,
    pub prev_sda: bool,
    pub prev_scl: bool,
    /// Index that the next sample will get.
    pub sample_offset: u64,
    pub byte_start: u64,
    pub sample_rate_hz: u32,
}

impl I2cModel {
    /// The state machine keeps at most seven collected bits.
    pub open spec fn wf(self) -> bool {
        match self.state {
            I2cState::CollectBits { bit_count, .. } => bit_count < 8,
            _ => true,
        }
    }

    /// The decoder can look at its two channels in a sample byte.
    pub open spec fn channels_valid(self) -> bool {
        self.sda_bit < 8 && self.scl_bit < 8
    }

    /// One decoding step: the next sample (with index `self.sample_offset`)
    /// and the frame, if any, that it completes.
    pub open spec fn step(self, sample: u8) -> (I2cModel, Option<I2cFrame>) {
        let index = self.sample_offset;
        let sda = channel_high(sample, self.sda_bit);
        let scl = channel_high(sample, self.scl_bit);
        let sda_fell = self.prev_sda && !sda;
        let sda_rose = !self.prev_sda && sda;
        let scl_rose = !self.prev_scl && scl;
        let next = I2cModel {
            prev_sda: sda,
            prev_scl: scl,
            sample_offset: (index + 1) as u64,
            ..self
        };
        if sda_fell && scl {
            let frame = match self.state {
                I2cState::Idle => I2cFrame::Start { sample_index: index },
                _ => I2cFrame::RepeatedStart { sample_index: index },
            };
            (
                I2cModel { state: I2cState::CollectBits { byte_val: 0, bit_count: 0 }, ..next },
                Some(frame),
            )
        } else if sda_rose && scl {
            (I2cModel { state: I2cState::Idle, ..next }, Some(I2cFrame::Stop { sample_index: index }))
        } else if scl_rose {
            match self.state {
                I2cState::CollectBits { byte_val, bit_count } => {
                    let new_val = ((byte_val << 1u8) | (if sda { 1u8 } else { 0u8 })) as u8;
                    // the first bit of a byte marks where the byte starts
                    let started = if bit_count == 0 {
                        I2cModel { byte_start: index, ..next }
                    } else {
                        next
                    };
                    if bit_count + 1 == 8 {
                        (I2cModel { state: I2cState::WaitAck { byte_val: new_val }, ..started }, None)
                    } else {
                        (
                            I2cModel {
                                state: I2cState::CollectBits {
                                    byte_val: new_val,
                                    bit_count: (bit_count + 1) as u8,
                                },
                                ..started
                            },
                            None,
                        )
                    }
                },
                I2cState::WaitAck { byte_val } => (
                    I2cModel { state: I2cState::CollectBits { byte_val: 0, bit_count: 0 }, ..next },
                    Some(I2cFrame::Data { value: byte_val, ack: !sda, sample_index: self.byte_start }),
                ),
                I2cState::Idle => (next, None),
            }
        } else {
            (next, None)
        }
    }

    /// Decoding a whole chunk of samples: the state after the last one and
    /// every frame completed on the way, in order.
    pub open spec fn run(self, samples: Seq<u8>) -> (I2cModel, Seq<I2cFrame>)
        decreases samples.len(),
    {
        if samples.len() == 0 {
            (self, Seq::empty())
        } else {
            let (mid, frames) = self.run(samples.drop_last());
            let (last, out) = mid.step(samples.last());
            (last, frames + option_seq(out))
        }
    }
}

impl I2cDecoder {
    #[verifier::type_invariant]
    closed spec fn inv(self) -> bool {
        self.view().wf()
    }

    /// The abstract state of the decoder.
    pub closed spec fn view(self) -> I2cModel {
        I2cModel {
            sda_bit: self.sda_bit,
            scl_bit: self.scl_bit,
            state: self.state,
            prev_sda: self.prev_sda,
            prev_scl: self.prev_scl,
            sample_offset: self.sample_offset,
            byte_start: self.byte_start,
            sample_rate_hz: self.sample_rate_hz,
        }
    }

    /// Create a new decoder.
    ///
    /// - `sda_channel`: which bit in each sample byte represents SDA
    /// - `scl_channel`: which bit in each sample byte represents SCL
    /// - `sample_rate_hz`: the capture sample rate (used for timing calculations)
    pub fn new(sda_channel: u8, scl_channel: u8, sample_rate_hz: u32) -> (d: Self)
        ensures
            d.view() == (I2cModel {
                sda_bit: sda_channel,
                scl_bit: scl_channel,
                state: I2cState::Idle,
                prev_sda: true,
                prev_scl: true,
                sample_offset: 0,
                byte_start: 0,
                sample_rate_hz,
            }),
    {
        I2cDecoder {
            sda_bit: sda_channel,
            scl_bit: scl_channel,
            state: I2cState::Idle,
            prev_sda: true,
            prev_scl: true,
            sample_offset: 0,
            byte_start: 0,
            sample_rate_hz,
        }
    }

    /// Reset decoder state (e.g. after a bus error).
    pub fn reset(&mut self)
        ensures
            final(self).view() == (I2cModel {
                state: I2cState::Idle,
                prev_sda: true,
                prev_scl: true,
                ..old(self).view()
            }),
    {
        self.state = I2cState::Idle;
        self.prev_sda = true;
        self.prev_scl = true;
    }

    /// Process a single sample (with index `index`) and optionally return a
    /// decoded frame.
    fn process_sample(&mut self, sample: u8, index: u64) -> (r: Option<I2cFrame>)
        requires
            old(self).view().channels_valid(),
            index < u64::MAX,
        ensures
            ({
                let (m, out) = (I2cModel { sample_offset: index, ..old(self).view() }).step(sample);
                &&& final(self).view() == (I2cModel { sample_offset: old(self).view().sample_offset, ..m })
                &&& r == out
            }),
    {
        proof {
            use_type_invariant(&*self);
        }
        let sda = (sample >> self.sda_bit) & 1 == 1;
        let scl = (sample >> self.scl_bit) & 1 == 1;

        let sda_fell = self.prev_sda && !sda;
        let sda_rose = !self.prev_sda && sda;
        let scl_rose = !self.prev_scl && scl;

        self.prev_sda = sda;
        self.prev_scl = scl;

        // START: SDA falls while SCL is high.
        if sda_fell && scl {
            let frame = match self.state {
                I2cState::Idle => I2cFrame::Start { sample_index: index },
                _ => I2cFrame::RepeatedStart { sample_index: index },
            };
            self.state = I2cState::CollectBits { byte_val: 0, bit_count: 0 };
            return Some(frame);
        }
        // STOP: SDA rises while SCL is high.
        if sda_rose && scl {
            self.state = I2cState::Idle;
            return Some(I2cFrame::Stop { sample_index: index });
        }
        // Data sampling happens on SCL rising edge.
        if scl_rose {
            match self.state {
                I2cState::CollectBits { byte_val, bit_count } => {
                    // MSB first; the first bit marks where the byte starts.
                    if bit_count == 0 {
                        self.byte_start = index;
                    }
                    let new_val = (byte_val << 1u8) | (if sda { 1u8 } else { 0u8 });
                    let new_count = bit_count + 1;
                    if new_count == 8 {
                        self.state = I2cState::WaitAck { byte_val: new_val };
                    } else {
                        self.state = I2cState::CollectBits { byte_val: new_val, bit_count: new_count };
                    }
                },
                I2cState::WaitAck { byte_val } => {
                    let ack = !sda;  // ACK = SDA low
                    self.state = I2cState::CollectBits { byte_val: 0, bit_count: 0 };
                    let frame = I2cFrame::Data { value: byte_val, ack, sample_index: self.byte_start };
                    return Some(frame);
                },
                I2cState::Idle => {},
            }
        }
        None
    }

    /// Whether [`I2cDecoder::feed`] can take `n` more samples: its channels
    /// are bits of a sample byte (when there are samples at all), and the
    /// sample counter does not overflow.
    pub fn can_feed(&self, n: usize) -> (b: bool)
        ensures
            b == ((n > 0 ==> self.view().channels_valid()) && self.view().sample_offset + n <= u64::MAX),
    {
        (n == 0 || (self.sda_bit < 8 && self.scl_bit < 8)) && (n as u64) <= u64::MAX - self.sample_offset
    }

    /// Feed a chunk of raw samples and return the decoded frames.
    ///
    /// State is preserved across calls — a byte or condition can span chunks.
    pub fn feed(&mut self, samples: &[u8]) -> (it: I2cIter)
        requires
            samples@.len() > 0 ==> old(self).view().channels_valid(),
            old(self).view().sample_offset + samples@.len() <= u64::MAX,
        ensures
            (final(self).view(), it.remaining()) == old(self).view().run(samples@),
    {
        let ghost start = self.view();
        let base = self.sample_offset;
        let mut frames: Vec<I2cFrame> = Vec::new();
        let mut pos: usize = 0;
        while pos < samples.len()
            invariant
                0 <= pos <= samples@.len(),
                start.sample_offset == base,
                base + samples@.len() <= u64::MAX,
                samples@.len() > 0 ==> start.channels_valid(),
                self.view().sample_offset == base,
                ({
                    let (m, fs) = start.run(samples@.take(pos as int));
                    &&& (I2cModel { sample_offset: (base + pos) as u64, ..self.view() }) == m
                    &&& frames@ == fs
                }),
            decreases samples@.len() - pos,
        {
            proof {
                lemma_i2c_run_keeps_channels(start, samples@.take(pos as int));
                assert(samples@.take(pos + 1).drop_last() =~= samples@.take(pos as int));
            }
            let idx = base + pos as u64;
            let sample = samples[pos];
            pos += 1;
            if let Some(frame) = self.process_sample(sample, idx) {
                frames.push(frame);
            }
            proof {
                let (m, fs) = start.run(samples@.take(pos as int));
                assert(frames@ =~= fs);
            }
        }
        proof {
            assert(samples@.take(pos as int) =~= samples@);
            use_type_invariant(&*self);
        }
        self.sample_offset = base + samples.len() as u64;
        I2cIter { frames, pos: 0 }
    }
}

/// Decoding leaves the channel assignment untouched and advances the sample
/// counter by the length of the chunk.
pub proof fn lemma_i2c_run_keeps_channels(m: I2cModel, samples: Seq<u8>)
    ensures
        m.run(samples).0.sda_bit == m.sda_bit,
        m.run(samples).0.scl_bit == m.scl_bit,
        m.run(samples).0.sample_rate_hz == m.sample_rate_hz,
        m.sample_offset + samples.len() <= u64::MAX ==> m.run(samples).0.sample_offset
            == m.sample_offset + samples.len(),
        m.wf() ==> m.run(samples).0.wf(),
    decreases samples.len(),
{
    if samples.len() > 0 {
        lemma_i2c_run_keeps_channels(m, samples.drop_last());
    }
}

/// Decoding is insensitive to how the sample stream is cut into chunks:
/// feeding `a` and then `b` leaves the decoder in the same state, and yields
/// the same frames in the same order, as feeding `a + b` at once.
pub proof fn lemma_i2c_chunks(m: I2cModel, a: Seq<u8>, b: Seq<u8>)
    ensures
        ({
            let (ma, fa) = m.run(a);
            let (mb, fb) = ma.run(b);
            m.run(a + b) == (mb, fa + fb)
        }),
    decreases b.len(),
{
    if b.len() == 0 {
        assert(a + b =~= a);
        let (ma, fa) = m.run(a);
        assert(fa + Seq::<I2cFrame>::empty() =~= fa);
    } else {
        lemma_i2c_chunks(m, a, b.drop_last());
        assert((a + b).drop_last() =~= a + b.drop_last());
        assert((a + b).last() == b.last());
        let (ma, fa) = m.run(a);
        let (mb0, fb0) = ma.run(b.drop_last());
        let (mb, out) = mb0.step(b.last());
        assert(fa + (fb0 + option_seq(out)) =~= (fa + fb0) + option_seq(out));
    }
}

/// A transaction is open: a START or repeated START has been seen since the
/// last STOP (or since the decoder was created or reset).
pub open spec fn in_transaction(m: I2cModel) -> bool {
    match m.state {
        I2cState::Idle => false,
        _ => true,
    }
}

/// Whether a transaction is open after `frames`, when `open` says whether one
/// was open before them.
pub open spec fn open_after(open: bool, frames: Seq<I2cFrame>) -> bool
    decreases frames.len(),
{
    if frames.len() == 0 {
        open
    } else {
        match frames.last() {
            I2cFrame::Start { .. } => true,
            I2cFrame::RepeatedStart { .. } => true,
            I2cFrame::Stop { .. } => false,
            I2cFrame::Data { .. } => open_after(open, frames.drop_last()),
        }
    }
}

/// A frame fits the transaction state before it: a plain START only when no
/// transaction is open, a repeated START or a data byte only inside one.
pub open spec fn frame_fits(open: bool, frame: I2cFrame) -> bool {
    match frame {
        I2cFrame::Start { .. } => !open,
        I2cFrame::RepeatedStart { .. } => open,
        I2cFrame::Data { .. } => open,
        I2cFrame::Stop { .. } => true,
    }
}

/// The decoder's state tracks the transaction: its state is not idle after
/// decoding exactly when the last START-type frame came after the last STOP
/// (or, with neither, when it was not idle before). And every frame fits
/// the transaction state before it: a START is a plain START exactly when no
/// transaction is open, and repeated STARTs and data bytes come only inside
/// one.
pub proof fn lemma_i2c_start_kinds(m: I2cModel, samples: Seq<u8>)
    ensures
        in_transaction(m.run(samples).0) == open_after(in_transaction(m), m.run(samples).1),
        forall|k: int|
            0 <= k < m.run(samples).1.len() ==> frame_fits(
                open_after(in_transaction(m), m.run(samples).1.take(k)),
                #[trigger] m.run(samples).1[k],
            ),
    decreases samples.len(),
{
    if samples.len() > 0 {
        lemma_i2c_start_kinds(m, samples.drop_last());
        let o = in_transaction(m);
        let (mid, f) = m.run(samples.drop_last());
        let (last, out) = mid.step(samples.last());
        let g = f + option_seq(out);
        assert(m.run(samples) == (last, g));
        match out {
            None => {
                assert(g =~= f);
            },
            Some(x) => {
                assert(option_seq(out) =~= seq![x]);
                assert(g.drop_last() =~= f);
                assert(g.last() == x);
                assert forall|k: int| 0 <= k < g.len() implies frame_fits(open_after(o, g.take(k)), #[trigger] g[k]) by {
                    if k < f.len() {
                        assert(g.take(k) =~= f.take(k));
                        assert(g[k] == f[k]);
                    } else {
                        assert(g.take(k) =~= f);
                    }
                }
            },
        }
    }
}

/// No STOP among the frames strictly between `j` and `n`.
pub open spec fn no_stop_between(frames: Seq<I2cFrame>, j: int, n: int) -> bool {
    forall|i: int| j < i < n ==> !(#[trigger] frames[i] is Stop)
}

/// Among the first `n` frames there is a plain START with no STOP after it.
pub open spec fn start_unclosed(frames: Seq<I2cFrame>, n: int) -> bool {
    exists|j: int| 0 <= j < n && frames[j] is Start && #[trigger] no_stop_between(frames, j, n)
}

proof fn lemma_unclosed_extend(f: Seq<I2cFrame>, k: int)
    requires
        0 <= k < f.len(),
        start_unclosed(f, k),
        !(f[k] is Stop),
    ensures
        start_unclosed(f, k + 1),
{
    let j = choose|j: int| 0 <= j < k && f[j] is Start && #[trigger] no_stop_between(f, j, k);
    assert(no_stop_between(f, j, k + 1));
}

proof fn lemma_unclosed_shrink(f: Seq<I2cFrame>, k: int)
    requires
        0 <= k < f.len(),
        start_unclosed(f, k + 1),
        !(f[k] is Start),
    ensures
        start_unclosed(f, k),
{
    let j = choose|j: int| 0 <= j < k + 1 && f[j] is Start && #[trigger] no_stop_between(f, j, k + 1);
    assert(j < k);
    assert(no_stop_between(f, j, k));
}

proof fn lemma_unclosed_stop(f: Seq<I2cFrame>, k: int)
    requires
        0 <= k < f.len(),
        f[k] is Stop,
    ensures
        !start_unclosed(f, k + 1),
{
    if start_unclosed(f, k + 1) {
        let j = choose|j: int| 0 <= j < k + 1 && f[j] is Start && #[trigger] no_stop_between(f, j, k + 1);
        assert(j < k);
        assert(!(f[k] is Stop));
    }
}

proof fn lemma_unclosed_start(f: Seq<I2cFrame>, k: int)
    requires
        0 <= k < f.len(),
        f[k] is Start,
    ensures
        start_unclosed(f, k + 1),
{
    assert(no_stop_between(f, k, k + 1));
}

/// Every one of the first `n` frames fits the transaction state before it,
/// counted from an idle bus.
pub open spec fn fits_from_idle(f: Seq<I2cFrame>, n: int) -> bool {
    forall|k: int|
        #![trigger frame_fits(open_after(false, f.take(k)), f[k])]
        0 <= k < n ==> frame_fits(open_after(false, f.take(k)), f[k])
}

proof fn lemma_open_means_start_unclosed(f: Seq<I2cFrame>, n: int)
    requires
        0 <= n <= f.len(),
        fits_from_idle(f, n),
    ensures
        open_after(false, f.take(n)) == start_unclosed(f, n),
    decreases n,
{
    if n > 0 {
        let k = n - 1;
        lemma_open_means_start_unclosed(f, k);
        assert(f.take(n).drop_last() =~= f.take(k));
        assert(f.take(n).last() == f[k]);
        assert(frame_fits(open_after(false, f.take(k)), f[k]));
        match f[k] {
            I2cFrame::Start { .. } => {
                lemma_unclosed_start(f, k);
            },
            I2cFrame::RepeatedStart { .. } => {
                lemma_unclosed_extend(f, k);
            },
            I2cFrame::Stop { .. } => {
                lemma_unclosed_stop(f, k);
            },
            I2cFrame::Data { .. } => {
                if start_unclosed(f, n) {
                    lemma_unclosed_shrink(f, k);
                }
                if start_unclosed(f, k) {
                    lemma_unclosed_extend(f, k);
                }
            },
        }
    }
}

/// From an idle bus (a new or reset decoder), frames come in order: every
/// data byte and repeated START follows a plain START with no STOP between
/// them, and a plain START never follows a START or repeated START without a
/// STOP between them. The decoder's state is not idle exactly when a plain
/// START came with no STOP after it.
pub proof fn lemma_i2c_frame_order(m: I2cModel, samples: Seq<u8>)
    requires
        m.state == I2cState::Idle,
    ensures
        ({
            let f = m.run(samples).1;
            &&& forall|k: int|
                0 <= k < f.len() && (f[k] is Data || f[k] is RepeatedStart) ==> #[trigger] start_unclosed(f, k)
            &&& forall|k: int| 0 <= k < f.len() && f[k] is Start ==> !#[trigger] start_unclosed(f, k)
            &&& in_transaction(m.run(samples).0) == start_unclosed(f, f.len() as int)
        }),
{
    lemma_i2c_start_kinds(m, samples);
    let f = m.run(samples).1;
    assert(fits_from_idle(f, f.len() as int));
    assert forall|k: int| 0 <= k <= f.len() implies #[trigger] start_unclosed(f, k) == open_after(false, f.take(k)) by {
        lemma_open_means_start_unclosed(f, k);
    }
    assert(f.take(f.len() as int) =~= f);
    assert(start_unclosed(f, f.len() as int) == open_after(false, f.take(f.len() as int)));
    assert forall|k: int| 0 <= k < f.len() && (f[k] is Data || f[k] is RepeatedStart) implies #[trigger] start_unclosed(f, k) by {
        assert(frame_fits(open_after(false, f.take(k)), f[k]));
    }
    assert forall|k: int| 0 <= k < f.len() && f[k] is Start implies !#[trigger] start_unclosed(f, k) by {
        assert(frame_fits(open_after(false, f.take(k)), f[k]));
    }
}

/// The sample completes a START condition for decoder state `m`: SDA falls
/// while SCL is high.
pub open spec fn is_start_condition(m: I2cModel, sample: u8) -> bool {
    m.prev_sda && !channel_high(sample, m.sda_bit) && channel_high(sample, m.scl_bit)
}

/// The sample completes a STOP condition for decoder state `m`: SDA rises
/// while SCL is high.
pub open spec fn is_stop_condition(m: I2cModel, sample: u8) -> bool {
    !m.prev_sda && channel_high(sample, m.sda_bit) && channel_high(sample, m.scl_bit)
}

/// The sample clocks a bit in for decoder state `m`: SCL rises inside a
/// transaction, and the sample is neither a START nor a STOP.
pub open spec fn clocks_bit(m: I2cModel, sample: u8) -> bool {
    &&& !is_start_condition(m, sample)
    &&& !is_stop_condition(m, sample)
    &&& !m.prev_scl && channel_high(sample, m.scl_bit)
    &&& in_transaction(m)
}

/// The SDA levels clocked in since the last START (or repeated START) while
/// decoding `samples` from `m`; empty after a STOP.
pub open spec fn clocked_bits(m: I2cModel, samples: Seq<u8>) -> Seq<bool>
    decreases samples.len(),
{
    if samples.len() == 0 {
        Seq::empty()
    } else {
        let prev = clocked_bits(m, samples.drop_last());
        let mid = m.run(samples.drop_last()).0;
        let x = samples.last();
        if is_start_condition(mid, x) || is_stop_condition(mid, x) {
            Seq::empty()
        } else if clocks_bit(mid, x) {
            prev.push(channel_high(x, mid.sda_bit))
        } else {
            prev
        }
    }
}

/// The byte whose bits, most significant first, are `bits` (the last eight
/// of them, when there are more).
pub open spec fn msb_value(bits: Seq<bool>) -> u8
    decreases bits.len(),
{
    if bits.len() == 0 {
        0
    } else {
        ((msb_value(bits.drop_last()) << 1u8) | (if bits.last() { 1u8 } else { 0u8 })) as u8
    }
}

/// The decoder's state after decoding from an idle bus, given the bits
/// clocked in since the last START: the bits of the byte in progress (every
/// ninth bit is an acknowledge bit that ends a byte).
pub open spec fn state_for_bits(open: bool, h: Seq<bool>) -> I2cState {
    let n = h.len();
    let q = n % 9;
    if !open {
        I2cState::Idle
    } else if q == 8 {
        I2cState::WaitAck { byte_val: msb_value(h.subrange(n - 8, n as int)) }
    } else {
        I2cState::CollectBits { byte_val: msb_value(h.subrange(n - q, n as int)), bit_count: q as u8 }
    }
}

proof fn lemma_msb_push(bits: Seq<bool>, b: bool)
    ensures
        msb_value(bits.push(b)) == ((msb_value(bits) << 1u8) | (if b { 1u8 } else { 0u8 })) as u8,
{
    assert(bits.push(b).drop_last() =~= bits);
}

proof fn lemma_mod9_step(n: int, q: int)
    requires
        n >= 0,
        q == n % 9,
        q < 8,
    ensures
        (n + 1) % 9 == q + 1,
        n + 1 - (q + 1) == n - q,
{
    lemma_fundamental_div_mod(n, 9);
    lemma_fundamental_div_mod_converse(n + 1, 9, n / 9, q + 1);
}

proof fn lemma_mod9_wrap(n: int)
    requires
        n >= 0,
        n % 9 == 8,
    ensures
        (n + 1) % 9 == 0,
{
    lemma_fundamental_div_mod(n, 9);
    lemma_fundamental_div_mod_converse(n + 1, 9, n / 9 + 1, 0);
}

/// From an idle bus, the decoder's state is determined by the bits clocked in
/// since the last START: idle with no bits outside a transaction, and inside
/// one the bits of the byte in progress.
#[verifier::spinoff_prover]
#[verifier::rlimit(40)]
pub proof fn lemma_i2c_state_from_bits(m: I2cModel, samples: Seq<u8>)
    requires
        m.state == I2cState::Idle,
    ensures
        ({
            let r = m.run(samples).0;
            let h = clocked_bits(m, samples);
            &&& !in_transaction(r) ==> h.len() == 0
            &&& r.state == state_for_bits(in_transaction(r), h)
        }),
    decreases samples.len(),
{
    if samples.len() > 0 {
        let init = samples.drop_last();
        lemma_i2c_state_from_bits(m, init);
        let mid = m.run(init).0;
        let x = samples.last();
        let h = clocked_bits(m, init);
        let n = h.len() as int;
        let q = n % 9;
        let sda = channel_high(x, mid.sda_bit);
        if is_start_condition(mid, x) || is_stop_condition(mid, x) {
            assert(Seq::<bool>::empty().subrange(0, 0) =~= Seq::<bool>::empty());
        } else if clocks_bit(mid, x) {
            let h2 = h.push(sda);
            if q < 8 {
                lemma_mod9_step(n, q);
                assert(h2.subrange(n + 1 - (q + 1), n + 1) =~= h.subrange(n - q, n).push(sda));
                lemma_msb_push(h.subrange(n - q, n), sda);
                if q == 7 {
                    assert(n + 1 - 8 == n - q);
                }
            } else {
                lemma_mod9_wrap(n);
                assert(h2.subrange(n + 1, n + 1) =~= Seq::<bool>::empty());
            }
        } else {
        }
    }
}

/// What each sample yields, from an idle bus and for any sample stream. A
/// START condition yields a repeated START when a plain START came earlier
/// with no STOP since, and a plain START otherwise; a STOP condition yields a
/// STOP. Every ninth bit clocked in since a START ends a byte: the sample that
/// clocks it in yields the data frame of the eight bits before it, most
/// significant first, acknowledged when SDA is low on that ninth bit; the
/// samples clocking in the other bits yield nothing, and so does every sample
/// that is neither a clock edge, a START nor a STOP.
pub proof fn lemma_i2c_data_bytes(m: I2cModel, samples: Seq<u8>)
    requires
        m.state == I2cState::Idle,
        samples.len() > 0,
    ensures
        ({
            let mid = m.run(samples.drop_last()).0;
            let x = samples.last();
            let out = mid.step(x).1;
            let h = clocked_bits(m, samples);
            let n = h.len() as int;
            &&& m.run(samples).1 == m.run(samples.drop_last()).1 + option_seq(out)
            &&& clocks_bit(mid, x) && n % 9 == 0 ==> n >= 9 && out == Some(I2cFrame::Data {
                value: msb_value(h.subrange(n - 9, n - 1)),
                ack: !h[n - 1],
                sample_index: mid.byte_start,
            })
            &&& clocks_bit(mid, x) && n % 9 != 0 ==> out is None
            &&& !clocks_bit(mid, x) && !is_start_condition(mid, x) && !is_stop_condition(mid, x) ==> out is None
            &&& is_start_condition(mid, x) ==> out == Some(
                if start_unclosed(m.run(samples.drop_last()).1, m.run(samples.drop_last()).1.len() as int) {
                    I2cFrame::RepeatedStart { sample_index: mid.sample_offset }
                } else {
                    I2cFrame::Start { sample_index: mid.sample_offset }
                },
            )
            &&& is_stop_condition(mid, x) ==> out == Some(I2cFrame::Stop { sample_index: mid.sample_offset })
        }),
{
    lemma_i2c_frame_order(m, samples.drop_last());
    let init = samples.drop_last();
    lemma_i2c_state_from_bits(m, init);
    let mid = m.run(init).0;
    let x = samples.last();
    let h = clocked_bits(m, init);
    let n = h.len() as int;
    let q = n % 9;
    if clocks_bit(mid, x) {
        let h2 = clocked_bits(m, samples);
        assert(h2 == h.push(channel_high(x, mid.sda_bit)));
        if q < 8 {
            lemma_mod9_step(n, q);
        } else {
            lemma_mod9_wrap(n);
            assert(h2.subrange(n + 1 - 9, n) =~= h.subrange(n - 8, n));
        }
    }
}

/// Some bit of the byte in progress has been clocked in.
pub open spec fn i2c_byte_started(state: I2cState) -> bool {
    match state {
        I2cState::Idle => false,
        I2cState::CollectBits { bit_count, .. } => bit_count > 0,
        I2cState::WaitAck { .. } => true,
    }
}

/// The byte in progress, if any, started before the next sample.
pub open spec fn i2c_started_before(m: I2cModel) -> bool {
    i2c_byte_started(m.state) ==> m.byte_start < m.sample_offset
}

/// `r` is `m` with every sample index that still matters moved `k` samples
/// later (where no bit of a byte has been clocked in yet, where that byte
/// will start is still open).
pub open spec fn i2c_shifted_from(r: I2cModel, m: I2cModel, k: nat) -> bool {
    &&& r.sda_bit == m.sda_bit
    &&& r.scl_bit == m.scl_bit
    &&& r.state == m.state
    &&& r.prev_sda == m.prev_sda
    &&& r.prev_scl == m.prev_scl
    &&& r.sample_rate_hz == m.sample_rate_hz
    &&& r.sample_offset == m.sample_offset + k
    &&& i2c_byte_started(m.state) ==> r.byte_start == m.byte_start + k
}

/// `f` stamped `k` samples later.
pub open spec fn i2c_frame_shifted(f: I2cFrame, k: nat) -> I2cFrame {
    match f {
        I2cFrame::Start { sample_index } => I2cFrame::Start { sample_index: (sample_index + k) as u64 },
        I2cFrame::RepeatedStart { sample_index } => I2cFrame::RepeatedStart {
            sample_index: (sample_index + k) as u64,
        },
        I2cFrame::Stop { sample_index } => I2cFrame::Stop { sample_index: (sample_index + k) as u64 },
        I2cFrame::Data { value, ack, sample_index } => I2cFrame::Data {
            value,
            ack,
            sample_index: (sample_index + k) as u64,
        },
    }
}

proof fn lemma_i2c_step_shifted(r: I2cModel, m: I2cModel, k: nat, sample: u8)
    requires
        i2c_shifted_from(r, m, k),
        i2c_started_before(m),
        m.sample_offset + k + 1 <= u64::MAX,
    ensures
        i2c_started_before(m.step(sample).0),
        i2c_shifted_from(r.step(sample).0, m.step(sample).0, k),
        r.step(sample).1 == match m.step(sample).1 {
            Some(f) => Some(i2c_frame_shifted(f, k)),
            None => None,
        },
{
}

/// Decoding is the same wherever in the stream it happens: a decoder whose
/// sample indices are all `k` later decodes the same samples into the same
/// frames, stamped `k` later.
pub proof fn lemma_i2c_run_shifted(r: I2cModel, m: I2cModel, k: nat, samples: Seq<u8>)
    requires
        i2c_shifted_from(r, m, k),
        i2c_started_before(m),
        m.sample_offset + k + samples.len() <= u64::MAX,
    ensures
        i2c_started_before(m.run(samples).0),
        i2c_shifted_from(r.run(samples).0, m.run(samples).0, k),
        r.run(samples).1 == m.run(samples).1.map_values(|f: I2cFrame| i2c_frame_shifted(f, k)),
    decreases samples.len(),
{
    if samples.len() > 0 {
        lemma_i2c_run_shifted(r, m, k, samples.drop_last());
        lemma_i2c_run_keeps_channels(m, samples.drop_last());
        let (mid, frames) = m.run(samples.drop_last());
        let rmid = r.run(samples.drop_last()).0;
        lemma_i2c_step_shifted(rmid, mid, k, samples.last());
        let out = mid.step(samples.last()).1;
        let g = |f: I2cFrame| i2c_frame_shifted(f, k);
        assert((frames + option_seq(out)).map_values(g) =~= frames.map_values(g) + option_seq(
            match out {
                Some(f) => Some(i2c_frame_shifted(f, k)),
                None => None,
            },
        ));
    }
}

/// A reset decoder that has taken `m.sample_offset` samples decodes like a
/// freshly created one on the same channels, its frames stamped
/// `m.sample_offset` samples later: a byte in progress is dropped and the
/// bus is taken as idle.
pub proof fn lemma_i2c_reset_is_fresh(m: I2cModel, samples: Seq<u8>)
    requires
        m.sample_offset + samples.len() <= u64::MAX,
    ensures
        ({
            let reset = I2cModel { state: I2cState::Idle, prev_sda: true, prev_scl: true, ..m };
            let fresh = I2cModel {
                sda_bit: m.sda_bit,
                scl_bit: m.scl_bit,
                state: I2cState::Idle,
                prev_sda: true,
                prev_scl: true,
                sample_offset: 0,
                byte_start: 0,
                sample_rate_hz: m.sample_rate_hz,
            };
            &&& reset.run(samples).1 == fresh.run(samples).1.map_values(
                |f: I2cFrame| i2c_frame_shifted(f, m.sample_offset as nat),
            )
            &&& i2c_shifted_from(reset.run(samples).0, fresh.run(samples).0, m.sample_offset as nat)
        }),
{
    let reset = I2cModel { state: I2cState::Idle, prev_sda: true, prev_scl: true, ..m };
    let fresh = I2cModel {
        sda_bit: m.sda_bit,
        scl_bit: m.scl_bit,
        state: I2cState::Idle,
        prev_sda: true,
        prev_scl: true,
        sample_offset: 0,
        byte_start: 0,
        sample_rate_hz: m.sample_rate_hz,
    };
    lemma_i2c_run_shifted(reset, fresh, m.sample_offset as nat, samples);
}

/// The frames decoded by one [`I2cDecoder::feed`] call.
pub struct I2cIter {
    frames: Vec<I2cFrame>,
    pos: usize,
}

impl I2cIter {
    #[verifier::type_invariant]
    closed spec fn inv(self) -> bool {
        self.pos <= self.frames@.len()
    }

    /// The frames not yet handed out, in order.
    pub closed spec fn remaining(self) -> Seq<I2cFrame> {
        self.frames@.skip(self.pos as int)
    }

    /// The next decoded frame, if any.
    pub fn next(&mut self) -> (r: Option<I2cFrame>)
        ensures
            old(self).remaining().len() == 0 ==> r is None && final(self).remaining() == old(
                self,
            ).remaining(),
            old(self).remaining().len() > 0 ==> r == Some(old(self).remaining()[0])
                && final(self).remaining() == old(self).remaining().drop_first(),
    {
        proof {
            use_type_invariant(&*self);
        }
        if self.pos < self.frames.len() {
            let f = self.frames[self.pos];
            self.pos += 1;
            proof {
                assert(self.frames@.skip(self.pos as int) =~= old(self).remaining().drop_first());
            }
            Some(f)
        } else {
            None
        }
    }

    /// All remaining frames, in order.
    pub fn collect(self) -> (v: Vec<I2cFrame>)
        ensures
            v@ == self.remaining(),
    {
        proof {
            use_type_invariant(&self);
        }
        let mut out: Vec<I2cFrame> = Vec::new();
        let mut i = self.pos;
        while i < self.frames.len()
            invariant
                self.pos <= i <= self.frames@.len(),
                out@ =~= self.frames@.subrange(self.pos as int, i as int),
            decreases self.frames@.len() - i,
        {
            out.push(self.frames[i]);
            i += 1;
        }
        proof {
            assert(out@ =~= self.remaining());
        }
        out
    }
}


// ---------------------------------------------------------------------------
// UART Decoder
// ---------------------------------------------------------------------------

/// A decoded UART byte.
#[derive(Debug, Clone, Copy, PartialEq, Eq, Structural)]
pub struct UartByte {
    /// The decoded byte value.
    pub value: u8,
    /// Sample index of the start bit.
    pub sample_index: u64,
    /// `true` if the stop bit was not high (framing error).
    pub framing_error: bool,
}

impl UartByte {
    /// The display text of the byte: `[0xVV @i]`, or `[0xVV FE @i]` when the
    /// stop bit was missing, with `VV` in upper-case hexadecimal and `i` in
    /// decimal.
    pub open spec fn text(self) -> Seq<char> {
        seq!['[', '0', 'x'] + hex2(self.value, true) + (if self.framing_error {
            seq![' ', 'F', 'E', ' ', '@']
        } else {
            seq![' ', '@']
        }) + decimal(self.sample_index as nat) + seq![']']
    }

    /// The display text of the byte (see [`UartByte::text`]).
    pub fn to_string(&self) -> (s: String)
        ensures
            s@ == self.text(),
    {
        proof {
            reveal_strlit("[0x");
            reveal_strlit(" FE @");
            reveal_strlit(" @");
            reveal_strlit("]");
        }
        let mut s = String::new();
        s.append("[0x");
        push_hex2(&mut s, self.value, true);
        if self.framing_error {
            s.append(" FE @");
        } else {
            s.append(" @");
        }
        push_decimal(&mut s, self.sample_index);
        s.append("]");
        proof {
            assert(s@ =~= self.text());
        }
        s
    }
}

/// Internal state of the UART decoder.
#[derive(Debug, Clone, Copy, PartialEq, Eq, Structural)]
pub enum UartState {
    /// Waiting for start bit (high → low transition).
    Idle,
    /// Inside a byte: counting samples to the midpoint of each bit.
    Receiving {
        /// Accumulated byte value (LSB first).
        byte_val: u8,
        /// Number of data bits collected so far.
        bit_count: u8,
        /// Samples remaining until we sample the next bit.
        samples_to_next: u32,
        /// Sample index of the start bit.
        start_index: u64,
    },
    /// Waiting to sample the stop bit.
    WaitStop { byte_val: u8, samples_to_next: u32, start_index: u64 },
}

/// Stateful UART decoder (8N1).
///
/// Detects start bits, samples 8 data bits at the configured baud rate,
/// and checks the stop bit. Only supports 8N1 framing.
pub struct UartDecoder {
    rx_bit: u8,
    samples_per_bit: u32,
    state: UartState,
    prev_rx: bool,
    sample_offset: u64,
}

/// The abstract state of a [`UartDecoder`].
pub struct UartModel {
    pub rx_bit: u8,
    pub samples_per_bit: u32,
    pub state: UartState,
    pub prev_rx: bool,
    /// Index that the next sample will get.
    pub sample_offset: u64,
}

impl UartModel {
    /// The state machine keeps at most seven collected bits.
    pub open spec fn wf(self) -> bool {
        match self.state {
            UartState::Receiving { bit_count, .. } => bit_count < 8,
            _ => true,
        }
    }

    /// The decoder can look at its channel in a sample byte, and one and a
    /// half bit times, in samples, fit the bit-timing counter.
    pub open spec fn decodable(self) -> bool {
        &&& self.rx_bit < 8
        &&& self.samples_per_bit / 2 + self.samples_per_bit <= u32::MAX
    }

    /// One decoding step: the next sample (with index `self.sample_offset`)
    /// and the byte, if any, that it completes.
    pub open spec fn step(self, sample: u8) -> (UartModel, Option<UartByte>) {
        let index = self.sample_offset;
        let rx = channel_high(sample, self.rx_bit);
        let rx_fell = self.prev_rx && !rx;
        let next = UartModel { prev_rx: rx, sample_offset: (index + 1) as u64, ..self };
        let spb = self.samples_per_bit;
        match self.state {
            UartState::Idle => {
                if rx_fell {
                    (
                        UartModel {
                            state: UartState::Receiving {
                                byte_val: 0,
                                bit_count: 0,
                                samples_to_next: (spb / 2 + spb) as u32,
                                start_index: index,
                            },
                            ..next
                        },
                        None,
                    )
                } else {
                    (next, None)
                }
            },
            UartState::Receiving { byte_val, bit_count, samples_to_next, start_index } => {
                if samples_to_next > 1 {
                    (
                        UartModel {
                            state: UartState::Receiving {
                                byte_val,
                                bit_count,
                                samples_to_next: (samples_to_next - 1) as u32,
                                start_index,
                            },
                            ..next
                        },
                        None,
                    )
                } else {
                    let new_val = (byte_val | ((if rx { 1u8 } else { 0u8 }) << bit_count)) as u8;
                    if bit_count + 1 == 8 {
                        (
                            UartModel {
                                state: UartState::WaitStop {
                                    byte_val: new_val,
                                    samples_to_next: spb,
                                    start_index,
                                },
                                ..next
                            },
                            None,
                        )
                    } else {
                        (
                            UartModel {
                                state: UartState::Receiving {
                                    byte_val: new_val,
                                    bit_count: (bit_count + 1) as u8,
                                    samples_to_next: spb,
                                    start_index,
                                },
                                ..next
                            },
                            None,
                        )
                    }
                }
            },
            UartState::WaitStop { byte_val, samples_to_next, start_index } => {
                if samples_to_next > 1 {
                    (
                        UartModel {
                            state: UartState::WaitStop {
                                byte_val,
                                samples_to_next: (samples_to_next - 1) as u32,
                                start_index,
                            },
                            ..next
                        },
                        None,
                    )
                } else {
                    (
                        UartModel { state: UartState::Idle, ..next },
                        Some(UartByte { value: byte_val, sample_index: start_index, framing_error: !rx }),
                    )
                }
            },
        }
    }

    /// Decoding a whole chunk of samples: the state after the last one and
    /// every byte completed on the way, in order.
    pub open spec fn run(self, samples: Seq<u8>) -> (UartModel, Seq<UartByte>)
        decreases samples.len(),
    {
        if samples.len() == 0 {
            (self, Seq::empty())
        } else {
            let (mid, bytes) = self.run(samples.drop_last());
            let (last, out) = mid.step(samples.last());
            (last, bytes + option_seq(out))
        }
    }
}

impl UartDecoder {
    #[verifier::type_invariant]
    closed spec fn inv(self) -> bool {
        self.view().wf()
    }

    /// The abstract state of the decoder.
    pub closed spec fn view(self) -> UartModel {
        UartModel {
            rx_bit: self.rx_bit,
            samples_per_bit: self.samples_per_bit,
            state: self.state,
            prev_rx: self.prev_rx,
            sample_offset: self.sample_offset,
        }
    }

    /// Create a new UART decoder.
    ///
    /// - `rx_channel`: which bit in each sample byte represents the RX line
    /// - `sample_rate_hz`: the capture sample rate
    /// - `baud_rate`: the expected UART baud rate
    pub fn new(rx_channel: u8, sample_rate_hz: u32, baud_rate: u32) -> (d: Self)
        requires
            baud_rate > 0,
        ensures
            d.view() == (UartModel {
                rx_bit: rx_channel,
                samples_per_bit: sample_rate_hz / baud_rate,
                state: UartState::Idle,
                prev_rx: true,
                sample_offset: 0,
            }),
    {
        UartDecoder {
            rx_bit: rx_channel,
            samples_per_bit: sample_rate_hz / baud_rate,
            state: UartState::Idle,
            prev_rx: true,
            sample_offset: 0,
        }
    }

    /// Reset decoder state.
    pub fn reset(&mut self)
        ensures
            final(self).view() == (UartModel { state: UartState::Idle, prev_rx: true, ..old(self).view() }),
    {
        self.state = UartState::Idle;
        self.prev_rx = true;
    }

    /// Process a single sample (with index `index`).
    fn process_sample(&mut self, sample: u8, index: u64) -> (r: Option<UartByte>)
        requires
            old(self).view().decodable(),
            index < u64::MAX,
        ensures
            ({
                let (m, out) = (UartModel { sample_offset: index, ..old(self).view() }).step(sample);
                &&& final(self).view() == (UartModel { sample_offset: old(self).view().sample_offset, ..m })
                &&& r == out
            }),
    {
        proof {
            use_type_invariant(&*self);
        }
        let rx = (sample >> self.rx_bit) & 1 == 1;
        let rx_fell = self.prev_rx && !rx;
        self.prev_rx = rx;

        match self.state {
            UartState::Idle => {
                if rx_fell {
                    // Start bit detected. Skip to midpoint of first data bit:
                    // half a bit (to center of start bit) + one full bit.
                    let half_bit = self.samples_per_bit / 2;
                    self.state = UartState::Receiving {
                        byte_val: 0,
                        bit_count: 0,
                        samples_to_next: half_bit + self.samples_per_bit,
                        start_index: index,
                    };
                }
                None
            },
            UartState::Receiving { byte_val, bit_count, samples_to_next, start_index } => {
                if samples_to_next > 1 {
                    self.state = UartState::Receiving {
                        byte_val,
                        bit_count,
                        samples_to_next: samples_to_next - 1,
                        start_index,
                    };
                    return None;
                }
                // Sample this data bit (LSB first).
                let new_val = byte_val | ((if rx { 1u8 } else { 0u8 }) << bit_count);
                let new_count = bit_count + 1;
                if new_count == 8 {
                    // Wait for stop bit.
                    self.state = UartState::WaitStop {
                        byte_val: new_val,
                        samples_to_next: self.samples_per_bit,
                        start_index,
                    };
                } else {
                    self.state = UartState::Receiving {
                        byte_val: new_val,
                        bit_count: new_count,
                        samples_to_next: self.samples_per_bit,
                        start_index,
                    };
                }
                None
            },
            UartState::WaitStop { byte_val, samples_to_next, start_index } => {
                if samples_to_next > 1 {
                    self.state = UartState::WaitStop {
                        byte_val,
                        samples_to_next: samples_to_next - 1,
                        start_index,
                    };
                    return None;
                }
                // Sample stop bit.
                let framing_error = !rx;  // stop bit should be high
                self.state = UartState::Idle;
                Some(UartByte { value: byte_val, sample_index: start_index, framing_error })
            },
        }
    }

    /// Whether [`UartDecoder::feed`] can take `n` more samples: its channel
    /// is a bit of a sample byte and its bit timing fits the counter (when
    /// there are samples at all), and the sample counter does not overflow.
    pub fn can_feed(&self, n: usize) -> (b: bool)
        ensures
            b == ((n > 0 ==> self.view().decodable()) && self.view().sample_offset + n <= u64::MAX),
    {
        (n == 0 || (self.rx_bit < 8 && self.samples_per_bit / 2 <= u32::MAX - self.samples_per_bit))
            && (n as u64) <= u64::MAX - self.sample_offset
    }

    /// Feed a chunk of raw samples and return the decoded bytes.
    pub fn feed(&mut self, samples: &[u8]) -> (it: UartIter)
        requires
            samples@.len() > 0 ==> old(self).view().decodable(),
            old(self).view().sample_offset + samples@.len() <= u64::MAX,
        ensures
            (final(self).view(), it.remaining()) == old(self).view().run(samples@),
    {
        let ghost start = self.view();
        let base = self.sample_offset;
        let mut bytes: Vec<UartByte> = Vec::new();
        let mut pos: usize = 0;
        while pos < samples.len()
            invariant
                0 <= pos <= samples@.len(),
                start.sample_offset == base,
                base + samples@.len() <= u64::MAX,
                samples@.len() > 0 ==> start.decodable(),
                self.view().sample_offset == base,
                ({
                    let (m, bs) = start.run(samples@.take(pos as int));
                    &&& (UartModel { sample_offset: (base + pos) as u64, ..self.view() }) == m
                    &&& bytes@ == bs
                }),
            decreases samples@.len() - pos,
        {
            proof {
                lemma_uart_run_keeps_config(start, samples@.take(pos as int));
                assert(samples@.take(pos + 1).drop_last() =~= samples@.take(pos as int));
            }
            let idx = base + pos as u64;
            let sample = samples[pos];
            pos += 1;
            if let Some(byte) = self.process_sample(sample, idx) {
                bytes.push(byte);
            }
            proof {
                let (m, bs) = start.run(samples@.take(pos as int));
                assert(bytes@ =~= bs);
            }
        }
        proof {
            assert(samples@.take(pos as int) =~= samples@);
            use_type_invariant(&*self);
        }
        self.sample_offset = base + samples.len() as u64;
        UartIter { bytes, pos: 0 }
    }
}

/// Decoding leaves the channel and bit timing untouched and advances the
/// sample counter by the length of the chunk.
pub proof fn lemma_uart_run_keeps_config(m: UartModel, samples: Seq<u8>)
    ensures
        m.run(samples).0.rx_bit == m.rx_bit,
        m.run(samples).0.samples_per_bit == m.samples_per_bit,
        m.sample_offset + samples.len() <= u64::MAX ==> m.run(samples).0.sample_offset
            == m.sample_offset + samples.len(),
        m.wf() ==> m.run(samples).0.wf(),
    decreases samples.len(),
{
    if samples.len() > 0 {
        lemma_uart_run_keeps_config(m, samples.drop_last());
    }
}

/// Decoding is insensitive to how the sample stream is cut into chunks:
/// feeding `a` and then `b` leaves the decoder in the same state, and yields
/// the same bytes in the same order, as feeding `a + b` at once.
pub proof fn lemma_uart_chunks(m: UartModel, a: Seq<u8>, b: Seq<u8>)
    ensures
        ({
            let (ma, ba) = m.run(a);
            let (mb, bb) = ma.run(b);
            m.run(a + b) == (mb, ba + bb)
        }),
    decreases b.len(),
{
    if b.len() == 0 {
        assert(a + b =~= a);
        let (ma, ba) = m.run(a);
        assert(ba + Seq::<UartByte>::empty() =~= ba);
    } else {
        lemma_uart_chunks(m, a, b.drop_last());
        assert((a + b).drop_last() =~= a + b.drop_last());
        assert((a + b).last() == b.last());
        let (ma, ba) = m.run(a);
        let (mb0, bb0) = ma.run(b.drop_last());
        let (mb, out) = mb0.step(b.last());
        assert(ba + (bb0 + option_seq(out)) =~= (ba + bb0) + option_seq(out));
    }
}

/// The sample index at which the byte in progress started, if any.
pub open spec fn uart_start_index(state: UartState) -> Option<u64> {
    match state {
        UartState::Idle => None,
        UartState::Receiving { start_index, .. } => Some(start_index),
        UartState::WaitStop { start_index, .. } => Some(start_index),
    }
}

/// The byte in progress, if any, started before the next sample.
pub open spec fn uart_started_before(m: UartModel) -> bool {
    match uart_start_index(m.state) {
        Some(i) => i < m.sample_offset,
        None => true,
    }
}

/// `m` with every sample index moved `k` samples later.
pub open spec fn uart_shifted(m: UartModel, k: nat) -> UartModel {
    let state = match m.state {
        UartState::Idle => UartState::Idle,
        UartState::Receiving { byte_val, bit_count, samples_to_next, start_index } => UartState::Receiving {
            byte_val,
            bit_count,
            samples_to_next,
            start_index: (start_index + k) as u64,
        },
        UartState::WaitStop { byte_val, samples_to_next, start_index } => UartState::WaitStop {
            byte_val,
            samples_to_next,
            start_index: (start_index + k) as u64,
        },
    };
    UartModel { state, sample_offset: (m.sample_offset + k) as u64, ..m }
}

/// `b` stamped `k` samples later.
pub open spec fn uart_byte_shifted(b: UartByte, k: nat) -> UartByte {
    UartByte { sample_index: (b.sample_index + k) as u64, ..b }
}

proof fn lemma_uart_step_shifted(m: UartModel, k: nat, sample: u8)
    requires
        uart_started_before(m),
        m.sample_offset + k + 1 <= u64::MAX,
    ensures
        uart_started_before(m.step(sample).0),
        uart_shifted(m, k).step(sample) == (
            uart_shifted(m.step(sample).0, k),
            match m.step(sample).1 {
                Some(b) => Some(uart_byte_shifted(b, k)),
                None => None,
            },
        ),
{
}

/// Decoding is the same wherever in the stream it happens: a decoder whose
/// sample indices are all `k` later decodes the same samples into the same
/// bytes, stamped `k` later.
pub proof fn lemma_uart_run_shifted(m: UartModel, k: nat, samples: Seq<u8>)
    requires
        uart_started_before(m),
        m.sample_offset + k + samples.len() <= u64::MAX,
    ensures
        uart_started_before(m.run(samples).0),
        uart_shifted(m, k).run(samples) == (
            uart_shifted(m.run(samples).0, k),
            m.run(samples).1.map_values(|b: UartByte| uart_byte_shifted(b, k)),
        ),
    decreases samples.len(),
{
    if samples.len() > 0 {
        lemma_uart_run_shifted(m, k, samples.drop_last());
        lemma_uart_run_keeps_config(m, samples.drop_last());
        let (mid, bytes) = m.run(samples.drop_last());
        lemma_uart_step_shifted(mid, k, samples.last());
        let (last, out) = mid.step(samples.last());
        let f = |b: UartByte| uart_byte_shifted(b, k);
        assert((bytes + option_seq(out)).map_values(f) =~= bytes.map_values(f) + option_seq(
            match out {
                Some(b) => Some(uart_byte_shifted(b, k)),
                None => None,
            },
        ));
    }
}

/// A reset decoder that has taken `m.sample_offset` samples decodes like a
/// freshly created one with the same channel and bit timing, its bytes
/// stamped `m.sample_offset` samples later: a byte in progress is dropped and
/// the line is taken as idle.
pub proof fn lemma_uart_reset_is_fresh(m: UartModel, samples: Seq<u8>)
    requires
        m.sample_offset + samples.len() <= u64::MAX,
    ensures
        ({
            let reset = UartModel { state: UartState::Idle, prev_rx: true, ..m };
            let fresh = UartModel {
                rx_bit: m.rx_bit,
                samples_per_bit: m.samples_per_bit,
                state: UartState::Idle,
                prev_rx: true,
                sample_offset: 0,
            };
            reset.run(samples) == (
                uart_shifted(fresh.run(samples).0, m.sample_offset as nat),
                fresh.run(samples).1.map_values(|b: UartByte| uart_byte_shifted(b, m.sample_offset as nat)),
            )
        }),
{
    let fresh = UartModel {
        rx_bit: m.rx_bit,
        samples_per_bit: m.samples_per_bit,
        state: UartState::Idle,
        prev_rx: true,
        sample_offset: 0,
    };
    assert(uart_shifted(fresh, m.sample_offset as nat) == (UartModel { state: UartState::Idle, prev_rx: true, ..m }));
    lemma_uart_run_shifted(fresh, m.sample_offset as nat, samples);
}

/// The bytes decoded by one [`UartDecoder::feed`] call.
pub struct UartIter {
    bytes: Vec<UartByte>,
    pos: usize,
}

impl UartIter {
    #[verifier::type_invariant]
    closed spec fn inv(self) -> bool {
        self.pos <= self.bytes@.len()
    }

    /// The bytes not yet handed out, in order.
    pub closed spec fn remaining(self) -> Seq<UartByte> {
        self.bytes@.skip(self.pos as int)
    }

    /// The next decoded byte, if any.
    pub fn next(&mut self) -> (r: Option<UartByte>)
        ensures
            old(self).remaining().len() == 0 ==> r is None && final(self).remaining() == old(
                self,
            ).remaining(),
            old(self).remaining().len() > 0 ==> r == Some(old(self).remaining()[0])
                && final(self).remaining() == old(self).remaining().drop_first(),
    {
        proof {
            use_type_invariant(&*self);
        }
        if self.pos < self.bytes.len() {
            let b = self.bytes[self.pos];
            self.pos += 1;
            proof {
                assert(self.bytes@.skip(self.pos as int) =~= old(self).remaining().drop_first());
            }
            Some(b)
        } else {
            None
        }
    }

    /// All remaining bytes, in order.
    pub fn collect(self) -> (v: Vec<UartByte>)
        ensures
            v@ == self.remaining(),
    {
        proof {
            use_type_invariant(&self);
        }
        let mut out: Vec<UartByte> = Vec::new();
        let mut i = self.pos;
        while i < self.bytes.len()
            invariant
                self.pos <= i <= self.bytes@.len(),
                out@ =~= self.bytes@.subrange(self.pos as int, i as int),
            decreases self.bytes@.len() - i,
        {
            out.push(self.bytes[i]);
            i += 1;
        }
        proof {
            assert(out@ =~= self.remaining());
        }
        out
    }
}


// ---------------------------------------------------------------------------
// What the I2C decoder makes of a well-formed bus transaction
// ---------------------------------------------------------------------------

/// A sample byte carrying SDA on channel 0 and SCL on channel 1.
pub open spec fn bus_sample(sda: bool, scl: bool) -> u8 {
    if sda && scl {
        3u8
    } else if sda {
        1u8
    } else if scl {
        2u8
    } else {
        0u8
    }
}

/// Bit `k` of `v`.
pub open spec fn bit_of(v: u8, k: u8) -> bool {
    (v >> k) & 1u8 == 1u8
}

/// One clock cycle carrying `bit` on SDA: SCL low, SCL high, SCL low.
pub open spec fn bit_cell(bit: bool) -> Seq<u8> {
    seq![bus_sample(bit, false), bus_sample(bit, true), bus_sample(bit, false)]
}

/// The clock cycles carrying the `n` most significant bits of `v`, MSB first.
pub open spec fn byte_cells(v: u8, n: nat) -> Seq<u8>
    decreases n,
{
    if n == 0 {
        Seq::empty()
    } else {
        byte_cells(v, (n - 1) as nat) + bit_cell(bit_of(v, (8 - n) as u8))
    }
}

/// The `n` most significant bits of `v`, as a number.
pub open spec fn high_bits(v: u8, n: u8) -> u8 {
    (v >> ((8 - n) as u8)) as u8
}

proof fn lemma_bus_channels()
    ensures
        !channel_high(0u8, 0u8) && !channel_high(0u8, 1u8),
        channel_high(1u8, 0u8) && !channel_high(1u8, 1u8),
        !channel_high(2u8, 0u8) && channel_high(2u8, 1u8),
        channel_high(3u8, 0u8) && channel_high(3u8, 1u8),
{
    assert(!channel_high(0u8, 0u8) && !channel_high(0u8, 1u8)) by (bit_vector);
    assert(channel_high(1u8, 0u8) && !channel_high(1u8, 1u8)) by (bit_vector);
    assert(!channel_high(2u8, 0u8) && channel_high(2u8, 1u8)) by (bit_vector);
    assert(channel_high(3u8, 0u8) && channel_high(3u8, 1u8)) by (bit_vector);
}

proof fn lemma_high_bits(v: u8, n: u8)
    requires
        n < 8,
    ensures
        high_bits(v, (n + 1) as u8) == (((high_bits(v, n) << 1u8) | (if bit_of(v, (7 - n) as u8) { 1u8 } else { 0u8 })) as u8),
{
    let k = (7 - n) as u8;
    assert(k < 8);
    if bit_of(v, k) {
        assert(((v >> k) & 1u8 == 1u8) && k < 8 ==> (v >> k) == ((((v >> ((k + 1) as u8)) as u8) << 1u8) | 1u8)) by (bit_vector);
    } else {
        assert(!((v >> k) & 1u8 == 1u8) && k < 8 ==> (v >> k) == ((((v >> ((k + 1) as u8)) as u8) << 1u8) | 0u8)) by (bit_vector);
    }
    assert((8 - n) as u8 == (k + 1) as u8);
    assert((8 - (n + 1)) as u8 == k);
}

proof fn lemma_run_single(m: I2cModel, s: u8)
    ensures
        m.run(seq![s]) == (m.step(s).0, option_seq(m.step(s).1)),
{
    assert(seq![s].drop_last() =~= Seq::<u8>::empty());
    assert(m.run(Seq::<u8>::empty()) == (m, Seq::<I2cFrame>::empty()));
    assert(seq![s].last() == s);
    assert(Seq::<I2cFrame>::empty() + option_seq(m.step(s).1) =~= option_seq(m.step(s).1));
}

proof fn lemma_run_cons(m: I2cModel, s: u8, rest: Seq<u8>)
    ensures
        m.run(seq![s] + rest) == (m.step(s).0.run(rest).0, option_seq(m.step(s).1) + m.step(s).0.run(rest).1),
{
    lemma_i2c_chunks(m, seq![s], rest);
    lemma_run_single(m, s);
}

/// A clock cycle while collecting bits shifts SDA into the byte.
#[verifier::spinoff_prover]
#[verifier::rlimit(40)]
proof fn lemma_bit_cell(m: I2cModel, bit: bool, byte_val: u8, bit_count: u8)
    requires
        m.sda_bit == 0,
        m.scl_bit == 1,
        m.state == (I2cState::CollectBits { byte_val, bit_count }),
        bit_count < 8,
        m.sample_offset + 3 < u64::MAX,
    ensures
        ({
            let new_val = (((byte_val << 1u8) | (if bit { 1u8 } else { 0u8 })) as u8);
            let new_state = if bit_count + 1 == 8 {
                I2cState::WaitAck { byte_val: new_val }
            } else {
                I2cState::CollectBits { byte_val: new_val, bit_count: (bit_count + 1) as u8 }
            };
            m.run(bit_cell(bit)) == (I2cModel {
                state: new_state,
                prev_sda: bit,
                prev_scl: false,
                sample_offset: (m.sample_offset + 3) as u64,
                byte_start: if bit_count == 0 {
                    (m.sample_offset + 1) as u64
                } else {
                    m.byte_start
                },
                ..m
            }, Seq::<I2cFrame>::empty())
        }),
{
    lemma_bus_channels();
    let c = bit_cell(bit);
    let (m1, o1) = m.step(c[0]);
    let (m2, o2) = m1.step(c[1]);
    let (m3, o3) = m2.step(c[2]);
    assert(c =~= seq![c[0]] + (seq![c[1]] + seq![c[2]]));
    lemma_run_cons(m, c[0], seq![c[1]] + seq![c[2]]);
    lemma_run_cons(m1, c[1], seq![c[2]]);
    lemma_run_single(m2, c[2]);
    assert(o1 is None && o2 is None && o3 is None);
    assert(option_seq(o1) + (option_seq(o2) + option_seq(o3)) =~= Seq::<I2cFrame>::empty());
}

/// The clock cycles of the `n` most significant bits of `v`, from the start
/// of a byte, leave those bits collected.
#[verifier::spinoff_prover]
#[verifier::rlimit(40)]
proof fn lemma_byte_cells(m: I2cModel, v: u8, n: nat)
    requires
        m.sda_bit == 0,
        m.scl_bit == 1,
        m.state == (I2cState::CollectBits { byte_val: 0, bit_count: 0 }),
        n <= 8,
        m.sample_offset + 3 * n + 1 < u64::MAX,
    ensures
        ({
            let state = if n == 8 {
                I2cState::WaitAck { byte_val: v }
            } else {
                I2cState::CollectBits { byte_val: high_bits(v, n as u8), bit_count: n as u8 }
            };
            let r = m.run(byte_cells(v, n));
            &&& r.1 == Seq::<I2cFrame>::empty()
            &&& r.0.state == state
            &&& r.0.sample_offset == m.sample_offset + 3 * n
            &&& n > 0 ==> !r.0.prev_scl
            &&& r.0.byte_start == if n > 0 {
                (m.sample_offset + 1) as u64
            } else {
                m.byte_start
            }
            &&& r.0 == (I2cModel {
                state: r.0.state,
                prev_sda: r.0.prev_sda,
                prev_scl: r.0.prev_scl,
                sample_offset: r.0.sample_offset,
                byte_start: r.0.byte_start,
                ..m
            })
        }),
    decreases n,
{
    if n == 0 {
        assert(high_bits(v, 0) == 0) by (bit_vector)
            requires high_bits(v, 0) == (v >> 8u8) as u8;
    } else {
        let k = (n - 1) as nat;
        lemma_byte_cells(m, v, k);
        let prev = m.run(byte_cells(v, k));
        let bit = bit_of(v, (8 - n) as u8);
        lemma_i2c_chunks(m, byte_cells(v, k), bit_cell(bit));
        lemma_bit_cell(prev.0, bit, high_bits(v, k as u8), k as u8);
        lemma_high_bits(v, k as u8);
        assert((7 - k) as u8 == (8 - n) as u8);
        if n == 8 {
            assert(high_bits(v, 8) == v) by (bit_vector)
                requires high_bits(v, 8) == (v >> 0u8) as u8;
        }
        assert(Seq::<I2cFrame>::empty() + Seq::<I2cFrame>::empty() =~= Seq::<I2cFrame>::empty());
    }
}

/// The model of a freshly created decoder watching SDA on channel 0 and SCL
/// on channel 1.
pub open spec fn fresh_bus_decoder(sample_rate_hz: u32) -> I2cModel {
    I2cModel {
        sda_bit: 0,
        scl_bit: 1,
        state: I2cState::Idle,
        prev_sda: true,
        prev_scl: true,
        sample_offset: 0,
        byte_start: 0,
        sample_rate_hz,
    }
}

/// The clock cycles of a sequence of bytes, each followed by its acknowledge
/// bit (`true` for ACK, sent as SDA low).
pub open spec fn data_cells(bytes: Seq<(u8, bool)>) -> Seq<u8>
    decreases bytes.len(),
{
    if bytes.len() == 0 {
        Seq::empty()
    } else {
        data_cells(bytes.drop_last()) + (byte_cells(bytes.last().0, 8) + bit_cell(!bytes.last().1))
    }
}

/// A transaction on an idle bus: four idle samples, START, each byte with
/// its acknowledge bit, and STOP.
pub open spec fn bus_transaction(bytes: Seq<(u8, bool)>) -> Seq<u8> {
    seq![bus_sample(true, true), bus_sample(true, true), bus_sample(true, true), bus_sample(true, true), bus_sample(false, true)]
        + data_cells(bytes) + seq![bus_sample(false, false), bus_sample(false, true), bus_sample(true, true)]
}

/// The data frames of `bytes` whose clock cycles start at sample `first`:
/// each stamped with the clock edge of its first bit, 27 samples apart.
pub open spec fn data_frames(bytes: Seq<(u8, bool)>, first: nat) -> Seq<I2cFrame> {
    Seq::new(
        bytes.len(),
        |j: int| I2cFrame::Data { value: bytes[j].0, ack: bytes[j].1, sample_index: (first + 1 + 27 * j) as u64 },
    )
}

/// A byte and its acknowledge bit, from the start of a byte, give one data
/// frame and leave the decoder at the start of the next byte.
#[verifier::spinoff_prover]
#[verifier::rlimit(40)]
proof fn lemma_byte_with_ack(m: I2cModel, value: u8, ack: bool)
    requires
        m.sda_bit == 0,
        m.scl_bit == 1,
        m.state == (I2cState::CollectBits { byte_val: 0, bit_count: 0 }),
        m.sample_offset + 28 < u64::MAX,
    ensures
        ({
            let r = m.run(byte_cells(value, 8) + bit_cell(!ack));
            &&& r.1 == seq![I2cFrame::Data { value, ack, sample_index: (m.sample_offset + 1) as u64 }]
            &&& r.0.state == (I2cState::CollectBits { byte_val: 0, bit_count: 0 })
            &&& r.0.sample_offset == m.sample_offset + 27
            &&& r.0.sda_bit == 0
            &&& r.0.scl_bit == 1
        }),
{
    lemma_bus_channels();
    lemma_byte_cells(m, value, 8);
    let b = m.run(byte_cells(value, 8));
    let ackc = bit_cell(!ack);
    let (c1, g1) = b.0.step(ackc[0]);
    let (c2, g2) = c1.step(ackc[1]);
    let (c3, g3) = c2.step(ackc[2]);
    assert(ackc =~= seq![ackc[0]] + (seq![ackc[1]] + seq![ackc[2]]));
    lemma_run_cons(b.0, ackc[0], seq![ackc[1]] + seq![ackc[2]]);
    lemma_run_cons(c1, ackc[1], seq![ackc[2]]);
    lemma_run_single(c2, ackc[2]);
    let fa = option_seq(g1) + (option_seq(g2) + option_seq(g3));
    assert(fa =~= seq![I2cFrame::Data { value, ack, sample_index: (m.sample_offset + 1) as u64 }]);
    lemma_i2c_chunks(m, byte_cells(value, 8), ackc);
    assert(b.1 + fa =~= fa);
}

/// The bytes of a transaction, from the start of a byte, give their data
/// frames in order and leave the decoder at the start of the next byte.
proof fn lemma_data_cells(m: I2cModel, bytes: Seq<(u8, bool)>)
    requires
        m.sda_bit == 0,
        m.scl_bit == 1,
        m.state == (I2cState::CollectBits { byte_val: 0, bit_count: 0 }),
        m.sample_offset + 27 * bytes.len() + 2 < u64::MAX,
    ensures
        ({
            let r = m.run(data_cells(bytes));
            &&& r.1 == data_frames(bytes, m.sample_offset as nat)
            &&& r.0.state == (I2cState::CollectBits { byte_val: 0, bit_count: 0 })
            &&& r.0.sample_offset == m.sample_offset + 27 * bytes.len()
            &&& r.0.sda_bit == 0
            &&& r.0.scl_bit == 1
        }),
    decreases bytes.len(),
{
    if bytes.len() == 0 {
        assert(data_frames(bytes, m.sample_offset as nat) =~= Seq::<I2cFrame>::empty());
    } else {
        let init = bytes.drop_last();
        let (v, a) = bytes.last();
        lemma_data_cells(m, init);
        let mid = m.run(data_cells(init));
        assert(27 * init.len() + 27 == 27 * bytes.len()) by (nonlinear_arith)
            requires
                init.len() + 1 == bytes.len(),
        ;
        lemma_byte_with_ack(mid.0, v, a);
        lemma_i2c_chunks(m, data_cells(init), byte_cells(v, 8) + bit_cell(!a));
        let d = data_frames(bytes, m.sample_offset as nat);
        let e = data_frames(init, m.sample_offset as nat) + seq![
            I2cFrame::Data { value: v, ack: a, sample_index: (mid.0.sample_offset + 1) as u64 },
        ];
        assert forall|j: int| 0 <= j < d.len() implies d[j] == e[j] by {
            if j < init.len() {
                assert(init[j] == bytes[j]);
            }
        }
        assert(d =~= e);
    }
}

/// A transaction on an idle bus decodes to START, each byte with its
/// acknowledge bit (stamped with the clock edge of its first bit), and STOP
/// — for any number of bytes, every byte value and both acknowledge levels.
#[verifier::spinoff_prover]
#[verifier::rlimit(40)]
pub proof fn lemma_i2c_decodes_bytes(sample_rate_hz: u32, bytes: Seq<(u8, bool)>)
    requires
        27 * bytes.len() + 10 < u64::MAX,
    ensures
        fresh_bus_decoder(sample_rate_hz).run(bus_transaction(bytes)).1 == seq![I2cFrame::Start { sample_index: 4 }]
            + data_frames(bytes, 5) + seq![I2cFrame::Stop { sample_index: (5 + 27 * bytes.len() + 2) as u64 }],
{
    lemma_bus_channels();
    let m0 = fresh_bus_decoder(sample_rate_hz);
    let idle = bus_sample(true, true);
    let prefix = seq![idle, idle, idle, idle, bus_sample(false, true)];
    let cells = data_cells(bytes);
    let stop = seq![bus_sample(false, false), bus_sample(false, true), bus_sample(true, true)];
    assert(bus_transaction(bytes) =~= prefix + (cells + stop));
    // the idle samples and the START condition
    let (a1, f1) = m0.step(idle);
    let (a2, f2) = a1.step(idle);
    let (a3, f3) = a2.step(idle);
    let (a4, f4) = a3.step(idle);
    let (a5, f5) = a4.step(bus_sample(false, true));
    assert(prefix =~= seq![idle] + (seq![idle] + (seq![idle] + (seq![idle] + seq![bus_sample(false, true)]))));
    lemma_run_cons(m0, idle, seq![idle] + (seq![idle] + (seq![idle] + seq![bus_sample(false, true)])));
    lemma_run_cons(a1, idle, seq![idle] + (seq![idle] + seq![bus_sample(false, true)]));
    lemma_run_cons(a2, idle, seq![idle] + seq![bus_sample(false, true)]);
    lemma_run_cons(a3, idle, seq![bus_sample(false, true)]);
    lemma_run_single(a4, bus_sample(false, true));
    let fp = option_seq(f1) + (option_seq(f2) + (option_seq(f3) + (option_seq(f4) + option_seq(f5))));
    assert(fp =~= seq![I2cFrame::Start { sample_index: 4 }]);
    assert(m0.run(prefix) == (a5, fp));
    // the bytes
    lemma_data_cells(a5, bytes);
    let b = a5.run(cells);
    // the STOP condition
    let (d1, h1) = b.0.step(stop[0]);
    let (d2, h2) = d1.step(stop[1]);
    let (d3, h3) = d2.step(stop[2]);
    assert(stop =~= seq![stop[0]] + (seq![stop[1]] + seq![stop[2]]));
    lemma_run_cons(b.0, stop[0], seq![stop[1]] + seq![stop[2]]);
    lemma_run_cons(d1, stop[1], seq![stop[2]]);
    lemma_run_single(d2, stop[2]);
    let fs = option_seq(h1) + (option_seq(h2) + option_seq(h3));
    assert(fs =~= seq![I2cFrame::Stop { sample_index: (5 + 27 * bytes.len() + 2) as u64 }]);
    // putting the pieces together
    lemma_i2c_chunks(a5, cells, stop);
    lemma_i2c_chunks(m0, prefix, cells + stop);
    assert(fp + (b.1 + fs) =~= seq![I2cFrame::Start { sample_index: 4 }] + data_frames(bytes, 5) + seq![
        I2cFrame::Stop { sample_index: (5 + 27 * bytes.len() + 2) as u64 },
    ]);
}

// ---------------------------------------------------------------------------
// What the UART decoder makes of a well-formed 8N1 frame
// ---------------------------------------------------------------------------

/// Where data bit `j` of a frame is sampled: half a bit into its bit time.
pub open spec fn uart_sample_point(spb: int, j: int) -> int {
    3 * spb + spb / 2 + j * spb
}

/// The level of the RX line at sample `i` of a framed byte `value` with
/// `spb` samples per bit: two idle bit times, the start bit, the eight data
/// bits LSB first, the stop bit, and two idle bit times.
pub open spec fn uart_line(value: u8, spb: int, i: int) -> bool {
    if i < 2 * spb {
        true
    } else if i < 3 * spb {
        false
    } else if i < 11 * spb {
        bit_of(value, ((i - 3 * spb) / spb) as u8)
    } else {
        true
    }
}

/// The samples (RX on channel 0) of a framed byte `value` with `spb`
/// samples per bit.
pub open spec fn uart_frame(value: u8, spb: nat) -> Seq<u8> {
    Seq::new(14 * spb, |i: int| if uart_line(value, spb as int, i) { 1u8 } else { 0u8 })
}

/// The low `j` bits of `v`.
pub open spec fn low_bits(v: u8, j: u8) -> u8 {
    if j >= 8 {
        v
    } else {
        (v & (((1u8 << j) - 1u8) as u8)) as u8
    }
}

/// The model of a freshly created decoder watching RX on channel 0 with
/// `spb` samples per bit.
pub open spec fn fresh_uart_decoder(spb: u32) -> UartModel {
    UartModel { rx_bit: 0, samples_per_bit: spb, state: UartState::Idle, prev_rx: true, sample_offset: 0 }
}

proof fn lemma_uart_channel()
    ensures
        channel_high(1u8, 0u8),
        !channel_high(0u8, 0u8),
{
    assert(channel_high(1u8, 0u8)) by (bit_vector);
    assert(!channel_high(0u8, 0u8)) by (bit_vector);
}

proof fn lemma_uart_run_single(m: UartModel, s: u8)
    ensures
        m.run(seq![s]) == (m.step(s).0, option_seq(m.step(s).1)),
{
    assert(seq![s].drop_last() =~= Seq::<u8>::empty());
    assert(m.run(Seq::<u8>::empty()) == (m, Seq::<UartByte>::empty()));
    assert(seq![s].last() == s);
    assert(Seq::<UartByte>::empty() + option_seq(m.step(s).1) =~= option_seq(m.step(s).1));
}

/// An idle line (all samples high) keeps an idle decoder idle.
proof fn lemma_uart_idle_high(m: UartModel, s: Seq<u8>)
    requires
        m.state == UartState::Idle,
        m.prev_rx,
        m.rx_bit == 0,
        forall|i: int| 0 <= i < s.len() ==> s[i] == 1u8,
        m.sample_offset + s.len() < u64::MAX,
    ensures
        m.run(s) == (UartModel { sample_offset: (m.sample_offset + s.len()) as u64, ..m }, Seq::<UartByte>::empty()),
    decreases s.len(),
{
    lemma_uart_channel();
    if s.len() > 0 {
        lemma_uart_idle_high(m, s.drop_last());
        assert(s.last() == 1u8);
        assert(Seq::<UartByte>::empty() + Seq::<UartByte>::empty() =~= Seq::<UartByte>::empty());
    }
}

/// The bit-timing counter with `n` more samples waited for.
pub open spec fn counted_down(state: UartState, n: int) -> UartState {
    match state {
        UartState::Receiving { byte_val, bit_count, samples_to_next, start_index } => UartState::Receiving {
            byte_val,
            bit_count,
            samples_to_next: (samples_to_next - n) as u32,
            start_index,
        },
        UartState::WaitStop { byte_val, samples_to_next, start_index } => UartState::WaitStop {
            byte_val,
            samples_to_next: (samples_to_next - n) as u32,
            start_index,
        },
        UartState::Idle => UartState::Idle,
    }
}

/// The counter to the next sampling point in `state`.
pub open spec fn countdown(state: UartState) -> int {
    match state {
        UartState::Receiving { samples_to_next, .. } => samples_to_next as int,
        UartState::WaitStop { samples_to_next, .. } => samples_to_next as int,
        UartState::Idle => 0,
    }
}

/// Between two sampling points, whatever the line does only counts down.
proof fn lemma_uart_wait(m: UartModel, s: Seq<u8>)
    requires
        !(m.state is Idle),
        s.len() < countdown(m.state),
        m.sample_offset + s.len() < u64::MAX,
    ensures
        ({
            let r = m.run(s);
            &&& r.1 == Seq::<UartByte>::empty()
            &&& r.0 == (UartModel {
                state: counted_down(m.state, s.len() as int),
                prev_rx: r.0.prev_rx,
                sample_offset: (m.sample_offset + s.len()) as u64,
                ..m
            })
        }),
    decreases s.len(),
{
    if s.len() > 0 {
        lemma_uart_wait(m, s.drop_last());
        assert(Seq::<UartByte>::empty() + Seq::<UartByte>::empty() =~= Seq::<UartByte>::empty());
    } else {
        assert(counted_down(m.state, 0) == m.state);
    }
}

proof fn lemma_low_bits_step(v: u8, j: u8)
    requires
        j < 8,
    ensures
        low_bits(v, (j + 1) as u8) == ((low_bits(v, j) | ((if bit_of(v, j) { 1u8 } else { 0u8 }) << j)) as u8),
        low_bits(v, 0) == 0,
{
    assert(low_bits(v, 0) == 0) by (bit_vector)
        requires
            low_bits(v, 0) == (v & (((1u8 << 0u8) - 1u8) as u8)) as u8,
    ;
    if bit_of(v, j) {
        assert(j < 8 && ((v >> j) & 1u8 == 1u8) ==> (if ((j + 1) as u8) >= 8 { v } else { (v & (((1u8 << ((j + 1) as u8)) - 1u8) as u8)) as u8 })
            == (((v & (((1u8 << j) - 1u8) as u8)) as u8) | (1u8 << j)) as u8) by (bit_vector);
    } else {
        assert(j < 8 && !((v >> j) & 1u8 == 1u8) ==> (if ((j + 1) as u8) >= 8 { v } else { (v & (((1u8 << ((j + 1) as u8)) - 1u8) as u8)) as u8 })
            == (((v & (((1u8 << j) - 1u8) as u8)) as u8) | (0u8 << j)) as u8) by (bit_vector);
    }
}

proof fn lemma_uart_sample_point(spb: int, j: int)
    requires
        spb >= 1,
        0 <= j <= 8,
    ensures
        3 * spb <= uart_sample_point(spb, j) < 3 * spb + (j + 1) * spb,
        j < 8 ==> (uart_sample_point(spb, j) - 3 * spb) / spb == j,
        j < 8 ==> uart_sample_point(spb, j) < 11 * spb,
        j < 8 ==> uart_sample_point(spb, j + 1) == uart_sample_point(spb, j) + spb,
        j == 8 ==> 11 * spb <= uart_sample_point(spb, j) < 12 * spb,
{
    let h = spb / 2;
    assert(0 <= h < spb);
    assert((j + 1) * spb == j * spb + spb) by (nonlinear_arith);
    assert(j * spb >= 0) by (nonlinear_arith)
        requires
            j >= 0,
            spb >= 1,
    ;
    if j < 8 {
        assert((j * spb + h) / spb == j) by (nonlinear_arith)
            requires
                spb >= 1,
                0 <= h < spb,
                j >= 0,
        ;
        assert(j * spb <= 7 * spb) by (nonlinear_arith)
            requires
                j <= 7,
                spb >= 1,
        ;
    } else {
        assert(j * spb == 8 * spb);
    }
}

/// The state just before data bit `j` (or, for `j == 8`, the stop bit) is
/// sampled.
pub open spec fn uart_state_before_bit(value: u8, spb: u32, j: int) -> UartState {
    if j < 8 {
        UartState::Receiving {
            byte_val: low_bits(value, j as u8),
            bit_count: j as u8,
            samples_to_next: 1,
            start_index: (2 * spb) as u64,
        }
    } else {
        UartState::WaitStop { byte_val: value, samples_to_next: 1, start_index: (2 * spb) as u64 }
    }
}

#[verifier::spinoff_prover]
#[verifier::rlimit(40)]
proof fn lemma_uart_frame_start(value: u8, spb: u32, j: int)
    requires
        spb >= 1,
        spb / 2 + spb <= u32::MAX,
        j == 0,
    ensures
        ({
            let p = uart_sample_point(spb as int, j);
            let r = fresh_uart_decoder(spb).run(uart_frame(value, spb as nat).take(p));
            &&& r.1 == Seq::<UartByte>::empty()
            &&& r.0.state == uart_state_before_bit(value, spb, j)
            &&& r.0.sample_offset == p
            &&& r.0.rx_bit == 0
            &&& r.0.samples_per_bit == spb
        }),
{
    lemma_uart_channel();
    let s = spb as int;
    let frame = uart_frame(value, spb as nat);
    let m0 = fresh_uart_decoder(spb);
    let e = 2 * s;
    let h = s / 2;
    lemma_uart_sample_point(s, j);
    // idle, start edge, wait to the middle of bit 0
    let p = uart_sample_point(s, 0);
    assert(0 * s == 0) by (nonlinear_arith);
    assert(p == e + 1 + (h + s - 1));
    let a = frame.take(e);
    let c = frame.subrange(e + 1, p);
    assert(frame.take(p) =~= a + (seq![frame[e]] + c));
    assert forall|i: int| 0 <= i < a.len() implies a[i] == 1u8 by {
        assert(uart_line(value, s, i));
    }
    lemma_uart_idle_high(m0, a);
    let ma = UartModel { sample_offset: e as u64, ..m0 };
    assert(!uart_line(value, s, e));
    assert(frame[e] == 0u8);
    let (mb, ob) = ma.step(frame[e]);
    lemma_uart_run_single(ma, frame[e]);
    assert(mb.state == (UartState::Receiving {
        byte_val: 0,
        bit_count: 0,
        samples_to_next: (h + s) as u32,
        start_index: e as u64,
    }));
    assert(ob is None);
    lemma_uart_wait(mb, c);
    lemma_uart_chunks(ma, seq![frame[e]], c);
    lemma_uart_chunks(m0, a, seq![frame[e]] + c);
    lemma_low_bits_step(value, 0);
    assert(Seq::<UartByte>::empty() + (Seq::<UartByte>::empty() + Seq::<UartByte>::empty()) =~= Seq::<UartByte>::empty());
}

#[verifier::spinoff_prover]
#[verifier::rlimit(40)]
proof fn lemma_uart_frame_step(value: u8, spb: u32, j: int)
    requires
        spb >= 1,
        spb / 2 + spb <= u32::MAX,
        1 <= j <= 8,
        ({
            let k = j - 1;
            let p = uart_sample_point(spb as int, k);
            let r = fresh_uart_decoder(spb).run(uart_frame(value, spb as nat).take(p));
            &&& r.1 == Seq::<UartByte>::empty()
            &&& r.0.state == uart_state_before_bit(value, spb, k)
            &&& r.0.sample_offset == p
            &&& r.0.rx_bit == 0
            &&& r.0.samples_per_bit == spb
        }),
    ensures
        ({
            let p = uart_sample_point(spb as int, j);
            let r = fresh_uart_decoder(spb).run(uart_frame(value, spb as nat).take(p));
            &&& r.1 == Seq::<UartByte>::empty()
            &&& r.0.state == uart_state_before_bit(value, spb, j)
            &&& r.0.sample_offset == p
            &&& r.0.rx_bit == 0
            &&& r.0.samples_per_bit == spb
        }),
{
    lemma_uart_channel();
    let s = spb as int;
    let frame = uart_frame(value, spb as nat);
    let m0 = fresh_uart_decoder(spb);
    let e = 2 * s;
    let h = s / 2;
    lemma_uart_sample_point(s, j);
    let k = j - 1;
    lemma_uart_sample_point(s, k);
    let pk = uart_sample_point(s, k);
    let p = uart_sample_point(s, j);
    let prev = m0.run(frame.take(pk));
    let w = frame.subrange(pk + 1, p);
    assert(frame.take(p) =~= frame.take(pk) + (seq![frame[pk]] + w));
    // sample data bit k
    let bit = bit_of(value, k as u8);
    assert(uart_line(value, s, pk) == bit);
    assert(frame[pk] == (if bit { 1u8 } else { 0u8 }));
    let (mb, ob) = prev.0.step(frame[pk]);
    lemma_uart_run_single(prev.0, frame[pk]);
    lemma_low_bits_step(value, k as u8);
    assert(ob is None);
    assert(mb.state == (if j < 8 {
        UartState::Receiving {
            byte_val: low_bits(value, j as u8),
            bit_count: j as u8,
            samples_to_next: spb,
            start_index: (2 * spb) as u64,
        }
    } else {
        UartState::WaitStop { byte_val: low_bits(value, 8), samples_to_next: spb, start_index: (2 * spb) as u64 }
    }));
    lemma_uart_wait(mb, w);
    lemma_uart_chunks(prev.0, seq![frame[pk]], w);
    lemma_uart_chunks(m0, frame.take(pk), seq![frame[pk]] + w);
    assert(Seq::<UartByte>::empty() + (Seq::<UartByte>::empty() + Seq::<UartByte>::empty()) =~= Seq::<UartByte>::empty());
}

proof fn lemma_uart_frame_prefix(value: u8, spb: u32, j: int)
    requires
        spb >= 1,
        spb / 2 + spb <= u32::MAX,
        0 <= j <= 8,
    ensures
        ({
            let p = uart_sample_point(spb as int, j);
            let r = fresh_uart_decoder(spb).run(uart_frame(value, spb as nat).take(p));
            &&& r.1 == Seq::<UartByte>::empty()
            &&& r.0.state == uart_state_before_bit(value, spb, j)
            &&& r.0.sample_offset == p
            &&& r.0.rx_bit == 0
            &&& r.0.samples_per_bit == spb
        }),
    decreases j,
{
    if j == 0 {
        lemma_uart_frame_start(value, spb, j);
    } else {
        lemma_uart_frame_prefix(value, spb, j - 1);
        lemma_uart_frame_step(value, spb, j);
    }
}

/// A well-formed 8N1 frame on an idle line decodes to exactly its byte,
/// stamped with the index of its start bit and without framing error — for
/// every byte value and every bit time of at least one sample.
#[verifier::spinoff_prover]
#[verifier::rlimit(40)]
pub proof fn lemma_uart_decodes_frame(value: u8, spb: u32)
    requires
        spb >= 1,
        spb / 2 + spb <= u32::MAX,
    ensures
        fresh_uart_decoder(spb).run(uart_frame(value, spb as nat)).1 == seq![
            UartByte { value, sample_index: (2 * spb) as u64, framing_error: false },
        ],
        fresh_uart_decoder(spb).run(uart_frame(value, spb as nat)).0 == (UartModel {
            sample_offset: (14 * spb) as u64,
            ..fresh_uart_decoder(spb)
        }),
{
    lemma_uart_channel();
    let s = spb as int;
    let frame = uart_frame(value, spb as nat);
    let m0 = fresh_uart_decoder(spb);
    lemma_uart_frame_prefix(value, spb, 8);
    lemma_uart_sample_point(s, 8);
    let p = uart_sample_point(s, 8);
    let prev = m0.run(frame.take(p));
    let rest = frame.subrange(p + 1, 14 * s);
    assert(frame =~= frame.take(p) + (seq![frame[p]] + rest));
    assert(uart_line(value, s, p));
    assert(frame[p] == 1u8);
    let (mb, ob) = prev.0.step(frame[p]);
    lemma_uart_run_single(prev.0, frame[p]);
    assert(ob == Some(UartByte { value, sample_index: (2 * spb) as u64, framing_error: false }));
    assert(mb.state == UartState::Idle);
    assert(mb.prev_rx);
    assert forall|i: int| 0 <= i < rest.len() implies rest[i] == 1u8 by {
        assert(uart_line(value, s, p + 1 + i));
    }
    lemma_uart_run_keeps_config(m0, frame.take(p));
    lemma_uart_idle_high(mb, rest);
    lemma_uart_chunks(prev.0, seq![frame[p]], rest);
    lemma_uart_chunks(m0, frame.take(p), seq![frame[p]] + rest);
    assert(Seq::<UartByte>::empty() + (option_seq(ob) + Seq::<UartByte>::empty()) =~= seq![
        UartByte { value, sample_index: (2 * spb) as u64, framing_error: false },
    ]);
}

/// The samples of the framed bytes `values`, one after the other.
pub open spec fn uart_frames(values: Seq<u8>, spb: nat) -> Seq<u8>
    decreases values.len(),
{
    if values.len() == 0 {
        Seq::empty()
    } else {
        uart_frames(values.drop_last(), spb) + uart_frame(values.last(), spb)
    }
}

/// The bytes decoded from the frames of `values`: each one stamped with its
/// start bit, two bit times into its frame of fourteen.
pub open spec fn uart_frame_bytes(values: Seq<u8>, spb: nat) -> Seq<UartByte> {
    Seq::new(
        values.len(),
        |j: int| UartByte { value: values[j], sample_index: (14 * spb * j + 2 * spb) as u64, framing_error: false },
    )
}

/// Well-formed 8N1 frames one after the other on an idle line decode to
/// exactly their bytes, in order, each stamped with the index of its start
/// bit and without framing error — for any number of bytes, every byte value
/// and every bit time of at least one sample.
pub proof fn lemma_uart_decodes_frames(values: Seq<u8>, spb: u32)
    requires
        spb >= 1,
        spb / 2 + spb <= u32::MAX,
        14 * spb * values.len() < u64::MAX,
    ensures
        fresh_uart_decoder(spb).run(uart_frames(values, spb as nat)).1 == uart_frame_bytes(values, spb as nat),
        fresh_uart_decoder(spb).run(uart_frames(values, spb as nat)).0 == (UartModel {
            sample_offset: (14 * spb * values.len()) as u64,
            ..fresh_uart_decoder(spb)
        }),
    decreases values.len(),
{
    let m0 = fresh_uart_decoder(spb);
    let n = values.len();
    if n == 0 {
        assert(uart_frame_bytes(values, spb as nat) =~= Seq::<UartByte>::empty());
    } else {
        let init = values.drop_last();
        let v = values.last();
        let k: nat = (14 * spb * init.len()) as nat;
        assert(14 * spb * init.len() + 14 * spb == 14 * spb * n) by (nonlinear_arith)
            requires
                init.len() + 1 == n,
        ;
        assert(14 * spb * init.len() <= 14 * spb * n) by (nonlinear_arith)
            requires
                init.len() + 1 == n,
        ;
        lemma_uart_decodes_frames(init, spb);
        let a = m0.run(uart_frames(init, spb as nat));
        assert(a.0 == uart_shifted(m0, k));
        lemma_uart_decodes_frame(v, spb);
        let frame = uart_frame(v, spb as nat);
        lemma_uart_run_shifted(m0, k, frame);
        lemma_uart_chunks(m0, uart_frames(init, spb as nat), frame);
        let got = a.1 + m0.run(frame).1.map_values(|b: UartByte| uart_byte_shifted(b, k));
        let want = uart_frame_bytes(values, spb as nat);
        assert(m0.run(frame).1.map_values(|b: UartByte| uart_byte_shifted(b, k)) =~= seq![
            UartByte { value: v, sample_index: (k + 2 * spb) as u64, framing_error: false },
        ]);
        assert forall|j: int| 0 <= j < n implies got[j] == want[j] by {
            if j < init.len() {
                assert(init[j] == values[j]);
            }
        }
        assert(got =~= want);
    }
}


// ---------------------------------------------------------------------------
// What the UART decoder makes of any sample stream
// ---------------------------------------------------------------------------

/// The RX level at sample `i` of `x` on channel `c`; the line counts as idle
/// (high) before the first sample.
pub open spec fn rx_at(x: Seq<u8>, c: u8, i: int) -> bool {
    if i < 0 {
        true
    } else {
        channel_high(x[i], c)
    }
}

/// Where a byte starting at sample `s` has its stop bit sampled: half a bit
/// time into the start bit, then nine bit times on.
pub open spec fn uart_stop_point(s: int, spb: u32) -> int {
    s + (spb / 2) as int + 9 * (spb as int)
}

/// The start sample of the byte in progress once the first `n` samples of
/// `x` have been decoded: a byte starts at a falling edge of RX seen while
/// no byte is in progress, and is over once its stop bit has been sampled.
pub open spec fn uart_active_start(x: Seq<u8>, c: u8, spb: u32, n: int) -> Option<int>
    decreases n,
{
    if n <= 0 {
        None
    } else {
        let i = n - 1;
        match uart_active_start(x, c, spb, i) {
            Some(s) => if i == uart_stop_point(s, spb) {
                None
            } else {
                Some(s)
            },
            None => if rx_at(x, c, i - 1) && !rx_at(x, c, i) {
                Some(i)
            } else {
                None
            },
        }
    }
}

/// The first `k` data bits of the byte starting at sample `s`, least
/// significant first: bit `j` is sampled at `s + spb / 2 + (j + 1) * spb`.
pub open spec fn uart_bits_value(x: Seq<u8>, c: u8, spb: u32, s: int, k: nat) -> u8
    decreases k,
{
    if k == 0 {
        0
    } else {
        let bit = if rx_at(x, c, s + (spb / 2) as int + k * (spb as int)) {
            1u8
        } else {
            0u8
        };
        (uart_bits_value(x, c, spb, s, (k - 1) as nat) | (bit << ((k - 1) as u8))) as u8
    }
}

/// The byte, if any, that sample `i` of `x` completes: the one in progress
/// when sample `i` is its stop-bit sample, with its eight data bits, its
/// start sample, and a framing error when the stop bit is low.
pub open spec fn uart_byte_at(x: Seq<u8>, c: u8, spb: u32, i: int) -> Seq<UartByte> {
    match uart_active_start(x, c, spb, i) {
        Some(s) => if i == uart_stop_point(s, spb) {
            seq![UartByte { value: uart_bits_value(x, c, spb, s, 8), sample_index: s as u64, framing_error: !rx_at(x, c, i) }]
        } else {
            Seq::empty()
        },
        None => Seq::empty(),
    }
}

/// The bytes that the first `n` samples of `x` complete, in order.
pub open spec fn uart_stream_bytes(x: Seq<u8>, c: u8, spb: u32, n: int) -> Seq<UartByte>
    decreases n,
{
    if n <= 0 {
        Seq::empty()
    } else {
        uart_stream_bytes(x, c, spb, n - 1) + uart_byte_at(x, c, spb, n - 1)
    }
}

/// The decoder state that the first `n` samples of `x` leave, as the stream
/// determines it.
pub open spec fn uart_state_fits(x: Seq<u8>, c: u8, spb: u32, n: int, r: UartModel) -> bool {
    let p = spb as int;
    let h = (spb / 2) as int;
    &&& r.rx_bit == c
    &&& r.samples_per_bit == spb
    &&& r.sample_offset == n
    &&& r.prev_rx == rx_at(x, c, n - 1)
    &&& match uart_active_start(x, c, spb, n) {
        None => r.state == UartState::Idle,
        Some(s) => s < n && match r.state {
            UartState::Receiving { byte_val, bit_count, samples_to_next, start_index } => {
                &&& start_index == s
                &&& bit_count < 8
                &&& byte_val == uart_bits_value(x, c, spb, s, bit_count as nat)
                &&& samples_to_next >= 1
                &&& n + samples_to_next - 1 == s + h + (bit_count + 1) * p
            },
            UartState::WaitStop { byte_val, samples_to_next, start_index } => {
                &&& start_index == s
                &&& byte_val == uart_bits_value(x, c, spb, s, 8)
                &&& samples_to_next >= 1
                &&& n + samples_to_next - 1 == uart_stop_point(s, spb)
            },
            UartState::Idle => false,
        },
    }
}

#[verifier::spinoff_prover]
#[verifier::rlimit(60)]
proof fn lemma_uart_stream_step(x: Seq<u8>, c: u8, spb: u32, n: int, r: UartModel)
    requires
        spb >= 1,
        spb / 2 + spb <= u32::MAX,
        0 <= n < x.len(),
        x.len() < u64::MAX,
        uart_state_fits(x, c, spb, n, r),
    ensures
        uart_state_fits(x, c, spb, n + 1, r.step(x[n]).0),
        option_seq(r.step(x[n]).1) == uart_byte_at(x, c, spb, n),
{
    let p = spb as int;
    let h = (spb / 2) as int;
    let rx = channel_high(x[n], c);
    assert(rx_at(x, c, n) == rx);
    match uart_active_start(x, c, spb, n) {
        None => {},
        Some(s) => {
            match r.state {
                UartState::Receiving { byte_val, bit_count, samples_to_next, start_index } => {
                    let k = bit_count as int;
                    assert((k + 1) * p <= 8 * p) by (nonlinear_arith)
                        requires
                            k < 8,
                            p >= 1,
                    ;
                    assert(n < uart_stop_point(s, spb));
                    if samples_to_next == 1 {
                        assert((k + 2) * p == (k + 1) * p + p) by (nonlinear_arith);
                        assert(n == s + h + (k + 1) * p);
                        assert(uart_bits_value(x, c, spb, s, (k + 1) as nat) == (byte_val | ((if rx { 1u8 } else { 0u8 }) << bit_count)) as u8);
                        if k == 7 {
                            assert(9 * p == 8 * p + p);
                        }
                    }
                },
                UartState::WaitStop { byte_val, samples_to_next, start_index } => {},
                UartState::Idle => {},
            }
        },
    }
}

/// Any RX sample stream, fed to a freshly created decoder, decodes to the
/// bytes the stream itself determines: a byte starts at each falling edge of
/// RX seen while no byte is in progress, its data bits are sampled half a bit
/// time into the start bit and then one bit time apart, least significant
/// first, and it is complete, with a framing error when the stop bit is low,
/// once its stop bit has been sampled; nothing else is decoded.
pub proof fn lemma_uart_decodes_stream(x: Seq<u8>, c: u8, spb: u32, n: int)
    requires
        spb >= 1,
        spb / 2 + spb <= u32::MAX,
        0 <= n <= x.len(),
        x.len() < u64::MAX,
    ensures
        ({
            let fresh = UartModel { rx_bit: c, samples_per_bit: spb, state: UartState::Idle, prev_rx: true, sample_offset: 0 };
            &&& fresh.run(x.take(n)).1 == uart_stream_bytes(x, c, spb, n)
            &&& uart_state_fits(x, c, spb, n, fresh.run(x.take(n)).0)
        }),
    decreases n,
{
    let fresh = UartModel { rx_bit: c, samples_per_bit: spb, state: UartState::Idle, prev_rx: true, sample_offset: 0 };
    if n == 0 {
        assert(x.take(0) =~= Seq::<u8>::empty());
    } else {
        lemma_uart_decodes_stream(x, c, spb, n - 1);
        assert(x.take(n).drop_last() =~= x.take(n - 1));
        assert(x.take(n).last() == x[n - 1]);
        lemma_uart_stream_step(x, c, spb, n - 1, fresh.run(x.take(n - 1)).0);
    }
}

} // verus!
