//! State of the terminal logic analyzer: the sample ring buffer, the view
//! settings, the decoded events, and the decisions taken on key presses and
//! capture messages.
use vstd::prelude::*;

use crate::decode::{channel_high, I2cDecoder, I2cFrame, I2cModel, UartByte, UartDecoder, UartModel};
use crate::text::{decimal, push_decimal};

verus! {

/// Maximum number of raw samples kept in the ring buffer.
pub const MAX_SAMPLES: usize = 65536;

/// Decoded protocol event with a display string.
#[derive(Debug, Clone)]
pub struct DecodedEvent {
    pub text: String,
}

/// Messages sent from the capture task to the UI loop.
pub enum CaptureMsg {
    /// A chunk of raw sample bytes.
    Samples(Vec<u8>),
    /// Capture has stopped (with a status string).
    Stopped(String),
    /// An error occurred.
    Error(String),
}

/// Which protocol decoder to use.
#[derive(Debug, Clone, Copy)]
pub enum DecoderKind {
    I2c { sda_channel: u8, scl_channel: u8 },
    Uart { rx_channel: u8, baud_rate: u32 },
}

enum DecoderInner {
    I2c(I2cDecoder),
    Uart(UartDecoder),
}

/// The abstract state of a [`Decoder`].
pub enum DecoderModel {
    I2c(I2cModel),
    Uart(UartModel),
}

/// Wrapper around the protocol decoders that produces human-readable strings.
pub struct Decoder {
    inner: DecoderInner,
}

/// The display texts of `frames`, in order.
pub open spec fn frame_texts(frames: Seq<I2cFrame>) -> Seq<Seq<char>> {
    frames.map_values(|f: I2cFrame| f.text())
}

/// The display texts of `bytes`, in order.
pub open spec fn byte_texts(bytes: Seq<UartByte>) -> Seq<Seq<char>> {
    bytes.map_values(|b: UartByte| b.text())
}

/// The texts held by `v`, in order.
pub open spec fn string_views(v: Seq<String>) -> Seq<Seq<char>> {
    v.map_values(|s: String| s@)
}

/// Mapping a sequence with one more element at its end gives the mapped
/// sequence with the mapped element at its end.
proof fn lemma_map_values_push<A, B>(s: Seq<A>, x: A, f: spec_fn(A) -> B)
    ensures
        s.push(x).map_values(f) == s.map_values(f).push(f(x)),
{
    assert(s.push(x).map_values(f) =~= s.map_values(f).push(f(x)));
}

impl DecoderModel {
    /// The decoder can take `n` more samples.
    pub open spec fn can_feed(self, n: nat) -> bool {
        match self {
            DecoderModel::I2c(m) => (n > 0 ==> m.channels_valid()) && m.sample_offset + n <= u64::MAX,
            DecoderModel::Uart(m) => (n > 0 ==> m.decodable()) && m.sample_offset + n <= u64::MAX,
        }
    }

    /// Decoding `samples`: the next state and the texts of the decoded events.
    pub open spec fn feed(self, samples: Seq<u8>) -> (DecoderModel, Seq<Seq<char>>) {
        match self {
            DecoderModel::I2c(m) => (DecoderModel::I2c(m.run(samples).0), frame_texts(m.run(samples).1)),
            DecoderModel::Uart(m) => (DecoderModel::Uart(m.run(samples).0), byte_texts(m.run(samples).1)),
        }
    }
}

impl Decoder {
    /// The abstract state of the decoder.
    pub closed spec fn view(self) -> DecoderModel {
        match self.inner {
            DecoderInner::I2c(d) => DecoderModel::I2c(d.view()),
            DecoderInner::Uart(d) => DecoderModel::Uart(d.view()),
        }
    }

    /// Create a decoder from the configuration.
    pub fn new(kind: &DecoderKind, sample_rate_hz: u32) -> (d: Self)
        requires
            kind matches DecoderKind::Uart { baud_rate, .. } ==> baud_rate > 0,
        ensures
            match *kind {
                DecoderKind::I2c { sda_channel, scl_channel } => d.view() == DecoderModel::I2c(
                    I2cModel {
                        sda_bit: sda_channel,
                        scl_bit: scl_channel,
                        state: crate::decode::I2cState::Idle,
                        prev_sda: true,
                        prev_scl: true,
                        sample_offset: 0,
                        byte_start: 0,
                        sample_rate_hz,
                    },
                ),
                DecoderKind::Uart { rx_channel, baud_rate } => d.view() == DecoderModel::Uart(
                    UartModel {
                        rx_bit: rx_channel,
                        samples_per_bit: sample_rate_hz / baud_rate,
                        state: crate::decode::UartState::Idle,
                        prev_rx: true,
                        sample_offset: 0,
                    },
                ),
            },
    {
        let inner = match kind {
            DecoderKind::I2c { sda_channel, scl_channel } => DecoderInner::I2c(
                I2cDecoder::new(*sda_channel, *scl_channel, sample_rate_hz),
            ),
            DecoderKind::Uart { rx_channel, baud_rate } => DecoderInner::Uart(
                UartDecoder::new(*rx_channel, sample_rate_hz, *baud_rate),
            ),
        };
        Decoder { inner }
    }

    /// Whether [`Decoder::feed`] can take `n` more samples.
    pub fn can_feed(&self, n: usize) -> (b: bool)
        ensures
            b == self.view().can_feed(n as nat),
    {
        match &self.inner {
            DecoderInner::I2c(d) => d.can_feed(n),
            DecoderInner::Uart(d) => d.can_feed(n),
        }
    }

    /// Feed raw samples and return decoded event strings.
    pub fn feed(&mut self, samples: &[u8]) -> (texts: Vec<String>)
        requires
            old(self).view().can_feed(samples@.len()),
        ensures
            (final(self).view(), string_views(texts@)) == old(self).view().feed(samples@),
    {
        let mut texts: Vec<String> = Vec::new();
        match &mut self.inner {
            DecoderInner::I2c(dec) => {
                let frames = dec.feed(samples).collect();
                let mut i: usize = 0;
                while i < frames.len()
                    invariant
                        0 <= i <= frames@.len(),
                        string_views(texts@) =~= frame_texts(frames@.take(i as int)),
                    decreases frames@.len() - i,
                {
                    let t = frames[i].to_string();
                    let ghost prev = texts@;
                    texts.push(t);
                    i += 1;
                    proof {
                        assert(frames@.take(i as int) =~= frames@.take(i - 1).push(frames@[i - 1]));
                        lemma_map_values_push(prev, t, |s: String| s@);
                        lemma_map_values_push(frames@.take(i - 1), frames@[i - 1], |f: I2cFrame| f.text());
                    }
                }
                proof {
                    assert(frames@.take(i as int) =~= frames@);
                }
            },
            DecoderInner::Uart(dec) => {
                let bytes = dec.feed(samples).collect();
                let mut i: usize = 0;
                while i < bytes.len()
                    invariant
                        0 <= i <= bytes@.len(),
                        string_views(texts@) =~= byte_texts(bytes@.take(i as int)),
                    decreases bytes@.len() - i,
                {
                    let t = bytes[i].to_string();
                    let ghost prev = texts@;
                    texts.push(t);
                    i += 1;
                    proof {
                        assert(bytes@.take(i as int) =~= bytes@.take(i - 1).push(bytes@[i - 1]));
                        lemma_map_values_push(prev, t, |s: String| s@);
                        lemma_map_values_push(bytes@.take(i - 1), bytes@[i - 1], |b: UartByte| b.text());
                    }
                }
                proof {
                    assert(bytes@.take(i as int) =~= bytes@);
                }
            },
        }
        texts
    }
}

/// One sample pushed into a ring buffer that keeps at most [`MAX_SAMPLES`]:
/// when the buffer is full, the oldest sample leaves first.
pub open spec fn ring_push(buf: Seq<u8>, b: u8) -> Seq<u8> {
    if buf.len() >= MAX_SAMPLES {
        buf.drop_first().push(b)
    } else {
        buf.push(b)
    }
}

/// Samples pushed one after the other into the ring buffer.
pub open spec fn ring_push_all(buf: Seq<u8>, data: Seq<u8>) -> Seq<u8>
    decreases data.len(),
{
    if data.len() == 0 {
        buf
    } else {
        ring_push(ring_push_all(buf, data.drop_last()), data.last())
    }
}

/// The last `n` elements of `s` (all of them when there are fewer).
pub open spec fn last_n(s: Seq<u8>, n: nat) -> Seq<u8> {
    if s.len() <= n {
        s
    } else {
        s.skip(s.len() - n)
    }
}

/// The scroll position after scrolling left by one screen, `width` columns
/// of `zoom` samples each, stopping at the start.
pub open spec fn scrolled_left(scroll: usize, zoom: usize, width: usize) -> usize {
    if scroll >= zoom * width {
        (scroll - zoom * width) as usize
    } else {
        0
    }
}

/// The scroll position after scrolling right by ten columns of `zoom`
/// samples each, stopping at the end of the range.
pub open spec fn scrolled_right(scroll: usize, zoom: usize) -> usize {
    if scroll + zoom * 10 <= usize::MAX {
        (scroll + zoom * 10) as usize
    } else {
        usize::MAX
    }
}

/// The zoom level after zooming in.
pub open spec fn zoomed_in(zoom: usize) -> usize {
    if zoom > 1 {
        (zoom / 2) as usize
    } else {
        zoom
    }
}

/// The zoom level after zooming out.
pub open spec fn zoomed_out(zoom: usize) -> usize {
    if zoom < 1024 {
        (zoom * 2) as usize
    } else {
        zoom
    }
}

/// The zoom levels reachable from the initial level by zooming in and out:
/// the powers of two from 1 to 1024.
pub open spec fn is_zoom_level(z: usize) -> bool {
    z == 1 || z == 2 || z == 4 || z == 8 || z == 16 || z == 32 || z == 64 || z == 128 || z == 256
        || z == 512 || z == 1024
}

/// A key press the analyzer reacts to.
#[derive(Debug, Clone, Copy, PartialEq, Eq, Structural)]
pub enum Key {
    /// `q` or Esc.
    Quit,
    /// Space: start or stop a capture.
    StartStop,
    Left,
    Right,
    Up,
    Down,
    /// `+` or `=`.
    ZoomIn,
    /// `-`.
    ZoomOut,
    /// `c`.
    Clear,
    /// Any other key.
    Other,
}

/// What the UI loop has to do after a key press.
#[derive(Debug, Clone, Copy, PartialEq, Eq, Structural)]
pub enum KeyAction {
    /// Nothing beyond the state change.
    Continue,
    /// Signal the capture task to stop (if one runs) and leave the loop.
    Quit,
    /// Start a capture task.
    StartCapture,
    /// Signal the running capture task to stop.
    StopCapture,
}

/// Top-level application state shared between the UI and capture task.
pub struct App {
    /// Ring buffer of raw samples (keeps the last [`MAX_SAMPLES`]).
    pub samples: std::collections::VecDeque<u8>,
    /// Total number of samples received since capture started.
    pub sample_offset: u64,
    /// Whether a capture is currently running.
    pub running: bool,
    /// Horizontal scroll position (in samples) for the waveform view.
    pub scroll: usize,
    /// Zoom level — number of samples per display column.
    pub zoom: usize,
    /// Currently highlighted channel index.
    pub selected_channel: usize,
    /// Human-readable decoded protocol events.
    pub decoded_events: Vec<DecodedEvent>,
    /// Status bar text.
    pub status: String,
    /// Number of capture channels (pins).
    pub num_channels: usize,
    /// Sample rate in Hz.
    pub sample_rate_hz: u32,
    /// Pin numbers being captured.
    pub pins: Vec<u8>,
}

impl App {
    /// The texts of the decoded events, oldest first.
    pub open spec fn event_texts(self) -> Seq<Seq<char>> {
        self.decoded_events@.map_values(|e: DecodedEvent| e.text@)
    }

    pub fn new(pins: Vec<u8>, sample_rate_hz: u32) -> (app: Self)
        ensures
            app.samples@ == Seq::<u8>::empty(),
            app.sample_offset == 0,
            !app.running,
            app.scroll == 0,
            app.zoom == 1,
            app.selected_channel == 0,
            app.decoded_events@ == Seq::<DecodedEvent>::empty(),
            app.status@ == "Ready — press Space to start capture"@,
            app.num_channels == pins@.len(),
            app.sample_rate_hz == sample_rate_hz,
            app.pins@ == pins@,
    {
        let num_channels = pins.len();
        App {
            samples: std::collections::VecDeque::with_capacity(MAX_SAMPLES),
            sample_offset: 0,
            running: false,
            scroll: 0,
            zoom: 1,
            selected_channel: 0,
            decoded_events: Vec::new(),
            status: String::from_str("Ready — press Space to start capture"),
            num_channels,
            sample_rate_hz,
            pins,
        }
    }

    /// Append new raw samples from a capture chunk.
    pub fn push_samples(&mut self, data: &[u8])
        requires
            old(self).sample_offset + data@.len() <= u64::MAX,
        ensures
            final(self).samples@ == ring_push_all(old(self).samples@, data@),
            final(self).sample_offset == old(self).sample_offset + data@.len(),
            final(self).running == old(self).running,
            final(self).scroll == old(self).scroll,
            final(self).zoom == old(self).zoom,
            final(self).selected_channel == old(self).selected_channel,
            final(self).decoded_events@ == old(self).decoded_events@,
            final(self).status@ == old(self).status@,
            final(self).num_channels == old(self).num_channels,
            final(self).sample_rate_hz == old(self).sample_rate_hz,
            final(self).pins@ == old(self).pins@,
    {
        let mut i: usize = 0;
        while i < data.len()
            invariant
                0 <= i <= data@.len(),
                self.samples@ == ring_push_all(old(self).samples@, data@.take(i as int)),
                self.sample_offset == old(self).sample_offset,
                self.running == old(self).running,
                self.scroll == old(self).scroll,
                self.zoom == old(self).zoom,
                self.selected_channel == old(self).selected_channel,
                self.decoded_events@ == old(self).decoded_events@,
                self.status@ == old(self).status@,
                self.num_channels == old(self).num_channels,
                self.sample_rate_hz == old(self).sample_rate_hz,
                self.pins@ == old(self).pins@,
            decreases data@.len() - i,
        {
            proof {
                assert(data@.take(i + 1).drop_last() =~= data@.take(i as int));
            }
            let b = data[i];
            if self.samples.len() >= MAX_SAMPLES {
                self.samples.pop_front();
            }
            self.samples.push_back(b);
            i += 1;
            proof {
                let prev = ring_push_all(old(self).samples@, data@.take(i - 1));
                if prev.len() >= MAX_SAMPLES {
                    assert(self.samples@ =~= prev.drop_first().push(b));
                } else {
                    assert(self.samples@ =~= prev.push(b));
                }
            }
        }
        proof {
            assert(data@.take(i as int) =~= data@);
        }
        self.sample_offset = self.sample_offset + data.len() as u64;
    }

    /// Clear decoded events list.
    pub fn clear_decoded(&mut self)
        ensures
            final(self).decoded_events@ == Seq::<DecodedEvent>::empty(),
            final(self).samples@ == old(self).samples@,
            final(self).sample_offset == old(self).sample_offset,
            final(self).running == old(self).running,
            final(self).scroll == old(self).scroll,
            final(self).zoom == old(self).zoom,
            final(self).selected_channel == old(self).selected_channel,
            final(self).status@ == old(self).status@,
            final(self).num_channels == old(self).num_channels,
            final(self).sample_rate_hz == old(self).sample_rate_hz,
            final(self).pins@ == old(self).pins@,
    {
        self.decoded_events.clear();
    }

    /// Scroll left by one screen-width worth of samples: `width` is the number
    /// of waveform columns the screen shows.
    pub fn scroll_left(&mut self, width: usize)
        requires
            old(self).zoom * width <= usize::MAX,
        ensures
            final(self).scroll == scrolled_left(old(self).scroll, old(self).zoom, width),
            final(self).zoom == old(self).zoom,
            final(self).selected_channel == old(self).selected_channel,
            final(self).num_channels == old(self).num_channels,
            final(self).samples@ == old(self).samples@,
            final(self).sample_offset == old(self).sample_offset,
            final(self).running == old(self).running,
            final(self).decoded_events@ == old(self).decoded_events@,
            final(self).status@ == old(self).status@,
            final(self).sample_rate_hz == old(self).sample_rate_hz,
            final(self).pins@ == old(self).pins@,
    {
        self.scroll = self.scroll.saturating_sub(self.zoom * width);
    }

    /// Scroll right by ten columns' worth of samples.
    pub fn scroll_right(&mut self)
        requires
            old(self).zoom * 10 <= usize::MAX,
        ensures
            final(self).scroll == scrolled_right(old(self).scroll, old(self).zoom),
            final(self).zoom == old(self).zoom,
            final(self).selected_channel == old(self).selected_channel,
            final(self).num_channels == old(self).num_channels,
            final(self).samples@ == old(self).samples@,
            final(self).sample_offset == old(self).sample_offset,
            final(self).running == old(self).running,
            final(self).decoded_events@ == old(self).decoded_events@,
            final(self).status@ == old(self).status@,
            final(self).sample_rate_hz == old(self).sample_rate_hz,
            final(self).pins@ == old(self).pins@,
    {
        self.scroll = self.scroll.saturating_add(self.zoom * 10);
    }

    /// Select the previous channel.
    pub fn channel_up(&mut self)
        ensures
            final(self).selected_channel == (if old(self).selected_channel > 0 {
                old(self).selected_channel - 1
            } else {
                0
            }),
            final(self).num_channels == old(self).num_channels,
            final(self).scroll == old(self).scroll,
            final(self).zoom == old(self).zoom,
            final(self).samples@ == old(self).samples@,
            final(self).sample_offset == old(self).sample_offset,
            final(self).running == old(self).running,
            final(self).decoded_events@ == old(self).decoded_events@,
            final(self).status@ == old(self).status@,
            final(self).sample_rate_hz == old(self).sample_rate_hz,
            final(self).pins@ == old(self).pins@,
    {
        if self.selected_channel > 0 {
            self.selected_channel -= 1;
        }
    }

    /// Select the next channel.
    pub fn channel_down(&mut self)
        requires
            old(self).selected_channel < usize::MAX,
        ensures
            final(self).selected_channel == (if old(self).selected_channel + 1 < old(self).num_channels {
                old(self).selected_channel + 1
            } else {
                old(self).selected_channel as int
            }),
            final(self).num_channels == old(self).num_channels,
            final(self).scroll == old(self).scroll,
            final(self).zoom == old(self).zoom,
            final(self).samples@ == old(self).samples@,
            final(self).sample_offset == old(self).sample_offset,
            final(self).running == old(self).running,
            final(self).decoded_events@ == old(self).decoded_events@,
            final(self).status@ == old(self).status@,
            final(self).sample_rate_hz == old(self).sample_rate_hz,
            final(self).pins@ == old(self).pins@,
    {
        if self.selected_channel + 1 < self.num_channels {
            self.selected_channel += 1;
        }
    }

    /// Zoom in (fewer samples per column).
    pub fn zoom_in(&mut self)
        ensures
            final(self).zoom == zoomed_in(old(self).zoom),
            final(self).scroll == old(self).scroll,
            final(self).selected_channel == old(self).selected_channel,
            final(self).num_channels == old(self).num_channels,
            final(self).samples@ == old(self).samples@,
            final(self).sample_offset == old(self).sample_offset,
            final(self).running == old(self).running,
            final(self).decoded_events@ == old(self).decoded_events@,
            final(self).status@ == old(self).status@,
            final(self).sample_rate_hz == old(self).sample_rate_hz,
            final(self).pins@ == old(self).pins@,
    {
        if self.zoom > 1 {
            self.zoom /= 2;
            if self.zoom < 1 {
                self.zoom = 1;
            }
        }
    }

    /// Zoom out (more samples per column).
    pub fn zoom_out(&mut self)
        ensures
            final(self).zoom == zoomed_out(old(self).zoom),
            final(self).scroll == old(self).scroll,
            final(self).selected_channel == old(self).selected_channel,
            final(self).num_channels == old(self).num_channels,
            final(self).samples@ == old(self).samples@,
            final(self).sample_offset == old(self).sample_offset,
            final(self).running == old(self).running,
            final(self).decoded_events@ == old(self).decoded_events@,
            final(self).status@ == old(self).status@,
            final(self).sample_rate_hz == old(self).sample_rate_hz,
            final(self).pins@ == old(self).pins@,
    {
        if self.zoom < 1024 {
            self.zoom *= 2;
        }
    }
}

/// Pushing into a ring buffer that holds at most [`MAX_SAMPLES`] samples
/// keeps exactly the last [`MAX_SAMPLES`] samples of everything received.
pub proof fn lemma_ring_keeps_last(buf: Seq<u8>, data: Seq<u8>)
    requires
        buf.len() <= MAX_SAMPLES,
    ensures
        ring_push_all(buf, data) == last_n(buf + data, MAX_SAMPLES as nat),
        ring_push_all(buf, data).len() <= MAX_SAMPLES,
    decreases data.len(),
{
    if data.len() > 0 {
        lemma_ring_keeps_last(buf, data.drop_last());
        let prev = ring_push_all(buf, data.drop_last());
        let all = buf + data;
        assert(all.drop_last() =~= buf + data.drop_last());
        assert(all.last() == data.last());
        if prev.len() >= MAX_SAMPLES {
            assert(all.drop_last().len() >= MAX_SAMPLES);
            assert(prev.drop_first().push(data.last()) =~= last_n(all, MAX_SAMPLES as nat));
        } else {
            assert(prev =~= all.drop_last());
            assert(prev.push(data.last()) =~= all);
        }
    }
}

/// Pushing two chunks one after the other leaves the ring buffer as pushing
/// them at once.
pub proof fn lemma_ring_push_chunks(buf: Seq<u8>, a: Seq<u8>, b: Seq<u8>)
    ensures
        ring_push_all(ring_push_all(buf, a), b) == ring_push_all(buf, a + b),
    decreases b.len(),
{
    if b.len() == 0 {
        assert(a + b =~= a);
    } else {
        lemma_ring_push_chunks(buf, a, b.drop_last());
        assert((a + b).drop_last() =~= a + b.drop_last());
        assert((a + b).last() == b.last());
    }
}

/// Zooming keeps the zoom at one of the levels from 1 to 1024, and zooming
/// in undoes zooming out (and the reverse, above the lowest level).
pub proof fn lemma_zoom_levels(zoom: usize)
    ensures
        is_zoom_level(zoom) ==> is_zoom_level(zoomed_in(zoom)) && is_zoom_level(zoomed_out(zoom)),
        1 <= zoom < 1024 ==> zoomed_in(zoomed_out(zoom)) == zoom,
        is_zoom_level(zoom) && zoom > 1 ==> zoomed_out(zoomed_in(zoom)) == zoom,
{
}

/// Scrolling right (ten columns) and then left on a screen ten columns wide
/// returns to the starting position, unless scrolling right hit the end of
/// the range.
pub proof fn lemma_scroll_round_trip(scroll: usize, zoom: usize)
    requires
        scroll + zoom * 10 <= usize::MAX,
    ensures
        scrolled_left(scrolled_right(scroll, zoom), zoom, 10) == scroll,
{
}

/// Moving the channel selection up or down keeps it on an existing channel.
pub proof fn lemma_channel_in_range(selected: usize, num_channels: usize)
    requires
        selected < num_channels,
    ensures
        (if selected > 0 { selected - 1 } else { 0 }) < num_channels,
        (if selected + 1 < num_channels { selected + 1 } else { selected as int }) < num_channels,
{
}

/// A decoder's events do not depend on how the capture is cut into chunks:
/// feeding `a` and then `b` leaves the decoder in the same state, and yields
/// the same texts in the same order, as feeding `a + b` at once.
pub proof fn lemma_decoder_chunks(m: DecoderModel, a: Seq<u8>, b: Seq<u8>)
    ensures
        ({
            let (ma, ta) = m.feed(a);
            let (mb, tb) = ma.feed(b);
            m.feed(a + b) == (mb, ta + tb)
        }),
{
    match m {
        DecoderModel::I2c(d) => {
            crate::decode::lemma_i2c_chunks(d, a, b);
            let fa = d.run(a).1;
            let fb = d.run(a).0.run(b).1;
            assert(frame_texts(fa + fb) =~= frame_texts(fa) + frame_texts(fb));
        },
        DecoderModel::Uart(d) => {
            crate::decode::lemma_uart_chunks(d, a, b);
            let ba = d.run(a).1;
            let bb = d.run(a).0.run(b).1;
            assert(byte_texts(ba + bb) =~= byte_texts(ba) + byte_texts(bb));
        },
    }
}

/// The samples of `chunks`, one chunk after the other.
pub open spec fn concat_chunks(chunks: Seq<Seq<u8>>) -> Seq<u8>
    decreases chunks.len(),
{
    if chunks.len() == 0 {
        Seq::empty()
    } else {
        concat_chunks(chunks.drop_last()) + chunks.last()
    }
}

/// Feeding `chunks` one after the other: the decoder's state after the last
/// one, and the texts of every chunk, in order.
pub open spec fn feed_chunks(m: DecoderModel, chunks: Seq<Seq<u8>>) -> (DecoderModel, Seq<Seq<char>>)
    decreases chunks.len(),
{
    if chunks.len() == 0 {
        (m, Seq::empty())
    } else {
        let (a, ta) = feed_chunks(m, chunks.drop_last());
        let (b, tb) = a.feed(chunks.last());
        (b, ta + tb)
    }
}

/// Over any sequence of chunks, a decoder yields the texts that its protocol
/// decoder yields for all their samples at once (the frame or byte texts of
/// the inner decoder's run), and ends in the same state.
pub proof fn lemma_decoder_chunk_sequence(m: DecoderModel, chunks: Seq<Seq<u8>>)
    ensures
        feed_chunks(m, chunks) == m.feed(concat_chunks(chunks)),
    decreases chunks.len(),
{
    if chunks.len() == 0 {
        match m {
            DecoderModel::I2c(d) => {
                assert(frame_texts(Seq::<I2cFrame>::empty()) =~= Seq::<Seq<char>>::empty());
            },
            DecoderModel::Uart(d) => {
                assert(byte_texts(Seq::<UartByte>::empty()) =~= Seq::<Seq<char>>::empty());
            },
        }
    } else {
        lemma_decoder_chunk_sequence(m, chunks.drop_last());
        lemma_decoder_chunks(m, concat_chunks(chunks.drop_last()), chunks.last());
    }
}

/// The status text shown once a capture has stopped.
pub open spec fn stopped_status_text(total_samples: u64, chunks_sent: u64) -> Seq<char> {
    "Stopped — "@ + decimal(total_samples as nat) + " samples, "@ + decimal(chunks_sent as nat)
        + " chunks"@
}

/// The status text shown once a capture has stopped: the number of samples
/// and of chunks the device sent.
pub fn stopped_status(total_samples: u64, chunks_sent: u64) -> (s: String)
    ensures
        s@ == stopped_status_text(total_samples, chunks_sent),
{
    let mut s = String::from_str("Stopped — ");
    push_decimal(&mut s, total_samples);
    s.append(" samples, ");
    push_decimal(&mut s, chunks_sent);
    s.append(" chunks");
    s
}

impl App {
    /// React to a key press: update the view state and say what the UI loop
    /// has to do. `width` is the number of waveform columns the screen shows,
    /// which sets how far the left arrow scrolls back; the right arrow scrolls
    /// ten columns.
    pub fn handle_key(&mut self, key: Key, width: usize) -> (action: KeyAction)
        requires
            key == Key::Left ==> old(self).zoom * width <= usize::MAX,
            key == Key::Right ==> old(self).zoom * 10 <= usize::MAX,
            key == Key::Down ==> old(self).selected_channel < usize::MAX,
        ensures
            action == (match key {
                Key::Quit => KeyAction::Quit,
                Key::StartStop => if old(self).running {
                    KeyAction::StopCapture
                } else {
                    KeyAction::StartCapture
                },
                _ => KeyAction::Continue,
            }),
            key == Key::StartStop ==> final(self).running == true,
            key == Key::StartStop && old(self).running ==> final(self).status@ == "Stopping…"@,
            key == Key::StartStop && !old(self).running ==> final(self).status@ == "Capturing…"@,
            key != Key::StartStop ==> final(self).running == old(self).running && final(self).status@
                == old(self).status@,
            final(self).scroll == (match key {
                Key::Left => scrolled_left(old(self).scroll, old(self).zoom, width),
                Key::Right => scrolled_right(old(self).scroll, old(self).zoom),
                _ => old(self).scroll,
            }),
            final(self).zoom == (match key {
                Key::ZoomIn => zoomed_in(old(self).zoom),
                Key::ZoomOut => zoomed_out(old(self).zoom),
                _ => old(self).zoom,
            }),
            final(self).selected_channel == (match key {
                Key::Up => if old(self).selected_channel > 0 {
                    (old(self).selected_channel - 1) as usize
                } else {
                    0
                },
                Key::Down => if old(self).selected_channel + 1 < old(self).num_channels {
                    (old(self).selected_channel + 1) as usize
                } else {
                    old(self).selected_channel
                },
                _ => old(self).selected_channel,
            }),
            final(self).decoded_events@ == (if key == Key::Clear {
                Seq::<DecodedEvent>::empty()
            } else {
                old(self).decoded_events@
            }),
            final(self).samples@ == old(self).samples@,
            final(self).sample_offset == old(self).sample_offset,
            final(self).num_channels == old(self).num_channels,
            final(self).sample_rate_hz == old(self).sample_rate_hz,
            final(self).pins@ == old(self).pins@,
    {
        match key {
            Key::Quit => KeyAction::Quit,
            Key::StartStop => {
                if self.running {
                    self.status = String::from_str("Stopping…");
                    KeyAction::StopCapture
                } else {
                    self.running = true;
                    self.status = String::from_str("Capturing…");
                    KeyAction::StartCapture
                }
            },
            Key::Left => {
                self.scroll_left(width);
                KeyAction::Continue
            },
            Key::Right => {
                self.scroll_right();
                KeyAction::Continue
            },
            Key::Up => {
                self.channel_up();
                KeyAction::Continue
            },
            Key::Down => {
                self.channel_down();
                KeyAction::Continue
            },
            Key::ZoomIn => {
                self.zoom_in();
                KeyAction::Continue
            },
            Key::ZoomOut => {
                self.zoom_out();
                KeyAction::Continue
            },
            Key::Clear => {
                self.clear_decoded();
                KeyAction::Continue
            },
            Key::Other => KeyAction::Continue,
        }
    }

    /// React to a message of the capture task: decode and store new samples,
    /// or record that the capture ended.
    pub fn handle_capture_msg(&mut self, decoder: &mut Option<Decoder>, msg: CaptureMsg)
        requires
            msg matches CaptureMsg::Samples(data) ==> {
                &&& old(self).sample_offset + data@.len() <= u64::MAX
                &&& *old(decoder) matches Some(d) ==> d.view().can_feed(data@.len())
            },
        ensures
            match msg {
                CaptureMsg::Samples(data) => {
                    &&& final(self).samples@ == ring_push_all(old(self).samples@, data@)
                    &&& final(self).sample_offset == old(self).sample_offset + data@.len()
                    &&& final(self).running == old(self).running
                    &&& final(self).status@ == old(self).status@
                    &&& match *old(decoder) {
                        Some(d) => {
                            let (m, texts) = d.view().feed(data@);
                            &&& *final(decoder) matches Some(d2) && d2.view() == m
                            &&& final(self).event_texts() == old(self).event_texts() + texts
                        },
                        None => {
                            &&& *final(decoder) is None
                            &&& final(self).event_texts() == old(self).event_texts()
                        },
                    }
                },
                CaptureMsg::Stopped(status) => {
                    &&& !final(self).running
                    &&& final(self).status@ == status@
                    &&& final(self).samples@ == old(self).samples@
                    &&& final(self).sample_offset == old(self).sample_offset
                    &&& final(self).event_texts() == old(self).event_texts()
                },
                CaptureMsg::Error(err) => {
                    &&& !final(self).running
                    &&& final(self).status@ == "Error: "@ + err@
                    &&& final(self).samples@ == old(self).samples@
                    &&& final(self).sample_offset == old(self).sample_offset
                    &&& final(self).event_texts() == old(self).event_texts()
                },
            },
            final(self).scroll == old(self).scroll,
            final(self).zoom == old(self).zoom,
            final(self).selected_channel == old(self).selected_channel,
            final(self).num_channels == old(self).num_channels,
    {
        match msg {
            CaptureMsg::Samples(samples) => {
                match decoder {
                    Some(dec) => {
                        let texts = dec.feed(samples.as_slice());
                        let ghost start = self.event_texts();
                        let mut i: usize = 0;
                        while i < texts.len()
                            invariant
                                0 <= i <= texts@.len(),
                                self.event_texts() =~= start + string_views(texts@.take(i as int)),
                                self.samples@ == old(self).samples@,
                                self.sample_offset == old(self).sample_offset,
                                self.running == old(self).running,
                                self.status@ == old(self).status@,
                                self.scroll == old(self).scroll,
                                self.zoom == old(self).zoom,
                                self.selected_channel == old(self).selected_channel,
                                self.num_channels == old(self).num_channels,
                            decreases texts@.len() - i,
                        {
                            let ghost prev = self.decoded_events@;
                            let text = texts[i].clone();
                            self.decoded_events.push(DecodedEvent { text });
                            i += 1;
                            proof {
                                assert(texts@.take(i as int) =~= texts@.take(i - 1).push(texts@[i - 1]));
                                lemma_map_values_push(prev, DecodedEvent { text }, |e: DecodedEvent| e.text@);
                                lemma_map_values_push(texts@.take(i - 1), texts@[i - 1], |s: String| s@);
                                assert(self.event_texts() =~= start + string_views(texts@.take(i as int)));
                            }
                        }
                        proof {
                            assert(texts@.take(i as int) =~= texts@);
                        }
                    },
                    None => {},
                }
                self.push_samples(samples.as_slice());
            },
            CaptureMsg::Stopped(status) => {
                self.running = false;
                self.status = status;
            },
            CaptureMsg::Error(err) => {
                self.running = false;
                let mut s = String::from_str("Error: ");
                s.append(err.as_str());
                self.status = s;
            },
        }
    }
}

/// What one column of a channel's waveform shows.
#[derive(Debug, Clone, Copy, PartialEq, Eq, Structural)]
pub enum WaveCell {
    /// The sample shown has the channel high.
    High,
    /// The sample shown has the channel low.
    Low,
    /// No sample at this position.
    Empty,
}

/// The cell of column `col` of channel `ch`: the sample at
/// `scroll + col * zoom`, if there is one.
pub open spec fn wave_cell(samples: Seq<u8>, scroll: int, zoom: int, ch: int, col: int) -> WaveCell {
    let idx = scroll + col * zoom;
    if idx < samples.len() {
        if (samples[idx] >> (ch as u8)) & 1u8 == 1u8 {
            WaveCell::High
        } else {
            WaveCell::Low
        }
    } else {
        WaveCell::Empty
    }
}

/// A waveform cell shows the level of its channel in the sample it stands
/// for: high exactly when the channel is high in that sample (as the protocol
/// decoders read a channel), low otherwise, and empty past the last sample.
pub proof fn lemma_wave_cell_level(samples: Seq<u8>, scroll: int, zoom: int, ch: int, col: int)
    requires
        0 <= ch < 8,
        0 <= scroll + col * zoom,
    ensures
        scroll + col * zoom < samples.len() ==> wave_cell(samples, scroll, zoom, ch, col) != WaveCell::Empty,
        scroll + col * zoom < samples.len() ==> (wave_cell(samples, scroll, zoom, ch, col) == WaveCell::High
            <==> channel_high(samples[scroll + col * zoom], ch as u8)),
        scroll + col * zoom >= samples.len() ==> wave_cell(samples, scroll, zoom, ch, col) == WaveCell::Empty,
{
}

impl App {
    /// The cells of the waveform row of channel `ch`, `cols` columns wide,
    /// starting at the scroll position and stepping by the zoom level.
    pub fn waveform_row(&self, ch: usize, cols: usize) -> (row: Vec<WaveCell>)
        requires
            ch < 8,
            cols > 0 ==> self.scroll + (cols - 1) * self.zoom <= usize::MAX,
        ensures
            row@.len() == cols,
            forall|col: int|
                0 <= col < cols && self.scroll + col * self.zoom < self.samples@.len() ==> (#[trigger] row@[col]
                    == WaveCell::High <==> channel_high(self.samples@[self.scroll + col * self.zoom], ch as u8)),
            forall|col: int|
                0 <= col < cols && self.scroll + col * self.zoom >= self.samples@.len() ==> #[trigger] row@[col]
                    == WaveCell::Empty,
            forall|col: int| 0 <= col < cols ==> #[trigger] row@[col] == wave_cell(
                self.samples@,
                self.scroll as int,
                self.zoom as int,
                ch as int,
                col,
            ),
    {
        let mut row: Vec<WaveCell> = Vec::new();
        let mut col: usize = 0;
        while col < cols
            invariant
                0 <= col <= cols,
                ch < 8,
                cols > 0 ==> self.scroll + (cols - 1) * self.zoom <= usize::MAX,
                row@.len() == col,
                forall|c: int| 0 <= c < col ==> #[trigger] row@[c] == wave_cell(
                    self.samples@,
                    self.scroll as int,
                    self.zoom as int,
                    ch as int,
                    c,
                ),
            decreases cols - col,
        {
            proof {
                assert(col * self.zoom <= (cols - 1) * self.zoom) by (nonlinear_arith)
                    requires
                        col < cols,
                ;
            }
            let sample_idx = self.scroll + col * self.zoom;
            let cell = if sample_idx < self.samples.len() {
                let sample = self.samples[sample_idx];
                let c8 = ch as u8;
                if (sample >> c8) & 1 == 1 {
                    WaveCell::High
                } else {
                    WaveCell::Low
                }
            } else {
                WaveCell::Empty
            };
            row.push(cell);
            col += 1;
        }
        row
    }

    /// The texts of the `n` most recent decoded events (all of them when
    /// there are fewer), newest first.
    pub fn recent_event_texts(&self, n: usize) -> (v: Vec<String>)
        ensures
            v@.len() == (if n < self.decoded_events@.len() {
                n as nat
            } else {
                self.decoded_events@.len()
            }),
            forall|i: int|
                0 <= i < v@.len() ==> #[trigger] v@[i]@ == self.event_texts()[self.decoded_events@.len() - 1 - i],
    {
        let len = self.decoded_events.len();
        let count = if n < len {
            n
        } else {
            len
        };
        let mut v: Vec<String> = Vec::new();
        let mut i: usize = 0;
        while i < count
            invariant
                0 <= i <= count,
                count <= len,
                len == self.decoded_events@.len(),
                v@.len() == i,
                forall|j: int|
                    0 <= j < i ==> #[trigger] v@[j]@ == self.event_texts()[len - 1 - j],
            decreases count - i,
        {
            let text = self.decoded_events[len - 1 - i].text.clone();
            v.push(text);
            i += 1;
        }
        v
    }

    /// The text of the status bar: run state, sample rate, pins, samples
    /// received, zoom level and status message.
    pub fn status_line(&self) -> (s: String)
        ensures
            s@ == " "@ + (if self.running { "RUNNING"@ } else { "STOPPED"@ }) + " | Rate: "@ + decimal(
                self.sample_rate_hz as nat,
            ) + " Hz | Pins: "@ + pin_list(self.pins@) + " | Samples: "@ + decimal(
                self.sample_offset as nat,
            ) + " | Zoom: "@ + decimal(self.zoom as nat) + "x | "@ + self.status@,
    {
        let mut s = String::from_str(" ");
        if self.running {
            s.append("RUNNING");
        } else {
            s.append("STOPPED");
        }
        s.append(" | Rate: ");
        push_decimal(&mut s, self.sample_rate_hz as u64);
        s.append(" Hz | Pins: ");
        push_pin_list(&mut s, &self.pins);
        s.append(" | Samples: ");
        push_decimal(&mut s, self.sample_offset);
        s.append(" | Zoom: ");
        push_decimal(&mut s, self.zoom as u64);
        s.append("x | ");
        s.append(self.status.as_str());
        s
    }
}

/// The pin numbers in decimal, separated by commas.
pub open spec fn pin_list(pins: Seq<u8>) -> Seq<char>
    decreases pins.len(),
{
    if pins.len() == 0 {
        Seq::empty()
    } else if pins.len() == 1 {
        decimal(pins[0] as nat)
    } else {
        pin_list(pins.drop_last()) + seq![','] + decimal(pins.last() as nat)
    }
}

/// Append the comma-separated pin list to `s`.
pub fn push_pin_list(s: &mut String, pins: &Vec<u8>)
    ensures
        final(s)@ == old(s)@ + pin_list(pins@),
{
    proof {
        reveal_strlit(",");
    }
    let ghost s0 = s@;
    let mut i: usize = 0;
    while i < pins.len()
        invariant
            0 <= i <= pins@.len(),
            s@ == s0 + pin_list(pins@.take(i as int)),
        decreases pins@.len() - i,
    {
        proof {
            reveal_strlit(",");
            assert(pins@.take(i + 1).drop_last() =~= pins@.take(i as int));
            assert(pins@.take(i + 1).last() == pins@[i as int]);
        }
        let ghost before = s@;
        if i > 0 {
            s.append(",");
        }
        push_decimal(s, pins[i] as u64);
        i += 1;
        proof {
            if i == 1 {
                assert(pins@.take(1) =~= seq![pins@[0]]);
                assert(pin_list(pins@.take(0)) =~= Seq::<char>::empty());
            }
            assert(s@ =~= s0 + pin_list(pins@.take(i as int)));
        }
    }
    proof {
        assert(pins@.take(i as int) =~= pins@);
    }
}

/// The label of a channel row: `P`, the pin number padded to two columns,
/// and a space.
pub open spec fn channel_label_text(pin: u8) -> Seq<char> {
    seq!['P'] + decimal(pin as nat) + (if pin < 10 { seq![' '] } else { Seq::empty() }) + seq![' ']
}

/// The label of a channel row (see [`channel_label_text`]).
pub fn channel_label(pin: u8) -> (s: String)
    ensures
        s@ == channel_label_text(pin),
{
    proof {
        reveal_strlit("P");
        reveal_strlit(" ");
    }
    let mut s = String::from_str("P");
    push_decimal(&mut s, pin as u64);
    if pin < 10 {
        s.append(" ");
    }
    s.append(" ");
    proof {
        assert(pin < 10 ==> decimal(pin as nat) =~= seq![crate::text::digit_char(pin as nat, true)]);
    }
    s
}

} // verus!
