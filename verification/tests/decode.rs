use pico_de_gallo::decode::{I2cDecoder, I2cFrame, UartByte, UartDecoder};

// Helper: generate I2C waveform samples.
// Each sample byte: bit 0 = SDA, bit 1 = SCL.
fn i2c_idle() -> u8 {
    0b11 // SDA=1, SCL=1
}
fn i2c_sda_low_scl_high() -> u8 {
    0b10 // SDA=0, SCL=1
}
fn i2c_sda_high_scl_low() -> u8 {
    0b01 // SDA=1, SCL=0
}
fn i2c_both_low() -> u8 {
    0b00 // SDA=0, SCL=0
}

/// Build a synthetic I2C waveform that sends a START, one byte, ACK, STOP.
fn make_i2c_byte_waveform(byte_val: u8, ack: bool) -> Vec<u8> {
    let mut samples = Vec::new();
    samples.extend_from_slice(&[i2c_idle(); 4]);
    samples.push(i2c_sda_low_scl_high());
    for bit_idx in (0..8).rev() {
        let sda_val = (byte_val >> bit_idx) & 1;
        if sda_val == 1 {
            samples.push(i2c_sda_high_scl_low());
        } else {
            samples.push(i2c_both_low());
        }
        if sda_val == 1 {
            samples.push(i2c_idle());
        } else {
            samples.push(i2c_sda_low_scl_high());
        }
        if sda_val == 1 {
            samples.push(i2c_sda_high_scl_low());
        } else {
            samples.push(i2c_both_low());
        }
    }
    if ack {
        samples.push(i2c_both_low());
        samples.push(i2c_sda_low_scl_high());
        samples.push(i2c_both_low());
    } else {
        samples.push(i2c_sda_high_scl_low());
        samples.push(i2c_idle());
        samples.push(i2c_sda_high_scl_low());
    }
    samples.push(i2c_both_low());
    samples.push(i2c_sda_low_scl_high());
    samples.push(i2c_idle());
    samples
}

#[test]
fn i2c_decodes_start_stop() {
    let mut decoder = I2cDecoder::new(0, 1, 500_000);
    let mut samples = vec![i2c_idle(); 4];
    samples.push(i2c_sda_low_scl_high()); // START
    samples.push(i2c_both_low());
    samples.push(i2c_sda_low_scl_high());
    samples.push(i2c_idle()); // STOP

    let frames: Vec<_> = decoder.feed(&samples).collect();
    assert!(frames.len() >= 2);
    assert!(matches!(frames[0], I2cFrame::Start { .. }));
    assert!(matches!(frames.last().unwrap(), I2cFrame::Stop { .. }));
}

#[test]
fn i2c_decodes_byte_with_ack() {
    let mut decoder = I2cDecoder::new(0, 1, 500_000);
    let samples = make_i2c_byte_waveform(0xA5, true);
    let frames: Vec<_> = decoder.feed(&samples).collect();

    assert_eq!(frames.len(), 3, "frames: {frames:?}");
    assert!(matches!(frames[0], I2cFrame::Start { .. }));
    assert_eq!(
        frames[1],
        I2cFrame::Data {
            value: 0xA5,
            ack: true,
            sample_index: frames[1].sample_index(),
        }
    );
    assert!(matches!(frames[2], I2cFrame::Stop { .. }));
}

#[test]
fn i2c_decodes_byte_with_nack() {
    let mut decoder = I2cDecoder::new(0, 1, 500_000);
    let samples = make_i2c_byte_waveform(0x3C, false);
    let frames: Vec<_> = decoder.feed(&samples).collect();

    assert_eq!(frames.len(), 3, "frames: {frames:?}");
    match &frames[1] {
        I2cFrame::Data { value, ack, .. } => {
            assert_eq!(*value, 0x3C);
            assert!(!ack);
        }
        other => panic!("expected Data, got {other:?}"),
    }
}

#[test]
fn i2c_state_spans_chunks() {
    let mut decoder = I2cDecoder::new(0, 1, 500_000);
    let samples = make_i2c_byte_waveform(0x55, true);
    let mid = samples.len() / 2;

    let mut all_frames = Vec::new();
    all_frames.extend(decoder.feed(&samples[..mid]).collect());
    all_frames.extend(decoder.feed(&samples[mid..]).collect());

    assert_eq!(all_frames.len(), 3, "frames: {all_frames:?}");
    match &all_frames[1] {
        I2cFrame::Data { value, ack, .. } => {
            assert_eq!(*value, 0x55);
            assert!(*ack);
        }
        other => panic!("expected Data, got {other:?}"),
    }
}

#[test]
fn i2c_frame_display() {
    assert_eq!(I2cFrame::Start { sample_index: 10 }.to_string(), "[S @10]");
    assert_eq!(I2cFrame::Stop { sample_index: 99 }.to_string(), "[P @99]");
    assert_eq!(
        I2cFrame::Data {
            value: 0xAB,
            ack: true,
            sample_index: 50,
        }
        .to_string(),
        "[0xAB A @50]"
    );
    assert_eq!(
        I2cFrame::Data {
            value: 0x01,
            ack: false,
            sample_index: 70,
        }
        .to_string(),
        "[0x01 N @70]"
    );
}

// Helper: generate UART 8N1 waveform.
// Channel bit = 0 (bit 0 of each sample). Idle = high (bit 0 = 1).
fn make_uart_waveform(byte_val: u8, samples_per_bit: u32) -> Vec<u8> {
    let spb = samples_per_bit as usize;
    let mut samples = Vec::new();
    samples.extend(std::iter::repeat_n(0x01u8, spb * 2));
    samples.extend(std::iter::repeat_n(0x00u8, spb));
    for bit in 0..8 {
        let bit_val = (byte_val >> bit) & 1;
        samples.extend(std::iter::repeat_n(bit_val, spb));
    }
    samples.extend(std::iter::repeat_n(0x01u8, spb));
    samples.extend(std::iter::repeat_n(0x01u8, spb * 2));
    samples
}

#[test]
fn uart_decodes_byte() {
    // 500kHz sample rate, 9600 baud → ~52 samples/bit
    let mut decoder = UartDecoder::new(0, 500_000, 9600);
    let samples = make_uart_waveform(0x55, 52);
    let decoded: Vec<_> = decoder.feed(&samples).collect();

    assert_eq!(decoded.len(), 1);
    assert_eq!(decoded[0].value, 0x55);
    assert!(!decoded[0].framing_error);
}

#[test]
fn uart_decodes_multiple_bytes() {
    let spb = 52u32; // samples per bit
    let mut decoder = UartDecoder::new(0, 500_000, 9600);

    let mut samples = make_uart_waveform(0x48, spb); // 'H'
    samples.extend(make_uart_waveform(0x69, spb)); // 'i'

    let decoded: Vec<_> = decoder.feed(&samples).collect();
    assert_eq!(decoded.len(), 2);
    assert_eq!(decoded[0].value, 0x48);
    assert_eq!(decoded[1].value, 0x69);
}

#[test]
fn uart_framing_error() {
    let spb = 52usize;
    let mut samples = Vec::new();
    samples.extend(std::iter::repeat_n(0x01u8, spb * 2));
    samples.extend(std::iter::repeat_n(0x00u8, spb));
    samples.extend(std::iter::repeat_n(0x00u8, spb * 8));
    // Stop bit should be high, but we send low → framing error
    samples.extend(std::iter::repeat_n(0x00u8, spb));
    samples.extend(std::iter::repeat_n(0x01u8, spb * 2));

    let mut decoder = UartDecoder::new(0, 500_000, 9600);
    let decoded: Vec<_> = decoder.feed(&samples).collect();
    assert_eq!(decoded.len(), 1);
    assert_eq!(decoded[0].value, 0x00);
    assert!(decoded[0].framing_error);
}

#[test]
fn uart_state_spans_chunks() {
    let spb = 52u32;
    let mut decoder = UartDecoder::new(0, 500_000, 9600);
    let samples = make_uart_waveform(0xAA, spb);
    let mid = samples.len() / 2;

    let mut decoded = Vec::new();
    decoded.extend(decoder.feed(&samples[..mid]).collect());
    decoded.extend(decoder.feed(&samples[mid..]).collect());

    assert_eq!(decoded.len(), 1);
    assert_eq!(decoded[0].value, 0xAA);
    assert!(!decoded[0].framing_error);
}

#[test]
fn uart_byte_display() {
    let b = UartByte {
        value: 0x48,
        sample_index: 100,
        framing_error: false,
    };
    assert_eq!(b.to_string(), "[0x48 @100]");

    let b = UartByte {
        value: 0xFF,
        sample_index: 200,
        framing_error: true,
    };
    assert_eq!(b.to_string(), "[0xFF FE @200]");
}

// --- Further cases ---

#[test]
fn i2c_transaction_frames_exact() {
    // START at 4, the byte stamped with the clock edge of its first bit (6),
    // STOP at 34, for any byte.
    for value in [0x00u8, 0x01, 0x80, 0xA5, 0xFF] {
        for ack in [true, false] {
            let mut decoder = I2cDecoder::new(0, 1, 100_000);
            let frames = decoder.feed(&make_i2c_byte_waveform(value, ack)).collect();
            assert_eq!(
                frames,
                vec![
                    I2cFrame::Start { sample_index: 4 },
                    I2cFrame::Data { value, ack, sample_index: 6 },
                    I2cFrame::Stop { sample_index: 34 },
                ]
            );
        }
    }
}

#[test]
fn i2c_chunking_does_not_matter() {
    let mut samples = make_i2c_byte_waveform(0x5A, true);
    samples.extend(make_i2c_byte_waveform(0xC3, false));
    let mut whole = I2cDecoder::new(0, 1, 1);
    let all = whole.feed(&samples).collect();
    for cut in 0..=samples.len() {
        let mut split = I2cDecoder::new(0, 1, 1);
        let mut got = split.feed(&samples[..cut]).collect();
        got.extend(split.feed(&samples[cut..]).collect());
        assert_eq!(got, all, "cut at {cut}");
    }
    // the second transaction's indices continue after the first one's
    assert_eq!(all[3], I2cFrame::Start { sample_index: 35 + 4 });
}

#[test]
fn i2c_repeated_start_and_reset() {
    let mut decoder = I2cDecoder::new(0, 1, 1);
    // START, clock low, SDA high with SCL low, SCL high, SDA falls: repeated START
    let samples = [0b11, 0b10, 0b00, 0b01, 0b11, 0b10];
    let frames = decoder.feed(&samples).collect();
    assert_eq!(
        frames,
        vec![I2cFrame::Start { sample_index: 1 }, I2cFrame::RepeatedStart { sample_index: 5 }]
    );
    assert_eq!(I2cFrame::RepeatedStart { sample_index: 5 }.to_string(), "[Sr @5]");
    // After a reset, the next START is a plain START again; indices go on.
    decoder.reset();
    let frames = decoder.feed(&[0b11, 0b10]).collect();
    assert_eq!(frames, vec![I2cFrame::Start { sample_index: 7 }]);
}

#[test]
fn i2c_iter_next_hands_out_in_order() {
    let mut decoder = I2cDecoder::new(0, 1, 1);
    let mut it = decoder.feed(&make_i2c_byte_waveform(0x42, true));
    assert!(matches!(it.next(), Some(I2cFrame::Start { .. })));
    assert!(matches!(it.next(), Some(I2cFrame::Data { value: 0x42, .. })));
    assert!(matches!(it.next(), Some(I2cFrame::Stop { .. })));
    assert_eq!(it.next(), None);
    assert_eq!(it.collect(), vec![]);
}

#[test]
fn uart_sample_index_and_chunks() {
    let mut samples = make_uart_waveform(0x31, 10);
    samples.extend(make_uart_waveform(0xF0, 10));
    let mut whole = UartDecoder::new(0, 1000, 100);
    let all = whole.feed(&samples).collect();
    assert_eq!(
        all,
        vec![
            UartByte { value: 0x31, sample_index: 20, framing_error: false },
            UartByte { value: 0xF0, sample_index: 140 + 20, framing_error: false },
        ]
    );
    for cut in [0usize, 1, 25, 37, 139, 140, 200, samples.len()] {
        let mut split = UartDecoder::new(0, 1000, 100);
        let mut got = split.feed(&samples[..cut]).collect();
        got.extend(split.feed(&samples[cut..]).collect());
        assert_eq!(got, all);
    }
}

#[test]
fn uart_other_channel_and_reset() {
    // RX on channel 3: the other bits do not matter.
    let samples: Vec<u8> = make_uart_waveform(0x7E, 4)
        .into_iter()
        .map(|s| (s << 3) | 0b0101)
        .collect();
    let mut decoder = UartDecoder::new(3, 400, 100);
    let got = decoder.feed(&samples).collect();
    assert_eq!(got, vec![UartByte { value: 0x7E, sample_index: 8, framing_error: false }]);
    // A reset in the middle of a byte drops it.
    let mut decoder = UartDecoder::new(0, 400, 100);
    let w = make_uart_waveform(0x7E, 4);
    assert!(decoder.feed(&w[..20]).collect().is_empty());
    decoder.reset();
    assert!(decoder.feed(&w[20..]).collect().is_empty());
}

fn i2c_bit_cell(out: &mut Vec<u8>, bit: bool) {
    let sda = if bit { 1u8 } else { 0u8 };
    out.extend([sda, sda | 2, sda]);
}

#[test]
fn i2c_each_byte_is_stamped_with_its_first_bit() {
    // idle, START (4), 0x12 + ACK (first bit clocked at 6), 0x34 + NACK
    // (first bit clocked at 33), STOP
    let mut samples = vec![0b11u8; 4];
    samples.push(0b10);
    for value in [0x12u8, 0x34] {
        for k in (0..8).rev() {
            i2c_bit_cell(&mut samples, (value >> k) & 1 == 1);
        }
        i2c_bit_cell(&mut samples, value == 0x34);
    }
    samples.extend([0b00, 0b10, 0b11]);
    let mut decoder = I2cDecoder::new(0, 1, 1);
    let frames = decoder.feed(&samples).collect();
    assert_eq!(
        frames,
        vec![
            I2cFrame::Start { sample_index: 4 },
            I2cFrame::Data { value: 0x12, ack: true, sample_index: 6 },
            I2cFrame::Data { value: 0x34, ack: false, sample_index: 33 },
            I2cFrame::Stop { sample_index: 61 },
        ]
    );
}

#[test]
fn reset_decoders_act_fresh() {
    // UART: reset in the middle of a byte; afterwards the decoder behaves as
    // a fresh one whose indices start where the reset one stands.
    let frame = make_uart_waveform(0x6B, 4);
    let mut uart = UartDecoder::new(0, 400, 100);
    let partial = &frame[..20];
    assert!(uart.feed(partial).collect().is_empty());
    uart.reset();
    let mut fresh = UartDecoder::new(0, 400, 100);
    let shifted: Vec<UartByte> = fresh
        .feed(&frame)
        .collect()
        .into_iter()
        .map(|b| UartByte { sample_index: b.sample_index + 20, ..b })
        .collect();
    assert_eq!(uart.feed(&frame).collect(), shifted);
    assert_eq!(shifted.len(), 1);

    // I2C: reset in the middle of a byte
    let waveform = make_i2c_byte_waveform(0x9C, true);
    let mut i2c = I2cDecoder::new(0, 1, 1);
    i2c.feed(&waveform[..12]).collect();
    i2c.reset();
    let mut fresh = I2cDecoder::new(0, 1, 1);
    let expected: Vec<I2cFrame> = fresh
        .feed(&waveform)
        .collect()
        .into_iter()
        .map(|f| match f {
            I2cFrame::Start { sample_index } => I2cFrame::Start { sample_index: sample_index + 12 },
            I2cFrame::RepeatedStart { sample_index } => {
                I2cFrame::RepeatedStart { sample_index: sample_index + 12 }
            }
            I2cFrame::Stop { sample_index } => I2cFrame::Stop { sample_index: sample_index + 12 },
            I2cFrame::Data { value, ack, sample_index } => {
                I2cFrame::Data { value, ack, sample_index: sample_index + 12 }
            }
        })
        .collect();
    assert_eq!(i2c.feed(&waveform).collect(), expected);
    assert_eq!(expected.len(), 3);
}

#[test]
fn start_after_stop_is_plain_start() {
    // START, STOP, START, START again (repeated)
    let samples = [0b11, 0b10, 0b00, 0b10, 0b11, 0b10, 0b00, 0b01, 0b11, 0b10];
    let mut decoder = I2cDecoder::new(0, 1, 1);
    let frames = decoder.feed(&samples).collect();
    assert_eq!(
        frames,
        vec![
            I2cFrame::Start { sample_index: 1 },
            I2cFrame::Stop { sample_index: 4 },
            I2cFrame::Start { sample_index: 5 },
            I2cFrame::RepeatedStart { sample_index: 9 },
        ]
    );
}

#[test]
fn uart_frames_back_to_back() {
    let values = [0x00u8, 0xFF, 0x5A, 0x81];
    for spb in [1u32, 3, 8] {
        let mut samples = Vec::new();
        for v in values {
            samples.extend(make_uart_waveform(v, spb));
        }
        let mut decoder = UartDecoder::new(0, spb * 9600, 9600);
        let got = decoder.feed(&samples).collect();
        let want: Vec<UartByte> = values
            .iter()
            .enumerate()
            .map(|(j, &value)| UartByte {
                value,
                sample_index: (14 * spb as u64) * j as u64 + 2 * spb as u64,
                framing_error: false,
            })
            .collect();
        assert_eq!(got, want);
    }
}

fn lcg_samples(seed: u64, len: usize, run: u64) -> Vec<u8> {
    // pseudo-random levels on bits 0 and 1, each held for a random run length
    let mut state = seed;
    let mut out = Vec::new();
    while out.len() < len {
        state = state.wrapping_mul(6364136223846793005).wrapping_add(1442695040888963407);
        let level = ((state >> 33) & 3) as u8;
        let hold = 1 + ((state >> 40) % run) as usize;
        for _ in 0..hold {
            out.push(level);
        }
    }
    out.truncate(len);
    out
}

#[test]
fn uart_any_stream_matches_closed_form() {
    for (seed, spb) in [(1u64, 1u32), (7, 2), (42, 3), (99, 5)] {
        let x = lcg_samples(seed, 3000, 3 * spb as u64);
        let r = |i: i64| i < 0 || x[i as usize] & 1 == 1;
        let p = spb as i64;
        let h = p / 2;
        let mut expected = Vec::new();
        let mut i: i64 = 0;
        loop {
            // next falling edge at or after i
            while i < x.len() as i64 && !(r(i - 1) && !r(i)) {
                i += 1;
            }
            let s = i;
            let e = s + h + 9 * p;
            if e >= x.len() as i64 {
                break;
            }
            let mut value = 0u8;
            for j in 0..8 {
                if r(s + h + (j + 1) * p) {
                    value |= 1 << j;
                }
            }
            expected.push(UartByte { value, sample_index: s as u64, framing_error: !r(e) });
            i = e + 1;
        }
        let mut decoder = UartDecoder::new(0, spb * 1000, 1000);
        assert_eq!(decoder.feed(&x).collect(), expected, "spb {spb}");
    }
}

#[test]
fn i2c_any_stream_bytes_follow_the_clocked_bits() {
    for seed in [3u64, 11, 2024] {
        // mostly clock cycles carrying a random SDA level, with random
        // samples (which make STARTs, STOPs and glitches) in between
        let noise = lcg_samples(seed, 4000, 1);
        let mut x = vec![0b11u8, 0b10];
        for (k, &level) in noise.iter().enumerate() {
            if k % 13 == 0 {
                x.push(level);
            } else {
                let sda = level & 1;
                x.extend([sda, sda | 2, sda]);
            }
        }
        let mut decoder = I2cDecoder::new(0, 1, 1);
        let frames = decoder.feed(&x).collect();
        // every ninth bit clocked in since a START gives a byte, MSB first,
        // acknowledged when SDA is low on the ninth bit
        let mut expected = Vec::new();
        let mut open = false;
        let mut bits: Vec<bool> = Vec::new();
        let mut first_bit: u64 = 0;
        let (mut psda, mut pscl) = (true, true);
        for (i, &smp) in x.iter().enumerate() {
            let (sda, scl) = (smp & 1 == 1, smp & 2 == 2);
            if psda && !sda && scl {
                expected.push(if open {
                    I2cFrame::RepeatedStart { sample_index: i as u64 }
                } else {
                    I2cFrame::Start { sample_index: i as u64 }
                });
                open = true;
                bits.clear();
            } else if !psda && sda && scl {
                expected.push(I2cFrame::Stop { sample_index: i as u64 });
                open = false;
                bits.clear();
            } else if !pscl && scl && open {
                bits.push(sda);
                if bits.len() % 9 == 1 {
                    first_bit = i as u64;
                }
                if bits.len() % 9 == 0 {
                    let n = bits.len();
                    let value = bits[n - 9..n - 1].iter().fold(0u8, |v, &b| (v << 1) | b as u8);
                    expected.push(I2cFrame::Data { value, ack: !bits[n - 1], sample_index: first_bit });
                }
            }
            psda = sda;
            pscl = scl;
        }
        let got = frames;
        assert_eq!(got, expected, "seed {seed}");
        assert!(got.iter().any(|f| matches!(f, I2cFrame::Data { .. })));
    }
}
