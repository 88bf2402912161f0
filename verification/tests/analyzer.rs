use pico_de_gallo::analyzer::{
    stopped_status, App, CaptureMsg, Decoder, DecoderKind, Key, KeyAction, MAX_SAMPLES,
};

#[test]
fn app_starts_ready() {
    let app = App::new(vec![0, 1, 3], 100_000);
    assert_eq!(app.num_channels, 3);
    assert_eq!(app.zoom, 1);
    assert_eq!(app.scroll, 0);
    assert!(!app.running);
    assert_eq!(app.status, "Ready — press Space to start capture");
    assert!(app.samples.is_empty());
}

#[test]
fn ring_buffer_keeps_last_samples() {
    let mut app = App::new(vec![0], 1);
    let chunk: Vec<u8> = (0..=255u8).collect();
    for _ in 0..300 {
        app.push_samples(&chunk);
    }
    assert_eq!(app.samples.len(), MAX_SAMPLES);
    assert_eq!(app.sample_offset, 300 * 256);
    // 76800 samples received; the oldest kept one is number 76800 - 65536.
    let first_kept = (300 * 256 - MAX_SAMPLES) % 256;
    assert_eq!(app.samples[0] as usize, first_kept);
    assert_eq!(*app.samples.back().unwrap(), 255);
}

#[test]
fn zoom_scroll_and_channels() {
    let mut app = App::new(vec![0, 1], 1);
    app.zoom_in();
    assert_eq!(app.zoom, 1);
    for _ in 0..20 {
        app.zoom_out();
    }
    assert_eq!(app.zoom, 1024);
    app.zoom_in();
    assert_eq!(app.zoom, 512);
    app.scroll_right();
    assert_eq!(app.scroll, 5120);
    app.scroll_left(10);
    assert_eq!(app.scroll, 0);
    app.scroll_left(10);
    assert_eq!(app.scroll, 0);
    app.scroll = usize::MAX - 3;
    app.scroll_right();
    assert_eq!(app.scroll, usize::MAX);
    app.channel_up();
    assert_eq!(app.selected_channel, 0);
    app.channel_down();
    app.channel_down();
    assert_eq!(app.selected_channel, 1);
    app.channel_up();
    assert_eq!(app.selected_channel, 0);
}

#[test]
fn keys_drive_the_capture() {
    let mut app = App::new(vec![0], 1);
    assert_eq!(app.handle_key(Key::StartStop, 80), KeyAction::StartCapture);
    assert!(app.running);
    assert_eq!(app.status, "Capturing…");
    assert_eq!(app.handle_key(Key::StartStop, 80), KeyAction::StopCapture);
    assert_eq!(app.status, "Stopping…");
    assert!(app.running);
    assert_eq!(app.handle_key(Key::ZoomOut, 80), KeyAction::Continue);
    assert_eq!(app.zoom, 2);
    assert_eq!(app.handle_key(Key::Other, 80), KeyAction::Continue);
    assert_eq!(app.handle_key(Key::Quit, 80), KeyAction::Quit);
}

#[test]
fn capture_messages_update_state() {
    let mut app = App::new(vec![0, 1], 500_000);
    let mut decoder = Some(Decoder::new(
        &DecoderKind::I2c { sda_channel: 0, scl_channel: 1 },
        500_000,
    ));
    app.running = true;
    // START then STOP
    app.handle_capture_msg(&mut decoder, CaptureMsg::Samples(vec![3, 3, 2, 0, 2, 3]));
    assert_eq!(app.decoded_events.len(), 2);
    assert_eq!(app.decoded_events[0].text, "[S @2]");
    assert_eq!(app.decoded_events[1].text, "[P @5]");
    assert_eq!(app.sample_offset, 6);
    app.handle_capture_msg(&mut decoder, CaptureMsg::Error("usb gone".to_string()));
    assert!(!app.running);
    assert_eq!(app.status, "Error: usb gone");
    app.handle_capture_msg(&mut None, CaptureMsg::Stopped(stopped_status(6, 1)));
    assert_eq!(app.status, "Stopped — 6 samples, 1 chunks");
    assert_eq!(app.handle_key(Key::Clear, 80), KeyAction::Continue);
    assert!(app.decoded_events.is_empty());
}

#[test]
fn uart_decoder_texts() {
    let mut decoder = Decoder::new(&DecoderKind::Uart { rx_channel: 0, baud_rate: 100 }, 400);
    let mut samples = vec![1u8; 8];
    samples.extend([0u8; 4]);
    for bit in 0..8 {
        samples.extend([(0x48u8 >> bit) & 1; 4]);
    }
    samples.extend([0u8; 4]); // missing stop bit
    samples.extend([1u8; 8]);
    assert_eq!(decoder.feed(&samples), vec!["[0x48 FE @8]".to_string()]);
}

#[test]
fn decoder_texts_do_not_depend_on_chunking() {
    let kind = DecoderKind::Uart { rx_channel: 0, baud_rate: 100 };
    let mut samples = vec![1u8; 6];
    for value in [0x41u8, 0x5a] {
        samples.extend([0u8; 4]);
        for bit in 0..8 {
            samples.extend([(value >> bit) & 1; 4]);
        }
        samples.extend([1u8; 8]);
    }
    let mut whole = Decoder::new(&kind, 400);
    let at_once = whole.feed(&samples);
    assert_eq!(at_once, vec!["[0x41 @6]".to_string(), "[0x5A @50]".to_string()]);
    for cut in [1usize, 7, 23, 44, 51, samples.len() - 1] {
        let mut split = Decoder::new(&kind, 400);
        let mut texts = split.feed(&samples[..cut]);
        texts.extend(split.feed(&samples[cut..]));
        assert_eq!(texts, at_once);
    }
}

#[test]
fn recent_events_newest_first() {
    let mut app = App::new(vec![0, 1], 500_000);
    assert!(app.recent_event_texts(5).is_empty());
    let mut decoder = Some(Decoder::new(
        &DecoderKind::I2c { sda_channel: 0, scl_channel: 1 },
        500_000,
    ));
    app.handle_capture_msg(&mut decoder, CaptureMsg::Samples(vec![3, 3, 2, 0, 2, 3]));
    assert_eq!(app.recent_event_texts(1), vec!["[P @5]".to_string()]);
    assert_eq!(
        app.recent_event_texts(10),
        vec!["[P @5]".to_string(), "[S @2]".to_string()]
    );
    assert!(app.recent_event_texts(0).is_empty());
}

#[test]
fn scrolling_moves_by_one_screen() {
    let mut app = App::new(vec![0], 1);
    app.zoom_out();
    assert_eq!(app.zoom, 2);
    // right: ten columns, whatever the screen width
    assert_eq!(app.handle_key(Key::Right, 76), KeyAction::Continue);
    assert_eq!(app.scroll, 20);
    app.scroll_right();
    assert_eq!(app.scroll, 40);
    app.scroll = 212;
    // left: one screen width
    assert_eq!(app.handle_key(Key::Left, 76), KeyAction::Continue);
    assert_eq!(app.scroll, 60);
    app.scroll_left(76);
    assert_eq!(app.scroll, 0);
    // an empty screen does not move back
    app.scroll = 5;
    app.scroll_left(0);
    assert_eq!(app.scroll, 5);
}

#[test]
fn pushing_in_chunks_equals_pushing_at_once() {
    let data: Vec<u8> = (0..200_000u32).map(|i| (i % 251) as u8).collect();
    let mut once = App::new(vec![0], 1);
    once.push_samples(&data);
    let mut chunked = App::new(vec![0], 1);
    chunked.push_samples(&data[..70_001]);
    chunked.push_samples(&data[70_001..]);
    assert_eq!(once.samples, chunked.samples);
    assert_eq!(once.sample_offset, chunked.sample_offset);
}
