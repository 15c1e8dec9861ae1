use muse::media::{pause, play, queue, stop, supported, DecodeError, Sink};

#[test]
fn supported_mp3_extension() {
    assert!(supported(b"song.mp3"));
    assert!(supported(b"a.tar.mp3"));
}

#[test]
fn unsupported_extension_refused() {
    assert!(!supported(b"song.ogg"));
    assert!(!supported(b"song.wav"));
    assert!(!supported(b"x.mp3.ogg"));
}

#[test]
fn extension_is_suffix_after_last_dot() {
    // no dot: the whole name is read as the extension
    assert!(supported(b"mp3"));
    assert!(!supported(b"song"));
    // dot at the start or the end
    assert!(supported(b".mp3"));
    assert!(!supported(b"song."));
    assert!(!supported(b""));
}

#[test]
fn new_sink_is_empty() {
    let sink = Sink::new();
    assert_eq!(sink.queued_count(), 0);
    assert!(!sink.is_paused());
}

#[test]
fn queue_appends_supported_file() {
    let mut sink = Sink::new();
    assert_eq!(queue(&mut sink, b"one.mp3"), Ok(()));
    assert_eq!(sink.queued_count(), 1);
    assert_eq!(sink.queued_path(0), &b"one.mp3".to_vec());
}

#[test]
fn queue_refuses_unsupported_file() {
    let mut sink = Sink::new();
    assert_eq!(
        queue(&mut sink, b"one.flac"),
        Err(DecodeError::UnsupportedExtension)
    );
    assert_eq!(sink.queued_count(), 0);
}

#[test]
fn play_pause_toggle_paused_flag() {
    let mut sink = Sink::new();
    pause(&mut sink);
    assert!(sink.is_paused());
    play(&mut sink);
    assert!(!sink.is_paused());
}

#[test]
fn stop_discards_queue() {
    let mut sink = Sink::new();
    queue(&mut sink, b"one.mp3").unwrap();
    queue(&mut sink, b"two.mp3").unwrap();
    assert_eq!(sink.queued_count(), 2);
    stop(&mut sink);
    assert_eq!(sink.queued_count(), 0);
}
