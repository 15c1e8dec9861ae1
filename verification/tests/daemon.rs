use muse::daemon::{handle_line, serve, Outcome};
use muse::media::Sink;

#[test]
fn play_on_empty_sink_logs_playing() {
    let mut sink = Sink::new();
    let served = handle_line(&mut sink, b"play");
    assert_eq!(served.outcome, Outcome::Playing);
    assert_eq!(served.log, b"playing".to_vec());
    assert_eq!(served.enqueued, None);
    assert_eq!(sink.queued_count(), 0);
    assert!(!sink.is_paused());
}

#[test]
fn pause_logs_pausing() {
    let mut sink = Sink::new();
    let served = handle_line(&mut sink, b"pause");
    assert_eq!(served.outcome, Outcome::Pausing);
    assert_eq!(served.log, b"pausing".to_vec());
    assert!(sink.is_paused());
}

#[test]
fn enqueue_logs_and_queues_one_item() {
    let mut sink = Sink::new();
    let served = handle_line(&mut sink, b"enqueue somefile.mp3");
    assert_eq!(served.outcome, Outcome::Enqueueing);
    assert_eq!(served.log, b"enqueueing: enqueue somefile.mp3".to_vec());
    assert_eq!(served.enqueued, Some(b"somefile.mp3".to_vec()));
    assert_eq!(sink.queued_count(), 1);
    assert_eq!(sink.queued_path(0), &b"somefile.mp3".to_vec());
}

#[test]
fn unknown_command_logged_and_sink_unchanged() {
    let mut sink = Sink::new();
    let served = handle_line(&mut sink, b"dance");
    assert_eq!(served.outcome, Outcome::Unknown);
    assert_eq!(served.log, b"unknown command: dance".to_vec());
    assert_eq!(served.enqueued, None);
    assert_eq!(sink.queued_count(), 0);
    assert!(!sink.is_paused());
}

#[test]
fn empty_input_logs_no_command() {
    let mut sink = Sink::new();
    let served = handle_line(&mut sink, b"");
    assert_eq!(served.outcome, Outcome::NoCommand);
    assert_eq!(served.log, b"no command provided".to_vec());
    assert_eq!(sink.queued_count(), 0);
}

#[test]
fn enqueue_without_song_logged() {
    let mut sink = Sink::new();
    let served = handle_line(&mut sink, b"enqueue");
    assert_eq!(served.outcome, Outcome::NoSong);
    assert_eq!(served.log, b"no song provided".to_vec());
    assert_eq!(sink.queued_count(), 0);
}

#[test]
fn enqueue_unsupported_reports_decode_error() {
    let mut sink = Sink::new();
    let served = handle_line(&mut sink, b"enqueue song.wav");
    assert_eq!(served.outcome, Outcome::DecodeFailed);
    assert_eq!(served.log, b"decode error: enqueue song.wav".to_vec());
    assert_eq!(served.enqueued, None);
    assert_eq!(sink.queued_count(), 0);
}

#[test]
fn single_token_commands_on_empty_sink_are_noops() {
    let mut sink = Sink::new();
    handle_line(&mut sink, b"play");
    assert_eq!(sink.queued_count(), 0);
    handle_line(&mut sink, b"pause");
    assert_eq!(sink.queued_count(), 0);
    handle_line(&mut sink, b"play");
    assert_eq!(sink.queued_count(), 0);
}

#[test]
fn unknown_command_daemon_continues_serving() {
    let mut sink = Sink::new();
    let lines = vec![b"dance".to_vec(), b"enqueue next.mp3".to_vec()];
    let logs = serve(&mut sink, &lines);
    assert_eq!(logs.len(), 2);
    assert_eq!(logs[0], b"unknown command: dance".to_vec());
    assert_eq!(logs[1], b"enqueueing: enqueue next.mp3".to_vec());
    assert_eq!(sink.queued_count(), 1);
}

#[test]
fn two_connections_apply_in_fifo_order() {
    let mut sink = Sink::new();
    let lines = vec![b"enqueue first.mp3".to_vec(), b"enqueue second.mp3".to_vec()];
    let logs = serve(&mut sink, &lines);
    assert_eq!(logs.len(), 2);
    assert_eq!(sink.queued_count(), 2);
    assert_eq!(sink.queued_path(0), &b"first.mp3".to_vec());
    assert_eq!(sink.queued_path(1), &b"second.mp3".to_vec());
}

#[test]
fn pause_then_play_resumes() {
    let mut sink = Sink::new();
    let lines = vec![
        b"enqueue song.mp3".to_vec(),
        b"pause".to_vec(),
        b"play".to_vec(),
    ];
    let logs = serve(&mut sink, &lines);
    assert_eq!(logs.len(), 3);
    assert_eq!(sink.queued_count(), 1);
    assert!(!sink.is_paused());
}
