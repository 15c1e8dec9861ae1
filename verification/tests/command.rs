use muse::command::{parse, tokenize, Command};

#[test]
fn tokenize_splits_on_runs_of_whitespace() {
    let toks = tokenize(b"enqueue   some.mp3");
    assert_eq!(toks, vec![b"enqueue".to_vec(), b"some.mp3".to_vec()]);
}

#[test]
fn tokenize_empty_line_gives_no_tokens() {
    let toks = tokenize(b"");
    assert!(toks.is_empty());
}

#[test]
fn tokenize_only_whitespace_gives_no_tokens() {
    let toks = tokenize(b" \t\r\n  ");
    assert!(toks.is_empty());
}

#[test]
fn tokenize_mixed_separators() {
    let toks = tokenize(b"\tplay \n one\r\ntwo  ");
    assert_eq!(toks, vec![b"play".to_vec(), b"one".to_vec(), b"two".to_vec()]);
}

#[test]
fn parse_play() {
    assert_eq!(parse(b"play"), Command::Play);
}

#[test]
fn parse_pause() {
    assert_eq!(parse(b"pause"), Command::Pause);
}

#[test]
fn parse_enqueue_with_path() {
    assert_eq!(
        parse(b"enqueue somefile.mp3"),
        Command::Enqueue(b"somefile.mp3".to_vec())
    );
}

#[test]
fn parse_enqueue_without_path() {
    assert_eq!(parse(b"enqueue"), Command::EnqueueMissing);
}

#[test]
fn parse_unknown_token() {
    assert_eq!(parse(b"dance"), Command::Unknown);
}

#[test]
fn parse_empty_line() {
    assert_eq!(parse(b""), Command::Empty);
    assert_eq!(parse(b"   "), Command::Empty);
}

#[test]
fn parse_only_first_token_decides() {
    assert_eq!(parse(b"play loudly now"), Command::Play);
}

#[test]
fn parse_leading_whitespace_ignored() {
    assert_eq!(parse(b"  pause  "), Command::Pause);
}

#[test]
fn parse_command_is_case_sensitive() {
    assert_eq!(parse(b"Play"), Command::Unknown);
}
