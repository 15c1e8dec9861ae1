//! The dispatch step of the connection loop: one client line in, one
//! sink transition and one log line out.
//!
//! The loop that accepts connections, reads their bytes and appends the
//! log lines to a file is unverified plumbing outside this crate; it
//! feeds every completed connection's payload through `handle_line`,
//! one at a time, in arrival order.

use vstd::prelude::*;

use crate::command::{parse, parse_spec, views_of, Command, CommandView};
use crate::media::{is_supported, play, pause, queue, Sink, SinkView};

verus! {

/// The observable result of serving one connection.
#[derive(Clone, Copy, Debug, PartialEq, Eq, Structural)]
pub enum Outcome {
    /// `play`: playback was resumed.
    Playing,
    /// `pause`: playback was suspended.
    Pausing,
    /// `enqueue` with a decodable path: one item was queued.
    Enqueueing,
    /// `enqueue` with an undecodable path: nothing was queued.
    DecodeFailed,
    /// `enqueue` without a path.
    NoSong,
    /// An unrecognised first token.
    Unknown,
    /// A line with no token.
    NoCommand,
}

/// How the sink moves under one client line.
pub open spec fn step_spec(s: SinkView, line: Seq<u8>) -> SinkView {
    match parse_spec(line) {
        CommandView::Play => SinkView { paused: false, ..s },
        CommandView::Pause => SinkView { paused: true, ..s },
        CommandView::Enqueue(p) => if is_supported(p) {
            SinkView { queue: s.queue.push(p), ..s }
        } else {
            s
        },
        CommandView::EnqueueMissing => s,
        CommandView::Unknown => s,
        CommandView::Empty => s,
    }
}

/// The outcome one client line is served with.
pub open spec fn outcome_spec(line: Seq<u8>) -> Outcome {
    match parse_spec(line) {
        CommandView::Play => Outcome::Playing,
        CommandView::Pause => Outcome::Pausing,
        CommandView::Enqueue(p) => if is_supported(p) {
            Outcome::Enqueueing
        } else {
            Outcome::DecodeFailed
        },
        CommandView::EnqueueMissing => Outcome::NoSong,
        CommandView::Unknown => Outcome::Unknown,
        CommandView::Empty => Outcome::NoCommand,
    }
}

/// The fixed part of the log line written for an outcome.
pub open spec fn prefix_spec(o: Outcome) -> Seq<u8> {
    match o {
        // playing
        Outcome::Playing => seq![112u8, 108u8, 97u8, 121u8, 105u8, 110u8, 103u8],
        // pausing
        Outcome::Pausing => seq![112u8, 97u8, 117u8, 115u8, 105u8, 110u8, 103u8],
        // enqueueing:
        Outcome::Enqueueing => seq![
            101u8, 110u8, 113u8, 117u8, 101u8, 117u8, 101u8, 105u8, 110u8, 103u8, 58u8, 32u8,
        ],
        // decode error:
        Outcome::DecodeFailed => seq![
            100u8, 101u8, 99u8, 111u8, 100u8, 101u8, 32u8, 101u8, 114u8, 114u8, 111u8, 114u8,
            58u8, 32u8,
        ],
        // no song provided
        Outcome::NoSong => seq![
            110u8, 111u8, 32u8, 115u8, 111u8, 110u8, 103u8, 32u8, 112u8, 114u8, 111u8, 118u8,
            105u8, 100u8, 101u8, 100u8,
        ],
        // unknown command:
        Outcome::Unknown => seq![
            117u8, 110u8, 107u8, 110u8, 111u8, 119u8, 110u8, 32u8, 99u8, 111u8, 109u8, 109u8,
            97u8, 110u8, 100u8, 58u8, 32u8,
        ],
        // no command provided
        Outcome::NoCommand => seq![
            110u8, 111u8, 32u8, 99u8, 111u8, 109u8, 109u8, 97u8, 110u8, 100u8, 32u8, 112u8,
            114u8, 111u8, 118u8, 105u8, 100u8, 101u8, 100u8,
        ],
    }
}

/// The outcomes whose log line echoes the raw client line after the
/// fixed prefix.
pub open spec fn echoes_line(o: Outcome) -> bool {
    o == Outcome::Enqueueing || o == Outcome::DecodeFailed || o == Outcome::Unknown
}

/// The one log line recorded for a client line.
pub open spec fn log_line_spec(line: Seq<u8>) -> Seq<u8> {
    let o = outcome_spec(line);
    if echoes_line(o) {
        prefix_spec(o) + line
    } else {
        prefix_spec(o)
    }
}

/// Appends the bytes of `src` to `dst`.
fn append_bytes(dst: &mut Vec<u8>, src: &[u8])
    ensures
        final(dst)@ == old(dst)@ + src@,
{
    let n = src.len();
    let mut k: usize = 0;
    proof {
        assert(dst@ =~= old(dst)@ + src@.take(0));
    }
    while k < n
        invariant
            n == src@.len(),
            k <= n,
            dst@ == old(dst)@ + src@.take(k as int),
        decreases n - k,
    {
        dst.push(src[k]);
        proof {
            assert(old(dst)@ + src@.take(k as int) + seq![src@[k as int]]
                =~= old(dst)@ + src@.take(k + 1));
        }
        k += 1;
    }
    proof {
        assert(old(dst)@ + src@.take(n as int) =~= old(dst)@ + src@);
    }
}

fn push_prefix(r: &mut Vec<u8>, o: Outcome)
    requires
        old(r)@.len() == 0,
    ensures
        final(r)@ == prefix_spec(o),
{
    match o {
        Outcome::Playing => {
            r.push(112); r.push(108); r.push(97); r.push(121); r.push(105); r.push(110);
            r.push(103);
            proof { assert(r@ =~= prefix_spec(o)); }
        }
        Outcome::Pausing => {
            r.push(112); r.push(97); r.push(117); r.push(115); r.push(105); r.push(110);
            r.push(103);
            proof { assert(r@ =~= prefix_spec(o)); }
        }
        Outcome::Enqueueing => {
            r.push(101); r.push(110); r.push(113); r.push(117); r.push(101); r.push(117);
            r.push(101); r.push(105); r.push(110); r.push(103); r.push(58); r.push(32);
            proof { assert(r@ =~= prefix_spec(o)); }
        }
        Outcome::DecodeFailed => {
            r.push(100); r.push(101); r.push(99); r.push(111); r.push(100); r.push(101);
            r.push(32); r.push(101); r.push(114); r.push(114); r.push(111); r.push(114);
            r.push(58); r.push(32);
            proof { assert(r@ =~= prefix_spec(o)); }
        }
        Outcome::NoSong => {
            r.push(110); r.push(111); r.push(32); r.push(115); r.push(111); r.push(110);
            r.push(103); r.push(32); r.push(112); r.push(114); r.push(111); r.push(118);
            r.push(105); r.push(100); r.push(101); r.push(100);
            proof { assert(r@ =~= prefix_spec(o)); }
        }
        Outcome::Unknown => {
            r.push(117); r.push(110); r.push(107); r.push(110); r.push(111); r.push(119);
            r.push(110); r.push(32); r.push(99); r.push(111); r.push(109); r.push(109);
            r.push(97); r.push(110); r.push(100); r.push(58); r.push(32);
            proof { assert(r@ =~= prefix_spec(o)); }
        }
        Outcome::NoCommand => {
            r.push(110); r.push(111); r.push(32); r.push(99); r.push(111); r.push(109);
            r.push(109); r.push(97); r.push(110); r.push(100); r.push(32); r.push(112);
            r.push(114); r.push(111); r.push(118); r.push(105); r.push(100); r.push(101);
            r.push(100);
            proof { assert(r@ =~= prefix_spec(o)); }
        }
    }
}

/// Renders the log line for outcome `o` of serving `line`.
pub fn render_log(o: Outcome, line: &[u8]) -> (r: Vec<u8>)
    ensures
        r@ == (if echoes_line(o) {
            prefix_spec(o) + line@
        } else {
            prefix_spec(o)
        }),
{
    let mut r: Vec<u8> = Vec::new();
    push_prefix(&mut r, o);
    match o {
        Outcome::Enqueueing | Outcome::DecodeFailed | Outcome::Unknown => {
            append_bytes(&mut r, line);
        }
        _ => {}
    }
    r
}

/// What serving one connection produced: the outcome, the log line
/// recorded for it, and the path newly queued, if one was.
pub struct Served {
    /// The observable result.
    pub outcome: Outcome,
    /// The line appended to the daemon's log.
    pub log: Vec<u8>,
    /// The path appended to the play queue, when the line queued one.
    pub enqueued: Option<Vec<u8>>,
}

/// Serves one client line: moves the sink as `step_spec` says and
/// reports the outcome and log line the connection loop records.
pub fn handle_line(sink: &mut Sink, line: &[u8]) -> (r: Served)
    ensures
        final(sink)@ == step_spec(old(sink)@, line@),
        r.outcome == outcome_spec(line@),
        r.log@ == log_line_spec(line@),
        (r.enqueued is Some) <==> outcome_spec(line@) == Outcome::Enqueueing,
        r.enqueued is Some ==> final(sink)@.queue == old(sink)@.queue.push(r.enqueued->0@),
{
    let cmd = parse(line);
    match cmd {
        Command::Play => {
            play(sink);
            proof {
                assert(sink@ =~= step_spec(old(sink)@, line@));
            }
            let log = render_log(Outcome::Playing, line);
            Served { outcome: Outcome::Playing, log, enqueued: None }
        }
        Command::Pause => {
            pause(sink);
            proof {
                assert(sink@ =~= step_spec(old(sink)@, line@));
            }
            let log = render_log(Outcome::Pausing, line);
            Served { outcome: Outcome::Pausing, log, enqueued: None }
        }
        Command::Enqueue(path) => {
            match queue(sink, path.as_slice()) {
                Ok(_) => {
                    let log = render_log(Outcome::Enqueueing, line);
                    Served { outcome: Outcome::Enqueueing, log, enqueued: Some(path) }
                }
                Err(_) => {
                    let log = render_log(Outcome::DecodeFailed, line);
                    Served { outcome: Outcome::DecodeFailed, log, enqueued: None }
                }
            }
        }
        Command::EnqueueMissing => {
            let log = render_log(Outcome::NoSong, line);
            Served { outcome: Outcome::NoSong, log, enqueued: None }
        }
        Command::Unknown => {
            let log = render_log(Outcome::Unknown, line);
            Served { outcome: Outcome::Unknown, log, enqueued: None }
        }
        Command::Empty => {
            let log = render_log(Outcome::NoCommand, line);
            Served { outcome: Outcome::NoCommand, log, enqueued: None }
        }
    }
}

/// Where the sink stands after a batch of client lines, each applied in
/// arrival order.
pub open spec fn run_spec(s: SinkView, lines: Seq<Seq<u8>>) -> SinkView
    decreases lines.len(),
{
    if lines.len() == 0 {
        s
    } else {
        run_spec(step_spec(s, lines[0]), lines.skip(1))
    }
}

/// Serves a batch of completed connections, one at a time, in the order
/// they arrived, and returns their log lines in the same order.
pub fn serve(sink: &mut Sink, lines: &Vec<Vec<u8>>) -> (logs: Vec<Vec<u8>>)
    ensures
        final(sink)@ == run_spec(old(sink)@, views_of(lines@)),
        logs@.len() == lines@.len(),
        forall|i: int| 0 <= i < lines@.len() ==> #[trigger] logs@[i]@ == log_line_spec(lines@[i]@),
{
    let ghost all = views_of(lines@);
    let n = lines.len();
    let mut logs: Vec<Vec<u8>> = Vec::new();
    let mut j: usize = 0;
    proof {
        assert(all.skip(0) =~= all);
    }
    while j < n
        invariant
            n == lines@.len(),
            j <= n,
            all == views_of(lines@),
            run_spec(sink@, all.skip(j as int)) == run_spec(old(sink)@, all),
            logs@.len() == j,
            forall|i: int| 0 <= i < j ==> #[trigger] logs@[i]@ == log_line_spec(lines@[i]@),
        decreases n - j,
    {
        let served = handle_line(sink, lines[j].as_slice());
        proof {
            assert(all.skip(j as int)[0] == lines@[j as int]@);
            assert(all.skip(j as int).skip(1) =~= all.skip(j + 1));
        }
        logs.push(served.log);
        j += 1;
    }
    proof {
        assert(all.skip(n as int) =~= Seq::<Seq<u8>>::empty());
    }
    logs
}

/// `play` and `pause` on an empty sink leave it holding nothing: the
/// single-token commands are safe no-ops when nothing is queued.
pub proof fn lemma_single_token_on_empty(s: SinkView, line: Seq<u8>)
    requires
        s.queue.len() == 0,
        parse_spec(line) == CommandView::Play || parse_spec(line) == CommandView::Pause,
    ensures
        step_spec(s, line).queue == s.queue,
        step_spec(s, line).queue.len() == 0,
{
}

/// An unrecognised first token moves the sink not at all, is answered
/// with the unknown outcome, and the lines after it are served exactly
/// as they would have been without it.
pub proof fn lemma_unknown_continues(s: SinkView, bad: Seq<u8>, rest: Seq<Seq<u8>>)
    requires
        parse_spec(bad) == CommandView::Unknown,
    ensures
        step_spec(s, bad) == s,
        outcome_spec(bad) == Outcome::Unknown,
        run_spec(s, seq![bad] + rest) == run_spec(s, rest),
{
    let all = seq![bad] + rest;
    assert(all[0] == bad);
    assert(all.skip(1) =~= rest);
}

/// Enqueueing a file with the supported extension appends exactly one
/// item: a sink that held nothing holds one queued item afterwards.
pub proof fn lemma_enqueue_supported(s: SinkView, line: Seq<u8>, path: Seq<u8>)
    requires
        parse_spec(line) == CommandView::Enqueue(path),
        is_supported(path),
    ensures
        step_spec(s, line).queue == s.queue.push(path),
        step_spec(s, line).queue.len() == s.queue.len() + 1,
        outcome_spec(line) == Outcome::Enqueueing,
{
}

/// Enqueueing a file with an unsupported extension never silently
/// succeeds: the sink is unchanged and the outcome reports the decode
/// failure.
pub proof fn lemma_enqueue_unsupported(s: SinkView, line: Seq<u8>, path: Seq<u8>)
    requires
        parse_spec(line) == CommandView::Enqueue(path),
        !is_supported(path),
    ensures
        step_spec(s, line) == s,
        outcome_spec(line) == Outcome::DecodeFailed,
{
}

/// Connections are applied first-in, first-out: a batch of two lines
/// moves the sink exactly as the first line followed by the second,
/// never interleaved or reordered.
pub proof fn lemma_fifo_order(s: SinkView, first: Seq<u8>, second: Seq<u8>)
    ensures
        run_spec(s, seq![first, second]) == step_spec(step_spec(s, first), second),
{
    let both = seq![first, second];
    assert(both[0] == first);
    assert(both.skip(1) =~= seq![second]);
    assert(run_spec(s, both) == run_spec(step_spec(s, first), seq![second]));
    assert(seq![second].skip(1) =~= Seq::<Seq<u8>>::empty());
    assert(run_spec(step_spec(s, first), seq![second])
        == run_spec(step_spec(step_spec(s, first), second), Seq::<Seq<u8>>::empty()));
}

/// Serving batches one after the other is the same as serving their
/// concatenation: the order of completed connections alone decides
/// where the sink ends.
pub proof fn lemma_run_append(s: SinkView, a: Seq<Seq<u8>>, b: Seq<Seq<u8>>)
    ensures
        run_spec(s, a + b) == run_spec(run_spec(s, a), b),
    decreases a.len(),
{
    if a.len() == 0 {
        assert(a + b =~= b);
    } else {
        assert((a + b)[0] == a[0]);
        assert((a + b).skip(1) =~= a.skip(1) + b);
        lemma_run_append(step_spec(s, a[0]), a.skip(1), b);
    }
}

} // verus!

