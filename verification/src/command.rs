//! Splitting a client line into whitespace-separated tokens and reading
//! the first token as a command.

use vstd::prelude::*;

verus! {

/// ASCII whitespace: the separators the line protocol recognises
/// (tab, line feed, vertical tab, form feed, carriage return, space).
pub open spec fn is_space(b: u8) -> bool {
    b == 32 || (9 <= b && b <= 13)
}

/// Executable mirror of `is_space`.
fn space(b: u8) -> (r: bool)
    ensures
        r == is_space(b),
{
    b == 32 || (9 <= b && b <= 13)
}

/// Length of the leading run of non-space bytes of `s`.
pub open spec fn token_len(s: Seq<u8>) -> nat
    decreases s.len(),
{
    if s.len() == 0 || is_space(s[0]) {
        0
    } else {
        1 + token_len(s.skip(1))
    }
}

pub proof fn lemma_token_len_le(s: Seq<u8>)
    ensures
        token_len(s) <= s.len(),
    decreases s.len(),
{
    if s.len() != 0 && !is_space(s[0]) {
        lemma_token_len_le(s.skip(1));
    }
}

/// The whitespace-separated tokens of `s`, in order: what splitting the
/// line on runs of whitespace yields, empty tokens discarded.
pub open spec fn tokens_of(s: Seq<u8>) -> Seq<Seq<u8>>
    decreases s.len(),
    via tokens_of_decreases
{
    if s.len() == 0 {
        Seq::empty()
    } else if is_space(s[0]) {
        tokens_of(s.skip(1))
    } else {
        seq![s.take(token_len(s) as int)] + tokens_of(s.skip(token_len(s) as int))
    }
}

#[via_fn]
proof fn tokens_of_decreases(s: Seq<u8>) {
    if s.len() != 0 && !is_space(s[0]) {
        lemma_token_len_le(s);
    }
}

/// A run of `n` non-space bytes ended by a space or by the end of `s`
/// is exactly the leading token.
proof fn lemma_token_len_run(s: Seq<u8>, n: int)
    requires
        0 <= n <= s.len(),
        forall|k: int| 0 <= k < n ==> !is_space(#[trigger] s[k]),
        n == s.len() || is_space(s[n]),
    ensures
        token_len(s) == n,
    decreases n,
{
    if n > 0 {
        assert(!is_space(s[0]));
        assert(forall|k: int| 0 <= k < n - 1 ==> s.skip(1)[k] == s[k + 1]);
        lemma_token_len_run(s.skip(1), n - 1);
    }
}

/// The views of a sequence of byte vectors.
pub open spec fn views_of(ts: Seq<Vec<u8>>) -> Seq<Seq<u8>> {
    Seq::new(ts.len(), |i: int| ts[i]@)
}

/// Splits `line` into its whitespace-separated tokens.
pub fn tokenize(line: &[u8]) -> (r: Vec<Vec<u8>>)
    ensures
        views_of(r@) == tokens_of(line@),
{
    let n = line.len();
    let mut r: Vec<Vec<u8>> = Vec::new();
    let mut i: usize = 0;
    proof {
        assert(line@.skip(0) =~= line@);
        assert(views_of(r@) + tokens_of(line@) =~= tokens_of(line@));
    }
    while i < n
        invariant
            n == line@.len(),
            i <= n,
            views_of(r@) + tokens_of(line@.skip(i as int)) == tokens_of(line@),
        decreases n - i,
    {
        if space(line[i]) {
            proof {
                assert(line@.skip(i as int).skip(1) =~= line@.skip(i + 1));
            }
            i += 1;
        } else {
            let ghost rest = line@.skip(i as int);
            let start = i;
            let mut tok: Vec<u8> = Vec::new();
            while i < n && !space(line[i])
                invariant
                    n == line@.len(),
                    start <= i <= n,
                    !is_space(line@[start as int]),
                    tok@ == line@.subrange(start as int, i as int),
                    forall|k: int| start <= k < i ==> !is_space(#[trigger] line@[k]),
                decreases n - i,
            {
                tok.push(line[i]);
                proof {
                    assert(tok@ =~= line@.subrange(start as int, i + 1));
                }
                i += 1;
            }
            proof {
                assert(forall|k: int| 0 <= k < i - start ==> rest[k] == line@[start + k]);
                lemma_token_len_run(rest, i - start);
                assert(rest.take(i - start) =~= tok@);
                assert(rest.skip(i - start) =~= line@.skip(i as int));
                assert(views_of(r@.push(tok)) =~= views_of(r@).push(tok@));
            }
            r.push(tok);
        }
    }
    proof {
        assert(line@.skip(n as int) =~= Seq::<u8>::empty());
        assert(views_of(r@) + tokens_of(line@.skip(n as int)) =~= views_of(r@));
    }
    r
}

/// The bytes of the word `play`.
pub open spec fn play_token() -> Seq<u8> {
    seq![112u8, 108u8, 97u8, 121u8]
}

/// The bytes of the word `pause`.
pub open spec fn pause_token() -> Seq<u8> {
    seq![112u8, 97u8, 117u8, 115u8, 101u8]
}

/// The bytes of the word `enqueue`.
pub open spec fn enqueue_token() -> Seq<u8> {
    seq![101u8, 110u8, 113u8, 117u8, 101u8, 117u8, 101u8]
}

fn play_word() -> (r: Vec<u8>)
    ensures
        r@ == play_token(),
{
    let mut r: Vec<u8> = Vec::new();
    r.push(112);
    r.push(108);
    r.push(97);
    r.push(121);
    proof {
        assert(r@ =~= play_token());
    }
    r
}

fn pause_word() -> (r: Vec<u8>)
    ensures
        r@ == pause_token(),
{
    let mut r: Vec<u8> = Vec::new();
    r.push(112);
    r.push(97);
    r.push(117);
    r.push(115);
    r.push(101);
    proof {
        assert(r@ =~= pause_token());
    }
    r
}

fn enqueue_word() -> (r: Vec<u8>)
    ensures
        r@ == enqueue_token(),
{
    let mut r: Vec<u8> = Vec::new();
    r.push(101);
    r.push(110);
    r.push(113);
    r.push(117);
    r.push(101);
    r.push(117);
    r.push(101);
    proof {
        assert(r@ =~= enqueue_token());
    }
    r
}

/// Whether two byte vectors hold the same bytes.
fn token_eq(t: &Vec<u8>, w: &Vec<u8>) -> (r: bool)
    ensures
        r == (t@ == w@),
{
    if t.len() != w.len() {
        return false;
    }
    let mut k: usize = 0;
    while k < w.len()
        invariant
            t@.len() == w@.len(),
            k <= w@.len(),
            forall|j: int| 0 <= j < k ==> t@[j] == w@[j],
        decreases w@.len() - k,
    {
        if t[k] != w[k] {
            return false;
        }
        k += 1;
    }
    proof {
        assert(t@ =~= w@);
    }
    true
}

/// What one client line asks for, as the dispatcher reads it.
#[derive(Debug, PartialEq, Eq)]
pub enum Command {
    /// First token `play`.
    Play,
    /// First token `pause`.
    Pause,
    /// First token `enqueue`, with the second token as the path.
    Enqueue(Vec<u8>),
    /// First token `enqueue` with no second token.
    EnqueueMissing,
    /// Any other first token.
    Unknown,
    /// A line with no token at all.
    Empty,
}

/// Mathematical image of `Command`.
pub enum CommandView {
    Play,
    Pause,
    Enqueue(Seq<u8>),
    EnqueueMissing,
    Unknown,
    Empty,
}

impl View for Command {
    type V = CommandView;

    open spec fn view(&self) -> CommandView {
        match self {
            Command::Play => CommandView::Play,
            Command::Pause => CommandView::Pause,
            Command::Enqueue(p) => CommandView::Enqueue(p@),
            Command::EnqueueMissing => CommandView::EnqueueMissing,
            Command::Unknown => CommandView::Unknown,
            Command::Empty => CommandView::Empty,
        }
    }
}

/// How a line parses: the first token picks the action, and an `enqueue`
/// takes its path from the second token.
pub open spec fn parse_spec(s: Seq<u8>) -> CommandView {
    let ts = tokens_of(s);
    if ts.len() == 0 {
        CommandView::Empty
    } else if ts[0] == play_token() {
        CommandView::Play
    } else if ts[0] == pause_token() {
        CommandView::Pause
    } else if ts[0] == enqueue_token() {
        if ts.len() >= 2 {
            CommandView::Enqueue(ts[1])
        } else {
            CommandView::EnqueueMissing
        }
    } else {
        CommandView::Unknown
    }
}

/// Parses one client line into the command it carries.
pub fn parse(line: &[u8]) -> (c: Command)
    ensures
        c@ == parse_spec(line@),
{
    let mut ts = tokenize(line);
    proof {
        assert(forall|i: int|
            0 <= i < ts@.len() ==> views_of(ts@)[i] == #[trigger] ts@[i]@);
    }
    if ts.len() == 0 {
        return Command::Empty;
    }
    if token_eq(&ts[0], &play_word()) {
        Command::Play
    } else if token_eq(&ts[0], &pause_word()) {
        Command::Pause
    } else if token_eq(&ts[0], &enqueue_word()) {
        if ts.len() >= 2 {
            let path = ts.remove(1);
            Command::Enqueue(path)
        } else {
            Command::EnqueueMissing
        }
    } else {
        Command::Unknown
    }
}

} // verus!
