//! The playback sink: a queue of decoded items and a paused flag, with
//! the extension check that decides whether a file can be decoded at all.
//!
//! The queue holds the paths of the items in the order they were
//! enqueued; the audio device that consumes them lives outside this
//! crate and is driven from the same transitions.

use vstd::prelude::*;

use crate::command::views_of;

verus! {

/// The bytes of the one supported extension, `mp3`.
pub open spec fn mp3_ext() -> Seq<u8> {
    seq![109u8, 112u8, 51u8]
}

/// The extension of a path: the suffix after the last dot, or the whole
/// name when it holds no dot.
pub open spec fn ext_of(p: Seq<u8>) -> Seq<u8>
    decreases p.len(),
{
    if p.len() == 0 {
        Seq::empty()
    } else if p[p.len() - 1] == 46 {
        Seq::empty()
    } else {
        ext_of(p.take(p.len() - 1)).push(p[p.len() - 1])
    }
}

/// Whether the decoder accepts a path: its extension is `mp3`.
pub open spec fn is_supported(p: Seq<u8>) -> bool {
    ext_of(p) == mp3_ext()
}

/// The extension is the run of non-dot bytes that ends `p`.
proof fn lemma_ext_run(p: Seq<u8>, k: int)
    requires
        0 <= k <= p.len(),
        forall|j: int| k <= j < p.len() ==> #[trigger] p[j] != 46,
        k == 0 || p[k - 1] == 46,
    ensures
        ext_of(p) == p.skip(k),
    decreases p.len(),
{
    if p.len() == 0 {
        assert(ext_of(p) =~= p.skip(0));
    } else if p[p.len() - 1] == 46 {
        assert(k == p.len());
        assert(ext_of(p) =~= p.skip(k));
    } else {
        let q = p.take(p.len() - 1);
        assert(forall|j: int| k <= j < q.len() ==> #[trigger] q[j] != 46);
        lemma_ext_run(q, k);
        assert(ext_of(p) =~= p.skip(k));
    }
}

/// Whether the decoder accepts `path`: true exactly when its extension
/// is `mp3`.
pub fn supported(path: &[u8]) -> (r: bool)
    ensures
        r == is_supported(path@),
{
    let n = path.len();
    let mut k: usize = n;
    while k > 0 && path[k - 1] != 46
        invariant
            n == path@.len(),
            k <= n,
            forall|j: int| k <= j < n ==> #[trigger] path@[j] != 46,
        decreases k,
    {
        k -= 1;
    }
    proof {
        lemma_ext_run(path@, k as int);
    }
    let r = n - k == 3 && path[k] == 109 && path[k + 1] == 112 && path[k + 2] == 51;
    proof {
        if r {
            assert(path@.skip(k as int) =~= mp3_ext());
        } else {
            if ext_of(path@) == mp3_ext() {
                assert(path@.skip(k as int).len() == 3);
                assert(path@.skip(k as int)[0] == 109);
                assert(path@.skip(k as int)[1] == 112);
                assert(path@.skip(k as int)[2] == 51);
                assert(false);
            }
        }
    }
    r
}

/// Why a file could not be turned into a playable item.
#[derive(Clone, Copy, Debug, PartialEq, Eq, Structural)]
pub enum DecodeError {
    /// The path's extension is not the supported one.
    UnsupportedExtension,
}

/// One playback sink: the queued items, eldest first, and whether
/// playback is currently suspended.
pub struct Sink {
    queue: Vec<Vec<u8>>,
    paused: bool,
}

/// Mathematical image of `Sink`.
#[verifier::ext_equal]
pub struct SinkView {
    /// Paths of the queued items, in the order they were enqueued.
    pub queue: Seq<Seq<u8>>,
    /// Whether playback is suspended.
    pub paused: bool,
}

impl View for Sink {
    type V = SinkView;

    closed spec fn view(&self) -> SinkView {
        SinkView { queue: views_of(self.queue@), paused: self.paused }
    }
}

impl Sink {
    /// A fresh sink: nothing queued, not paused.
    pub fn new() -> (s: Sink)
        ensures
            s@.queue.len() == 0,
            !s@.paused,
    {
        Sink { queue: Vec::new(), paused: false }
    }

    /// Number of items waiting in the queue.
    pub fn queued_count(&self) -> (n: usize)
        ensures
            n == self@.queue.len(),
    {
        self.queue.len()
    }

    /// Whether playback is suspended.
    pub fn is_paused(&self) -> (b: bool)
        ensures
            b == self@.paused,
    {
        self.paused
    }

    /// The path of the queued item at position `i`, eldest first.
    pub fn queued_path(&self, i: usize) -> (p: &Vec<u8>)
        requires
            i < self@.queue.len(),
        ensures
            p@ == self@.queue[i as int],
    {
        &self.queue[i]
    }
}

/// Resumes playback: the paused flag is cleared, the queue untouched.
pub fn play(sink: &mut Sink)
    ensures
        final(sink)@.queue == old(sink)@.queue,
        !final(sink)@.paused,
{
    sink.paused = false;
}

/// Suspends playback, keeping the position: the queue is untouched.
pub fn pause(sink: &mut Sink)
    ensures
        final(sink)@.queue == old(sink)@.queue,
        final(sink)@.paused,
{
    sink.paused = true;
}

/// Appends a decodable file to the play queue. A path with an
/// unsupported extension is refused and leaves the sink unchanged.
pub fn queue(sink: &mut Sink, filename: &[u8]) -> (r: Result<(), DecodeError>)
    ensures
        r is Ok <==> is_supported(filename@),
        is_supported(filename@) ==> final(sink)@ == (SinkView {
            queue: old(sink)@.queue.push(filename@),
            ..old(sink)@
        }),
        !is_supported(filename@) ==> final(sink)@ == old(sink)@
            && r == Result::<(), DecodeError>::Err(DecodeError::UnsupportedExtension),
{
    if supported(filename) {
        let item = vstd::slice::slice_to_vec(filename);
        sink.queue.push(item);
        proof {
            assert(views_of(sink.queue@) =~= views_of(old(sink).queue@).push(filename@));
            assert(sink@ =~= (SinkView { queue: old(sink)@.queue.push(filename@), ..old(sink)@ }));
        }
        Ok(())
    } else {
        Err(DecodeError::UnsupportedExtension)
    }
}

/// Halts playback and discards every queued item.
pub fn stop(sink: &mut Sink)
    ensures
        final(sink)@.queue.len() == 0,
        final(sink)@.paused == old(sink)@.paused,
{
    sink.queue.clear();
}

} // verus!
