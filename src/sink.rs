//! The capture/injection sink as state: one outbound queue drained by the
//! link writer, and one pending queue per subscriber, to each of which every
//! captured frame is copied.
use vstd::prelude::*;
use std::collections::VecDeque;
use crate::wire::copy_range;

verus! {

/// What a sink holds: frames waiting to be written to the link, in order, and
/// for each subscriber the captured frames it has not read yet, in order.
pub struct SinkView {
    pub mtu: u16,
    pub outbound: Seq<Seq<u8>>,
    pub pending: Seq<Seq<Seq<u8>>>,
}

/// The bytes of each frame of a queue.
pub open spec fn frames_of(q: Seq<Vec<u8>>) -> Seq<Seq<u8>> {
    Seq::new(q.len(), |i: int| q[i]@)
}

/// The sink after `frame` is captured: appended to every subscriber's queue.
pub open spec fn published(v: SinkView, frame: Seq<u8>) -> SinkView {
    SinkView {
        mtu: v.mtu,
        outbound: v.outbound,
        pending: Seq::new(v.pending.len(), |i: int| v.pending[i].push(frame)),
    }
}

/// The sink after each of `frames` is captured, first to last.
pub open spec fn published_all(v: SinkView, frames: Seq<Seq<u8>>) -> SinkView
    decreases frames.len(),
{
    if frames.len() == 0 {
        v
    } else {
        published(published_all(v, frames.drop_last()), frames.last())
    }
}

/// Frames are broadcast, not shared out: capturing frames one after another
/// appends all of them, in capture order, to the queue of every subscriber,
/// so each subscriber reads each frame exactly once and subscribers whose
/// queues agreed before agree after.
pub proof fn lemma_broadcast_fan_out(v: SinkView, frames: Seq<Seq<u8>>)
    ensures
        published_all(v, frames).pending.len() == v.pending.len(),
        published_all(v, frames).outbound == v.outbound,
        forall|i: int|
            0 <= i < v.pending.len() ==> #[trigger] published_all(v, frames).pending[i]
                == v.pending[i] + frames,
        forall|i: int, j: int|
            0 <= i < v.pending.len() && 0 <= j < v.pending.len() && v.pending[i] == v.pending[j]
                ==> published_all(v, frames).pending[i] == published_all(v, frames).pending[j],
    decreases frames.len(),
{
    if frames.len() == 0 {
        assert forall|i: int| 0 <= i < v.pending.len() implies #[trigger] published_all(
            v,
            frames,
        ).pending[i] == v.pending[i] + frames by {
            assert(v.pending[i] + frames =~= v.pending[i]);
        }
    } else {
        let init = frames.drop_last();
        lemma_broadcast_fan_out(v, init);
        assert forall|i: int| 0 <= i < v.pending.len() implies #[trigger] published_all(
            v,
            frames,
        ).pending[i] == v.pending[i] + frames by {
            assert(published_all(v, init).pending[i] == v.pending[i] + init);
            assert((v.pending[i] + init).push(frames.last()) =~= v.pending[i] + frames);
        }
    }
}

/// The single owner of the link's queues.
pub struct Sink {
    mtu: u16,
    outbound: VecDeque<Vec<u8>>,
    queues: Vec<VecDeque<Vec<u8>>>,
}

impl View for Sink {
    type V = SinkView;

    closed spec fn view(&self) -> SinkView {
        SinkView {
            mtu: self.mtu,
            outbound: frames_of(self.outbound@),
            pending: Seq::new(self.queues@.len(), |i: int| frames_of(self.queues@[i]@)),
        }
    }
}

impl Sink {
    /// A sink for a link whose MTU is `mtu`, with nothing queued and no subscriber.
    pub fn new(mtu: u16) -> (r: Sink)
        ensures
            r@.mtu == mtu,
            r@.outbound.len() == 0,
            r@.pending.len() == 0,
    {
        let r = Sink { mtu, outbound: VecDeque::new(), queues: Vec::new() };
        assert(r@.outbound =~= Seq::<Seq<u8>>::empty());
        r
    }

    /// The MTU of the link, read once when the sink was made.
    pub fn mtu(&self) -> (r: u16)
        ensures
            r == self@.mtu,
    {
        self.mtu
    }

    /// Registers a subscriber; it receives every frame captured from now on.
    /// Returns its number.
    pub fn add_rx(&mut self) -> (r: usize)
        ensures
            r == old(self)@.pending.len(),
            final(self)@ == (SinkView {
                pending: old(self)@.pending.push(Seq::empty()),
                ..old(self)@
            }),
    {
        let r = self.queues.len();
        self.queues.push(VecDeque::new());
        assert(frames_of(self.queues@[r as int]@) =~= Seq::<Seq<u8>>::empty());
        assert(self@.pending =~= old(self)@.pending.push(Seq::empty()));
        assert(self@.outbound =~= old(self)@.outbound);
        r
    }

    /// Queues `frame` for the link; it is written after every frame queued before it.
    pub fn send(&mut self, frame: Vec<u8>)
        ensures
            final(self)@ == (SinkView {
                outbound: old(self)@.outbound.push(frame@),
                ..old(self)@
            }),
    {
        self.outbound.push_back(frame);
        assert(self@.outbound =~= old(self)@.outbound.push(frame@));
        assert(self@.pending =~= old(self)@.pending);
    }

    /// Takes the oldest frame waiting for the link, if any.
    pub fn next_outbound(&mut self) -> (r: Option<Vec<u8>>)
        ensures
            old(self)@.outbound.len() == 0 ==> r is None && final(self)@ == old(self)@,
            old(self)@.outbound.len() > 0 ==> (r matches Some(f) && f@ == old(self)@.outbound[0]
                && final(self)@ == (SinkView {
                outbound: old(self)@.outbound.drop_first(),
                ..old(self)@
            })),
    {
        let r = self.outbound.pop_front();
        assert(self@.outbound =~= if old(self)@.outbound.len() == 0 {
            old(self)@.outbound
        } else {
            old(self)@.outbound.drop_first()
        });
        assert(self@.pending =~= old(self)@.pending);
        r
    }

    /// Hands a captured frame to every subscriber.
    pub fn publish(&mut self, frame: &[u8])
        ensures
            final(self)@ == published(old(self)@, frame@),
    {
        let n = self.queues.len();
        let mut i: usize = 0;
        while i < n
            invariant
                n == self.queues@.len(),
                n == old(self).queues@.len(),
                i <= n,
                self.mtu == old(self).mtu,
                self.outbound@ == old(self).outbound@,
                forall|k: int|
                    0 <= k < i ==> frames_of(#[trigger] self.queues@[k]@) == frames_of(
                        old(self).queues@[k]@,
                    ).push(frame@),
                forall|k: int|
                    i <= k < n ==> #[trigger] self.queues@[k]@ == old(self).queues@[k]@,
            decreases n - i,
        {
            let copy = copy_range(frame, 0, frame.len());
            assert(frame@.subrange(0, frame@.len() as int) =~= frame@);
            let ghost before = self.queues@[i as int]@;
            self.queues[i].push_back(copy);
            assert(frames_of(self.queues@[i as int]@) =~= frames_of(before).push(frame@));
            i = i + 1;
        }
        assert(self@.pending =~= published(old(self)@, frame@).pending);
    }

    /// Takes the oldest frame subscriber `id` has not read yet, if any.
    pub fn recv(&mut self, id: usize) -> (r: Option<Vec<u8>>)
        requires
            id < old(self)@.pending.len(),
        ensures
            old(self)@.pending[id as int].len() == 0 ==> r is None && final(self)@ == old(self)@,
            old(self)@.pending[id as int].len() > 0 ==> (r matches Some(f) && f@ == old(
                self,
            )@.pending[id as int][0] && final(self)@ == (SinkView {
                pending: old(self)@.pending.update(
                    id as int,
                    old(self)@.pending[id as int].drop_first(),
                ),
                ..old(self)@
            })),
    {
        let r = self.queues[id].pop_front();
        proof {
            assert(self@.outbound =~= old(self)@.outbound);
            if old(self)@.pending[id as int].len() == 0 {
                assert(self@.pending =~= old(self)@.pending);
            } else {
                assert(frames_of(self.queues@[id as int]@) =~= old(
                    self,
                )@.pending[id as int].drop_first());
                assert(self@.pending =~= old(self)@.pending.update(
                    id as int,
                    old(self)@.pending[id as int].drop_first(),
                ));
            }
        }
        r
    }
}

} // verus!
