use crate::buffer::replace::Replacer;
use crate::{EpochId, FrameId};
use std::collections::{HashMap, VecDeque};
use vstd::prelude::*;

verus! {

broadcast use vstd::std_specs::hash::group_hash_axioms;

/// The replacer's state: for each eligible frame, the stamp of the unpin that
/// made it eligible, and the stamp that the next such unpin receives.
pub ghost struct ReplacerView {
    pub stamps: Map<FrameId, EpochId>,
    pub next_epoch: EpochId,
}

/// `f` is eligible, and no eligible frame became so before it.
pub open spec fn is_oldest(stamps: Map<FrameId, EpochId>, f: FrameId) -> bool {
    &&& stamps.contains_key(f)
    &&& forall|g: FrameId| #[trigger] stamps.contains_key(g) ==> stamps[f] <= stamps[g]
}

/// The state after `pin(f)`: `f` is no longer eligible.
pub open spec fn after_pin(v: ReplacerView, f: FrameId) -> ReplacerView {
    ReplacerView { stamps: v.stamps.remove(f), ..v }
}

/// The state after `unpin(f)`: a frame not yet eligible becomes so with the
/// next stamp; an eligible frame keeps its stamp.
pub open spec fn after_unpin(v: ReplacerView, f: FrameId) -> ReplacerView {
    if v.stamps.contains_key(f) {
        v
    } else {
        ReplacerView {
            stamps: v.stamps.insert(f, v.next_epoch),
            next_epoch: (v.next_epoch + 1) as EpochId,
        }
    }
}

/// A call that changes which frames are eligible.
pub enum ReplacerOp {
    Pin(FrameId),
    Unpin(FrameId),
}

/// The state after the calls `ops`, in order.
pub open spec fn apply_ops(v: ReplacerView, ops: Seq<ReplacerOp>) -> ReplacerView
    decreases ops.len(),
{
    if ops.len() == 0 {
        v
    } else {
        let w = apply_ops(v, ops.drop_last());
        match ops.last() {
            ReplacerOp::Pin(f) => after_pin(w, f),
            ReplacerOp::Unpin(f) => after_unpin(w, f),
        }
    }
}

/// Every stamp was handed out before the next one.
pub open spec fn stamps_valid(v: ReplacerView) -> bool {
    forall|f: FrameId| #[trigger] v.stamps.contains_key(f) ==> v.stamps[f] < v.next_epoch
}

/// A frame whose last call was `pin` is not eligible, so `victim` cannot
/// return it, whatever calls came before.
pub proof fn lemma_pinned_never_victim(v: ReplacerView, ops: Seq<ReplacerOp>, i: int, f: FrameId)
    requires
        0 <= i < ops.len(),
        ops[i] == ReplacerOp::Pin(f),
        forall|k: int| i < k < ops.len() ==> ops[k] != ReplacerOp::Pin(f) && ops[k] != ReplacerOp::Unpin(f),
    ensures
        !apply_ops(v, ops).stamps.contains_key(f),
        !is_oldest(apply_ops(v, ops).stamps, f),
    decreases ops.len(),
{
    if i < ops.len() - 1 {
        lemma_pinned_never_victim(v, ops.drop_last(), i, f);
        assert(ops.last() == ops[ops.len() - 1]);
    }
}

/// Pins and unpins of other frames, and repeated unpins of `f`, leave the stamp
/// of an eligible frame `f` as it is, and keep stamps valid.
proof fn lemma_stamp_kept(v: ReplacerView, ops: Seq<ReplacerOp>, f: FrameId)
    requires
        stamps_valid(v),
        v.stamps.contains_key(f),
        forall|k: int| 0 <= k < ops.len() ==> ops[k] != ReplacerOp::Pin(f),
        v.next_epoch + ops.len() <= EpochId::MAX,
    ensures
        stamps_valid(apply_ops(v, ops)),
        apply_ops(v, ops).stamps.contains_key(f),
        apply_ops(v, ops).stamps[f] == v.stamps[f],
        apply_ops(v, ops).next_epoch <= v.next_epoch + ops.len(),
    decreases ops.len(),
{
    if ops.len() > 0 {
        let w = apply_ops(v, ops.drop_last());
        lemma_stamp_kept(v, ops.drop_last(), f);
        assert(ops.last() == ops[ops.len() - 1]);
        match ops.last() {
            ReplacerOp::Pin(g) => {
                assert(stamps_valid(after_pin(w, g)));
            },
            ReplacerOp::Unpin(g) => {
                assert(stamps_valid(after_unpin(w, g)));
            },
        }
    }
}

/// Frames leave in the order in which they became eligible: once `g` is
/// unpinned behind an eligible `f`, `g` is not the victim while neither is
/// pinned again.
pub proof fn lemma_fifo(v: ReplacerView, f: FrameId, g: FrameId, rest: Seq<ReplacerOp>)
    requires
        stamps_valid(v),
        v.stamps.contains_key(f),
        !v.stamps.contains_key(g),
        forall|k: int|
            0 <= k < rest.len() ==> rest[k] != ReplacerOp::Pin(f) && rest[k] != ReplacerOp::Pin(g),
        v.next_epoch + 1 + rest.len() <= EpochId::MAX,
    ensures
        apply_ops(v, seq![ReplacerOp::Unpin(g)] + rest).stamps[f] < apply_ops(
            v,
            seq![ReplacerOp::Unpin(g)] + rest,
        ).stamps[g],
        !is_oldest(apply_ops(v, seq![ReplacerOp::Unpin(g)] + rest).stamps, g),
{
    let w = after_unpin(v, g);
    let first = seq![ReplacerOp::Unpin(g)];
    assert(first.drop_last() =~= Seq::<ReplacerOp>::empty());
    assert(apply_ops(v, first.drop_last()) == v);
    assert(first.last() == ReplacerOp::Unpin(g));
    assert(apply_ops(v, first) == w);
    lemma_apply_concat(v, first, rest);
    assert(stamps_valid(w));
    lemma_stamp_kept(w, rest, f);
    lemma_stamp_kept(w, rest, g);
}

proof fn lemma_apply_concat(v: ReplacerView, a: Seq<ReplacerOp>, b: Seq<ReplacerOp>)
    ensures
        apply_ops(v, a + b) == apply_ops(apply_ops(v, a), b),
    decreases b.len(),
{
    if b.len() > 0 {
        lemma_apply_concat(v, a, b.drop_last());
        assert((a + b).drop_last() =~= a + b.drop_last());
        assert((a + b).last() == b.last());
    } else {
        assert(a + b =~= a);
    }
}

/// Second-chance replacement kept as a queue of stamped unpins: a frame leaves
/// in the order in which it became eligible, and an unpin of a frame that is
/// already eligible keeps its place.
pub struct ClockReplacer {
    queue: VecDeque<(FrameId, EpochId)>,
    recorder: HashMap<FrameId, EpochId>,
    epoch_id: EpochId,
}

impl View for ClockReplacer {
    type V = ReplacerView;

    closed spec fn view(&self) -> ReplacerView {
        ReplacerView { stamps: self.recorder@, next_epoch: self.epoch_id }
    }
}

impl ClockReplacer {
    /// Queue stamps increase from front to back and lie below the next stamp;
    /// each recorded stamp has its entry in the queue. Other entries are stale.
    pub closed spec fn wf(&self) -> bool {
        let q = self.queue@;
        &&& forall|i: int, j: int| 0 <= i < j < q.len() ==> q[i].1 < q[j].1
        &&& forall|i: int| 0 <= i < q.len() ==> q[i].1 < self.epoch_id
        &&& forall|f: FrameId| #[trigger] self.recorder@.contains_key(f) ==> exists|i: int|
            0 <= i < q.len() && q[i] == (f, self.recorder@[f])
    }

    /// No two eligible frames share a stamp, every stamp was handed out, and
    /// finitely many frames are eligible.
    pub proof fn lemma_stamps(&self)
        requires
            self.wf(),
        ensures
            self@.stamps.dom().finite(),
            stamps_valid(self@),
            forall|f: FrameId, g: FrameId|
                #[trigger] self@.stamps.contains_key(f) && #[trigger] self@.stamps.contains_key(g)
                    && f != g ==> self@.stamps[f] != self@.stamps[g],
    {
        let q = self.queue@;
        assert(self.recorder@.dom().finite());
        assert forall|f: FrameId, g: FrameId|
            #[trigger] self@.stamps.contains_key(f) && #[trigger] self@.stamps.contains_key(g)
                && f != g implies self@.stamps[f] != self@.stamps[g] by {
            let i = choose|i: int| 0 <= i < q.len() && q[i] == (f, self.recorder@[f]);
            let j = choose|j: int| 0 <= j < q.len() && q[j] == (g, self.recorder@[g]);
            if i < j {
                assert(q[i].1 < q[j].1);
            } else if j < i {
                assert(q[j].1 < q[i].1);
            }
        }
    }

    /// At most one frame is the oldest eligible one.
    pub proof fn lemma_oldest_unique(&self, f: FrameId, g: FrameId)
        requires
            self.wf(),
            is_oldest(self@.stamps, f),
            is_oldest(self@.stamps, g),
        ensures
            f == g,
    {
        self.lemma_stamps();
    }

    /// A replacer with no eligible frame.
    pub fn new(num_pages: usize) -> (r: ClockReplacer)
        ensures
            r.wf(),
            r@.stamps == Map::<FrameId, EpochId>::empty(),
            r@.next_epoch == 0,
    {
        ClockReplacer { queue: VecDeque::with_capacity(num_pages), recorder: HashMap::new(), epoch_id: 0 }
    }

    /// Takes the frame that became eligible first out of eligibility; `None`
    /// when no frame is eligible.
    pub fn victim(&mut self) -> (r: Option<FrameId>)
        requires
            old(self).wf(),
        ensures
            final(self).wf(),
            final(self)@.next_epoch == old(self)@.next_epoch,
            match r {
                Some(f) => is_oldest(old(self)@.stamps, f) && final(self)@.stamps == old(
                    self,
                )@.stamps.remove(f),
                None => old(self)@.stamps.is_empty() && final(self)@.stamps == old(self)@.stamps,
            },
    {
        loop
            invariant
                self.wf(),
                self@ == old(self)@,
            decreases self.queue@.len(),
        {
            let ghost q = self.queue@;
            match self.queue.pop_front() {
                Some((frame_id, xid)) => {
                    let live = match self.recorder.get(&frame_id) {
                        Some(e) => *e == xid,
                        None => false,
                    };
                    if live {
                        proof {
                            assert forall|g: FrameId| #[trigger]
                                self.recorder@.contains_key(g) implies self.recorder@[frame_id]
                                <= self.recorder@[g] by {
                                let j = choose|j: int|
                                    0 <= j < q.len() && q[j] == (g, self.recorder@[g]);
                                if j > 0 {
                                    assert(q[0].1 < q[j].1);
                                }
                            }
                        }
                        self.recorder.remove(&frame_id);
                        proof {
                            let q2 = self.queue@;
                            assert forall|f: FrameId| #[trigger]
                                self.recorder@.contains_key(f) implies exists|i: int|
                                0 <= i < q2.len() && q2[i] == (f, self.recorder@[f]) by {
                                let j = choose|j: int|
                                    0 <= j < q.len() && q[j] == (f, self.recorder@[f]);
                                assert(j != 0);
                                assert(q2[j - 1] == q[j]);
                            }
                        }
                        return Some(frame_id);
                    }
                    proof {
                        let q2 = self.queue@;
                        assert forall|f: FrameId| #[trigger]
                            self.recorder@.contains_key(f) implies exists|i: int|
                            0 <= i < q2.len() && q2[i] == (f, self.recorder@[f]) by {
                            let j = choose|j: int|
                                0 <= j < q.len() && q[j] == (f, self.recorder@[f]);
                            assert(j != 0);
                            assert(q2[j - 1] == q[j]);
                        }
                    }
                },
                None => {
                    proof {
                        assert(self.recorder@.dom() =~= Set::<FrameId>::empty());
                    }
                    return None;
                },
            }
        }
    }

    /// The frame that `victim` would take now, leaving the replacer as it is.
    pub fn peek_victim(&self) -> (r: Option<FrameId>)
        requires
            self.wf(),
        ensures
            match r {
                Some(f) => is_oldest(self@.stamps, f),
                None => self@.stamps.is_empty(),
            },
    {
        let ghost q = self.queue@;
        let mut i: usize = 0;
        while i < self.queue.len()
            invariant
                self.wf(),
                q == self.queue@,
                0 <= i <= q.len(),
                forall|k: int|
                    0 <= k < i ==> !(self.recorder@.contains_key(#[trigger] q[k].0)
                        && self.recorder@[q[k].0] == q[k].1),
            decreases q.len() - i,
        {
            let (frame_id, xid) = self.queue[i];
            let live = match self.recorder.get(&frame_id) {
                Some(e) => *e == xid,
                None => false,
            };
            if live {
                proof {
                    assert forall|g: FrameId| #[trigger]
                        self.recorder@.contains_key(g) implies self.recorder@[frame_id]
                        <= self.recorder@[g] by {
                        let j = choose|j: int| 0 <= j < q.len() && q[j] == (g, self.recorder@[g]);
                        if j < i {
                            assert(q[j].0 == g);
                        } else if j > i {
                            assert(q[i as int].1 < q[j].1);
                        }
                    }
                }
                return Some(frame_id);
            }
            i = i + 1;
        }
        proof {
            assert forall|g: FrameId| !#[trigger] self.recorder@.contains_key(g) by {
                if self.recorder@.contains_key(g) {
                    let j = choose|j: int| 0 <= j < q.len() && q[j] == (g, self.recorder@[g]);
                    assert(q[j].0 == g);
                }
            }
            assert(self.recorder@.dom() =~= Set::<FrameId>::empty());
        }
        None
    }

    /// Makes `frame_id` ineligible; a queued entry of it goes stale.
    pub fn pin(&mut self, frame_id: FrameId)
        requires
            old(self).wf(),
        ensures
            final(self).wf(),
            final(self)@ == after_pin(old(self)@, frame_id),
    {
        if self.recorder.contains_key(&frame_id) {
            self.recorder.remove(&frame_id);
        }
        proof {
            assert(self.recorder@ =~= old(self).recorder@.remove(frame_id));
            let q = self.queue@;
            assert forall|f: FrameId| #[trigger]
                self.recorder@.contains_key(f) implies exists|i: int|
                0 <= i < q.len() && q[i] == (f, self.recorder@[f]) by {
                assert(old(self).recorder@.contains_key(f));
            }
        }
    }

    /// Makes `frame_id` eligible behind every eligible frame, unless it is
    /// eligible already, in which case it keeps its place.
    pub fn unpin(&mut self, frame_id: FrameId)
        requires
            old(self).wf(),
            old(self)@.next_epoch < EpochId::MAX,
        ensures
            final(self).wf(),
            final(self)@ == after_unpin(old(self)@, frame_id),
    {
        if !self.recorder.contains_key(&frame_id) {
            let ghost q = self.queue@;
            self.recorder.insert(frame_id, self.epoch_id);
            self.queue.push_back((frame_id, self.epoch_id));
            self.epoch_id = self.epoch_id + 1;
            proof {
                let q2 = self.queue@;
                assert(q2[q.len() as int] == (frame_id, self.recorder@[frame_id]));
                assert forall|f: FrameId| #[trigger]
                    self.recorder@.contains_key(f) implies exists|i: int|
                    0 <= i < q2.len() && q2[i] == (f, self.recorder@[f]) by {
                    if f != frame_id {
                        let j = choose|j: int|
                            0 <= j < q.len() && q[j] == (f, old(self).recorder@[f]);
                        assert(q2[j] == q[j]);
                    }
                }
            }
        }
    }

    /// The stamp that the next unpin of a frame not yet eligible receives.
    pub fn next_epoch(&self) -> (r: EpochId)
        ensures
            r == self@.next_epoch,
    {
        self.epoch_id
    }

    /// The number of eligible frames.
    pub fn size(&self) -> (r: usize)
        ensures
            r == self@.stamps.len(),
    {
        self.recorder.len()
    }
}

} // verus!

verus! {

impl Replacer for ClockReplacer {
    open spec fn inv(&self) -> bool {
        self.wf()
    }

    open spec fn eligible(&self) -> Set<FrameId> {
        self@.stamps.dom()
    }

    open spec fn can_unpin(&self) -> bool {
        self@.next_epoch < EpochId::MAX
    }

    fn victim(&mut self) -> (r: Option<FrameId>) {
        let r = ClockReplacer::victim(self);
        proof {
            assert(final(self)@.stamps.dom() =~= old(self)@.stamps.dom().remove(r->0) || r is None);
        }
        r
    }

    fn pin(&mut self, frame_id: FrameId) {
        ClockReplacer::pin(self, frame_id);
        proof {
            assert(self@.stamps.dom() =~= old(self)@.stamps.dom().remove(frame_id));
        }
    }

    fn unpin(&mut self, frame_id: FrameId) {
        ClockReplacer::unpin(self, frame_id);
        proof {
            assert(self@.stamps.dom() =~= old(self)@.stamps.dom().insert(frame_id));
        }
    }

    fn size(&self) -> (r: usize) {
        ClockReplacer::size(self)
    }
}

} // verus!
