use crate::FrameId;
use vstd::prelude::*;

verus! {

/// A victim-selection policy over frame ids. A frame is eligible once it was
/// unpinned after its last pin; `victim` takes one eligible frame out.
pub trait Replacer {
    /// The policy's own consistency condition.
    spec fn inv(&self) -> bool;

    /// The frames that are eligible for eviction.
    spec fn eligible(&self) -> Set<FrameId>;

    /// Whether one more unpin can be recorded.
    spec fn can_unpin(&self) -> bool;

    fn victim(&mut self) -> (r: Option<FrameId>)
        requires
            old(self).inv(),
        ensures
            final(self).inv(),
            match r {
                Some(f) => old(self).eligible().contains(f) && final(self).eligible() == old(
                    self,
                ).eligible().remove(f),
                None => old(self).eligible().is_empty() && final(self).eligible() == old(
                    self,
                ).eligible(),
            },
    ;

    fn pin(&mut self, frame_id: FrameId)
        requires
            old(self).inv(),
        ensures
            final(self).inv(),
            final(self).eligible() == old(self).eligible().remove(frame_id),
    ;

    fn unpin(&mut self, frame_id: FrameId)
        requires
            old(self).inv(),
            old(self).can_unpin(),
        ensures
            final(self).inv(),
            final(self).eligible() == old(self).eligible().insert(frame_id),
    ;

    fn size(&self) -> (r: usize)
        requires
            self.inv(),
        ensures
            r == self.eligible().len(),
    ;
}

} // verus!
