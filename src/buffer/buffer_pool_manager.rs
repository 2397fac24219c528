//! The buffer pool: a bounded set of frames over an unbounded set of pages.
//!
//! The pool decides; the caller does the disk I/O. Before a page is brought
//! into a frame, `replacement` (or the `Miss` of `fetch_page`) says which
//! frame it will take and which dirty page must be written back first, so that
//! a failed write leaves the pool as it was.
use crate::buffer::clock_replacer::{after_pin, after_unpin, is_oldest, ClockReplacer, ReplacerView};
use crate::storage::page::{Page, PageView};
use crate::{EpochId, FrameId, PageId, INVALID_PAGE_ID, PAGE_SIZE};
use std::collections::{HashMap, VecDeque};
use vstd::prelude::*;
use vstd::set_lib::{lemma_int_range, lemma_len_subset, lemma_map_size, set_int_range};

verus! {

broadcast use vstd::std_specs::hash::group_hash_axioms;

/// The pool as a mathematical value.
pub ghost struct PoolView {
    pub pool_size: nat,
    /// The resident page of each occupied frame.
    pub frames: Map<FrameId, PageView>,
    pub page_table: Map<PageId, FrameId>,
    pub free_list: Seq<FrameId>,
    pub replacer: ReplacerView,
    /// The last page id handed out; ids are handed out from 1 upwards.
    pub next_page_id: PageId,
}

/// `f` names a slot of the pool.
pub open spec fn in_pool(v: PoolView, f: FrameId) -> bool {
    1 <= f <= v.pool_size
}

/// The pool's bookkeeping agrees with itself: each page-table entry points to
/// an occupied frame that holds that page, each frame is either occupied by a
/// mapped page or on the free list, and a frame is eligible for eviction
/// exactly when its page is unpinned.
pub open spec fn pool_consistent(v: PoolView) -> bool {
    &&& forall|p: PageId| #[trigger]
        v.page_table.contains_key(p) ==> v.frames.contains_key(v.page_table[p])
            && v.frames[v.page_table[p]].page_id == p
    &&& forall|f: FrameId| #[trigger]
        v.frames.contains_key(f) ==> in_pool(v, f) && v.page_table.contains_key(
            v.frames[f].page_id,
        ) && v.page_table[v.frames[f].page_id] == f && v.frames[f].page_id != INVALID_PAGE_ID
    &&& forall|f: FrameId| in_pool(v, f) ==> (#[trigger] v.frames.contains_key(f) || v.free_list.contains(f))
    &&& forall|i: int| 0 <= i < v.free_list.len() ==> in_pool(v, #[trigger] v.free_list[i]) && !v.frames.contains_key(v.free_list[i])
    &&& forall|f: FrameId| #[trigger]
        v.replacer.stamps.contains_key(f) <==> v.frames.contains_key(f) && v.frames[f].pin_count == 0
}

/// Every frame of the pool holds a pinned page.
pub open spec fn all_pinned(v: PoolView) -> bool {
    forall|f: FrameId| in_pool(v, f) ==> #[trigger] v.frames.contains_key(f) && v.frames[f].pin_count > 0
}

/// The frame that the next page brought in takes: the first free frame, else
/// the frame that became eligible first; none when every frame is pinned.
pub open spec fn chosen_frame(v: PoolView) -> Option<FrameId> {
    if v.free_list.len() > 0 {
        Some(v.free_list[0])
    } else if exists|f: FrameId| is_oldest(v.replacer.stamps, f) {
        Some(choose|f: FrameId| is_oldest(v.replacer.stamps, f))
    } else {
        None
    }
}

/// The page that must reach the disk before frame `f` is reused: its resident
/// page, if that page is dirty.
pub open spec fn write_back_of(v: PoolView, f: FrameId) -> Option<PageView> {
    if v.frames.contains_key(f) && v.frames[f].is_dirty {
        Some(v.frames[f])
    } else {
        None
    }
}

/// The pool after frame `f` has been given to page `p`: the frame leaves the
/// free list or the replacer, the page it held leaves the page table, and `p`
/// is installed.
pub open spec fn installed(v: PoolView, f: FrameId, p: PageView) -> PoolView {
    PoolView {
        frames: v.frames.insert(f, p),
        page_table: if v.frames.contains_key(f) {
            v.page_table.remove(v.frames[f].page_id).insert(p.page_id, f)
        } else {
            v.page_table.insert(p.page_id, f)
        },
        free_list: if v.free_list.len() > 0 {
            v.free_list.drop_first()
        } else {
            v.free_list
        },
        replacer: after_pin(v.replacer, f),
        ..v
    }
}

/// A fresh page as `new_page` installs it.
pub open spec fn fresh_page(page_id: PageId) -> PageView {
    PageView {
        data: Seq::new(PAGE_SIZE as nat, |i: int| 0u8),
        page_id,
        pin_count: 1,
        is_dirty: false,
    }
}

/// The frame chosen for an incoming page and the dirty page to write back
/// before the frame is reused.
pub struct Replacement {
    pub frame_id: FrameId,
    pub write_back: Option<Page>,
}

/// What `fetch_page` found.
pub enum Fetch {
    /// The page is resident in this frame and has been pinned.
    Hit(FrameId),
    /// The page must be read from disk into the frame of the replacement,
    /// after its write-back; `load_page` then installs it.
    Miss(Replacement),
    /// Every frame is pinned: the page cannot be brought in.
    Exhausted,
}

/// A fixed number of frames, numbered from 1, that hold pages; a page table
/// from resident page ids to frames; the free frames in order; and a clock
/// replacer over the frames whose pages are unpinned.
pub struct BufferPoolManager {
    pool_size: usize,
    /// The page of frame `f` is at index `f - 1`.
    pages: Vec<Option<Page>>,
    page_table: HashMap<PageId, FrameId>,
    replacer: ClockReplacer,
    free_list: VecDeque<FrameId>,
    next_page_id: PageId,
}

pub closed spec fn frames_of(pages: Seq<Option<Page>>) -> Map<FrameId, PageView> {
    Map::new(
        |f: FrameId| 1 <= f <= pages.len() && pages[f - 1] is Some,
        |f: FrameId| pages[f - 1]->0@,
    )
}

impl View for BufferPoolManager {
    type V = PoolView;

    closed spec fn view(&self) -> PoolView {
        PoolView {
            pool_size: self.pool_size as nat,
            frames: frames_of(self.pages@),
            page_table: self.page_table@,
            free_list: self.free_list@,
            replacer: self.replacer@,
            next_page_id: self.next_page_id,
        }
    }
}

/// `rep` is the replacement that the pool `v` would make now.
pub open spec fn describes(v: PoolView, rep: Replacement) -> bool {
    &&& chosen_frame(v) == Some(rep.frame_id)
    &&& match rep.write_back {
        Some(p) => write_back_of(v, rep.frame_id) == Some(p@),
        None => write_back_of(v, rep.frame_id) is None,
    }
}

/// A map from frames to stamps that holds `f` has a frame with the least stamp.
proof fn lemma_oldest_exists(stamps: Map<FrameId, EpochId>, f: FrameId)
    requires
        stamps.contains_key(f),
        stamps.dom().finite(),
    ensures
        exists|g: FrameId| is_oldest(stamps, g),
    decreases stamps.len(),
{
    let rest = stamps.remove(f);
    if rest.len() == 0 {
        assert forall|g: FrameId| #[trigger] stamps.contains_key(g) implies stamps[f] <= stamps[g] by {
            if g != f {
                assert(rest.dom().contains(g));
            }
        }
        assert(is_oldest(stamps, f));
    } else {
        let h = rest.dom().choose();
        assert(rest.dom().contains(h));
        lemma_oldest_exists(rest, h);
        let m = choose|g: FrameId| is_oldest(rest, g);
        if stamps[f] <= stamps[m] {
            assert(is_oldest(stamps, f));
        } else {
            assert forall|g: FrameId| #[trigger] stamps.contains_key(g) implies stamps[m] <= stamps[g] by {
                if g != f {
                    assert(rest.contains_key(g));
                }
            }
            assert(is_oldest(stamps, m));
        }
    }
}

proof fn lemma_installed_consistent(v: PoolView, f: FrameId, p: PageView)
    requires
        pool_consistent(v),
        forall|i: int, j: int| 0 <= i < j < v.free_list.len() ==> v.free_list[i] != v.free_list[j],
        chosen_frame(v) == Some(f),
        v.free_list.len() == 0 ==> is_oldest(v.replacer.stamps, f),
        !v.page_table.contains_key(p.page_id),
        p.page_id != INVALID_PAGE_ID,
        p.pin_count > 0,
    ensures
        pool_consistent(installed(v, f, p)),
        forall|i: int, j: int|
            0 <= i < j < installed(v, f, p).free_list.len() ==> installed(v, f, p).free_list[i]
                != installed(v, f, p).free_list[j],
{
    let w = installed(v, f, p);
    if v.free_list.len() > 0 {
        assert(v.free_list[0] == f);
        assert forall|i: int| 0 <= i < w.free_list.len() implies w.free_list[i] != f by {
            assert(w.free_list[i] == v.free_list[i + 1]);
        }
        assert forall|g: FrameId| in_pool(w, g) implies (#[trigger] w.frames.contains_key(g)
            || w.free_list.contains(g)) by {
            if g != f && !v.frames.contains_key(g) {
                let i = choose|i: int| 0 <= i < v.free_list.len() && v.free_list[i] == g;
                assert(i != 0);
                assert(w.free_list[i - 1] == g);
            }
        }
    } else {
        assert(v.replacer.stamps.contains_key(f));
    }
    assert forall|q: PageId| #[trigger] w.page_table.contains_key(q) implies w.frames.contains_key(
        w.page_table[q],
    ) && w.frames[w.page_table[q]].page_id == q by {
        if q != p.page_id {
            assert(v.page_table.contains_key(q));
            if v.page_table[q] == f {
                assert(v.frames[f].page_id == q);
            }
        }
    }
    assert forall|g: FrameId| #[trigger] w.frames.contains_key(g) implies in_pool(w, g)
        && w.page_table.contains_key(w.frames[g].page_id) && w.page_table[w.frames[g].page_id]
        == g && w.frames[g].page_id != INVALID_PAGE_ID by {
        if g != f {
            assert(v.frames.contains_key(g));
            assert(v.page_table[v.frames[g].page_id] == g);
            if v.frames.contains_key(f) {
                assert(v.frames[g].page_id != v.frames[f].page_id);
            }
        }
    }
}

impl BufferPoolManager {
    pub closed spec fn wf(&self) -> bool {
        &&& self.pages@.len() == self.pool_size
        &&& self.pool_size < u32::MAX
        &&& self.replacer.wf()
        &&& pool_consistent(self@)
        &&& forall|i: int, j: int|
            0 <= i < j < self.free_list@.len() ==> self.free_list@[i] != self.free_list@[j]
        &&& forall|f: FrameId| #[trigger]
            self@.frames.contains_key(f) ==> self@.frames[f].page_id <= self.next_page_id
    }

    /// Every operation keeps the pool well formed, so in every state that a
    /// sequence of operations reaches, the page table is injective, each of
    /// its entries points to an occupied frame of the pool that holds that
    /// page, and each frame is occupied by a mapped page or free.
    pub proof fn lemma_consistent(&self)
        requires
            self.wf(),
        ensures
            pool_consistent(self@),
            forall|f: FrameId| #[trigger] self@.frames.contains_key(f) ==> in_pool(self@, f),
            forall|p: PageId, q: PageId|
                #[trigger] self@.page_table.contains_key(p) && #[trigger] self@.page_table.contains_key(q)
                    && self@.page_table[p] == self@.page_table[q] ==> p == q,
            forall|p: PageId| #[trigger] self@.page_table.contains_key(p) ==> 1 <= p <= self@.next_page_id,
    {
        assert forall|p: PageId| #[trigger] self@.page_table.contains_key(p) implies 1 <= p
            <= self@.next_page_id by {
            assert(self@.frames.contains_key(self@.page_table[p]));
        }
    }

    /// A pool of `pool_size` frames, all free, in order.
    pub fn new(pool_size: usize) -> (r: BufferPoolManager)
        requires
            pool_size < u32::MAX,
        ensures
            r.wf(),
            r@.pool_size == pool_size,
            r@.frames.is_empty(),
            r@.page_table.is_empty(),
            r@.free_list == Seq::new(pool_size as nat, |i: int| (i + 1) as FrameId),
            r@.replacer.stamps.is_empty(),
            r@.replacer.next_epoch == 0,
            r@.next_page_id == 0,
    {
        let mut free_list: VecDeque<FrameId> = VecDeque::new();
        let mut pages: Vec<Option<Page>> = Vec::new();
        let mut i: usize = 0;
        while i < pool_size
            invariant
                i <= pool_size < u32::MAX,
                pages@.len() == i,
                forall|k: int| 0 <= k < i ==> pages@[k] is None,
                free_list@ == Seq::new(i as nat, |k: int| (k + 1) as FrameId),
            decreases pool_size - i,
        {
            free_list.push_back((i + 1) as FrameId);
            pages.push(None);
            i = i + 1;
            assert(free_list@ =~= Seq::new(i as nat, |k: int| (k + 1) as FrameId));
        }
        let r = BufferPoolManager {
            pool_size,
            pages,
            page_table: HashMap::new(),
            replacer: ClockReplacer::new(pool_size),
            free_list,
            next_page_id: 0,
        };
        proof {
            assert(r@.frames =~= Map::empty());
            assert forall|f: FrameId| in_pool(r@, f) implies (#[trigger] r@.frames.contains_key(f)
                || r@.free_list.contains(f)) by {
                assert(r@.free_list[f - 1] == f);
            }
        }
        r
    }

    pub fn pool_size(&self) -> (r: usize)
        ensures
            r == self@.pool_size,
    {
        self.pool_size
    }

    /// The last page id handed out by `new_page`.
    pub fn last_page_id(&self) -> (r: PageId)
        ensures
            r == self@.next_page_id,
    {
        self.next_page_id
    }

    /// Whether the replacer can still record an unpin, as `unpin_page` needs.
    pub fn can_unpin(&self) -> (r: bool)
        ensures
            r == (self@.replacer.next_epoch < EpochId::MAX),
    {
        self.replacer.next_epoch() < EpochId::MAX
    }

    /// The frame that holds `page_id`, if it is resident.
    pub fn lookup(&self, page_id: PageId) -> (r: Option<FrameId>)
        requires
            self.wf(),
        ensures
            r == (if self@.page_table.contains_key(page_id) {
                Some(self@.page_table[page_id])
            } else {
                None
            }),
    {
        match self.page_table.get(&page_id) {
            Some(f) => Some(*f),
            None => None,
        }
    }

    /// The replacement that bringing in a page would make now, or `None`
    /// when every frame is pinned.
    pub fn replacement(&self) -> (r: Option<Replacement>)
        requires
            self.wf(),
        ensures
            r is Some ==> describes(self@, r->0) && in_pool(self@, r->0.frame_id),
            r is None ==> chosen_frame(self@) is None && all_pinned(self@),
    {
        let chosen = if self.free_list.len() > 0 {
            let f = self.free_list[0];
            assert(in_pool(self@, self@.free_list[0]));
            Some(f)
        } else {
            let c = self.replacer.peek_victim();
            proof {
                if let Some(f) = c {
                    assert(is_oldest(self@.replacer.stamps, f));
                    let g = choose|g: FrameId| is_oldest(self@.replacer.stamps, g);
                    self.replacer.lemma_oldest_unique(f, g);
                }
            }
            c
        };
        match chosen {
            None => {
                proof {
                    assert(self@.free_list.len() == 0);
                    assert(self@.replacer.stamps.is_empty());
                    assert forall|g: FrameId| !is_oldest(self@.replacer.stamps, g) by {
                        assert(!self@.replacer.stamps.dom().contains(g));
                    }
                    assert forall|f: FrameId| in_pool(self@, f) implies #[trigger] self@.frames.contains_key(f)
                        && self@.frames[f].pin_count > 0 by {
                        assert(!self@.free_list.contains(f));
                        assert(!self@.replacer.stamps.dom().contains(f));
                    }
                    assert(!(exists|g: FrameId| is_oldest(self@.replacer.stamps, g)));
                    assert(chosen_frame(self@) is None);
                    assert(all_pinned(self@));
                }
                None
            },
            Some(f) => {
                let write_back = match self.pages[(f - 1) as usize] {
                    Some(page) => if page.is_dirty() {
                        Some(page)
                    } else {
                        None
                    },
                    None => None,
                };
                proof {
                    assert(in_pool(self@, f));
                    assert(self@.frames.contains_key(f) == (self.pages@[f - 1] is Some));
                }
                let rep = Replacement { frame_id: f, write_back };
                assert(describes(self@, rep));
                Some(rep)
            },
        }
    }

    /// Takes the chosen frame and installs `page` in it.
    fn take_frame(&mut self, page: Page) -> (r: Option<FrameId>)
        requires
            old(self).wf(),
            !old(self)@.page_table.contains_key(page@.page_id),
            page@.page_id != INVALID_PAGE_ID,
            page@.page_id <= old(self)@.next_page_id,
            page@.pin_count > 0,
        ensures
            final(self).wf(),
            r == chosen_frame(old(self)@),
            match r {
                Some(f) => final(self)@ == installed(old(self)@, f, page@),
                None => final(self)@ == old(self)@,
            },
    {
        let ghost v = self@;
        let chosen = if self.free_list.len() > 0 {
            self.free_list.pop_front()
        } else {
            let c = self.replacer.victim();
            proof {
                if let Some(f) = c {
                    let g = choose|g: FrameId| is_oldest(v.replacer.stamps, g);
                    old(self).replacer.lemma_oldest_unique(f, g);
                }
            }
            c
        };
        match chosen {
            None => {
                proof {
                    assert(self@.replacer == v.replacer);
                }
                None
            },
            Some(f) => {
                let idx = (f - 1) as usize;
                proof {
                    lemma_installed_consistent(v, f, page@);
                }
                match self.pages[idx] {
                    Some(resident) => {
                        self.page_table.remove(&resident.get_id());
                    },
                    None => {},
                }
                self.page_table.insert(page.get_id(), f);
                self.pages.set(idx, Some(page));
                proof {
                    let w = installed(v, f, page@);
                    assert(self@.frames =~= w.frames);
                    assert(self@.page_table =~= w.page_table);
                    assert(self@.replacer.stamps =~= w.replacer.stamps);
                    assert(self@ == w);
                }
                Some(f)
            },
        }
    }


    /// Brings a new page into the pool: takes the chosen frame, hands out the
    /// next page id, and installs a zeroed page pinned once. Returns the frame
    /// and the id, or `(None, INVALID_PAGE_ID)` without handing out an id when
    /// every frame is pinned. A dirty page in the chosen frame must have been
    /// written back first, as `replacement` reports.
    pub fn new_page(&mut self) -> (r: (Option<FrameId>, PageId))
        requires
            old(self).wf(),
            old(self)@.next_page_id < PageId::MAX,
        ensures
            final(self).wf(),
            r.0 == chosen_frame(old(self)@),
            r.1 == INVALID_PAGE_ID <==> all_pinned(old(self)@),
            match r.0 {
                Some(f) => {
                    &&& r.1 == old(self)@.next_page_id + 1
                    &&& !old(self)@.page_table.contains_key(r.1)
                    &&& final(self)@ == (PoolView {
                        next_page_id: r.1,
                        ..installed(old(self)@, f, fresh_page(r.1))
                    })
                },
                None => r.1 == INVALID_PAGE_ID && final(self)@ == old(self)@,
            },
    {
        let ghost v = self@;
        proof {
            self.lemma_chosen_none_iff_all_pinned();
        }
        let page_id = self.next_page_id + 1;
        self.next_page_id = page_id;
        proof {
            assert(self@ == (PoolView { next_page_id: page_id, ..v }));
            if exists|f: FrameId| is_oldest(v.replacer.stamps, f) {
                let f = choose|f: FrameId| is_oldest(v.replacer.stamps, f);
                assert(is_oldest(self@.replacer.stamps, f));
            }
            assert(chosen_frame(self@) == chosen_frame(v));
            assert forall|f: FrameId| #[trigger] self@.frames.contains_key(f) implies self@.frames[f].page_id
                <= self.next_page_id by {
                assert(v.frames.contains_key(f));
            }
            assert forall|q: PageId| #[trigger] self@.page_table.contains_key(q) implies q < page_id by {
                assert(v.page_table.contains_key(q));
                assert(v.frames.contains_key(v.page_table[q]));
            }
        }
        let page = Page::new(page_id);
        match self.take_frame(page) {
            Some(f) => (Some(f), page_id),
            None => {
                self.next_page_id = page_id - 1;
                assert(self@ == v);
                (None, INVALID_PAGE_ID)
            },
        }
    }

    /// Looks `page_id` up. A resident page is pinned once more and taken out
    /// of eviction (`Hit`). Otherwise the pool is left as it is and the answer
    /// is the replacement that `load_page` will make (`Miss`), or `Exhausted`
    /// when every frame is pinned.
    pub fn fetch_page(&mut self, page_id: PageId) -> (r: Fetch)
        requires
            old(self).wf(),
            old(self)@.page_table.contains_key(page_id) ==> old(self)@.frames[old(
                self,
            )@.page_table[page_id]].pin_count < u32::MAX,
        ensures
            final(self).wf(),
            old(self)@.page_table.contains_key(page_id) ==> {
                let f = old(self)@.page_table[page_id];
                let p = old(self)@.frames[f];
                &&& r == Fetch::Hit(f)
                &&& final(self)@ == (PoolView {
                    frames: old(self)@.frames.insert(
                        f,
                        PageView { pin_count: (p.pin_count + 1) as u32, ..p },
                    ),
                    replacer: after_pin(old(self)@.replacer, f),
                    ..old(self)@
                })
            },
            !old(self)@.page_table.contains_key(page_id) ==> {
                &&& final(self)@ == old(self)@
                &&& match r {
                    Fetch::Hit(_) => false,
                    Fetch::Miss(rep) => describes(old(self)@, rep),
                    Fetch::Exhausted => all_pinned(old(self)@),
                }
            },
    {
        match self.page_table.get(&page_id) {
            Some(frame_id) => {
                let f = *frame_id;
                proof {
                    self.lemma_frame_of(page_id);
                }
                let idx = (f - 1) as usize;
                let ghost v = self@;
                match self.pages[idx] {
                    Some(page) => {
                        let mut page = page;
                        page.pin();
                        self.pages.set(idx, Some(page));
                        self.replacer.pin(f);
                        proof {
                            assert(self@.frames =~= v.frames.insert(f, page@));
                            assert(self@.replacer.stamps =~= v.replacer.stamps.remove(f));
                            assert forall|g: FrameId| #[trigger] self@.frames.contains_key(g) implies self@.frames[g].page_id
                                <= self.next_page_id by {
                                assert(v.frames.contains_key(g));
                            }
                        }
                        Fetch::Hit(f)
                    },
                    None => Fetch::Exhausted,
                }
            },
            None => match self.replacement() {
                Some(rep) => Fetch::Miss(rep),
                None => Fetch::Exhausted,
            },
        }
    }

    /// Installs `page_id`, read from disk as `data`, in the chosen frame,
    /// pinned once and clean; the page that the frame held leaves the page
    /// table. `None`, with the pool unchanged, when every frame is pinned.
    pub fn load_page(&mut self, page_id: PageId, data: &[u8; PAGE_SIZE]) -> (r: Option<FrameId>)
        requires
            old(self).wf(),
            !old(self)@.page_table.contains_key(page_id),
            1 <= page_id <= old(self)@.next_page_id,
        ensures
            final(self).wf(),
            r == chosen_frame(old(self)@),
            match r {
                Some(f) => final(self)@ == installed(
                    old(self)@,
                    f,
                    PageView { data: data@, page_id, pin_count: 1, is_dirty: false },
                ),
                None => final(self)@ == old(self)@,
            },
    {
        let mut page = Page::new(page_id);
        page.set_data(data);
        self.take_frame(page)
    }

    /// Gives back one pin on a resident page and marks it dirty when
    /// `is_dirty`; a page once dirty stays dirty. When no pin is left, the
    /// frame becomes the last in line for eviction. Returns whether the page
    /// is still pinned.
    pub fn unpin_page(&mut self, page_id: PageId, is_dirty: bool) -> (r: bool)
        requires
            old(self).wf(),
            old(self)@.page_table.contains_key(page_id),
            old(self)@.frames[old(self)@.page_table[page_id]].pin_count > 0,
            old(self)@.replacer.next_epoch < EpochId::MAX,
        ensures
            final(self).wf(),
            ({
                let f = old(self)@.page_table[page_id];
                let p = old(self)@.frames[f];
                &&& r == (p.pin_count > 1)
                &&& final(self)@ == (PoolView {
                    frames: old(self)@.frames.insert(
                        f,
                        PageView {
                            pin_count: (p.pin_count - 1) as u32,
                            is_dirty: p.is_dirty || is_dirty,
                            ..p
                        },
                    ),
                    replacer: if p.pin_count == 1 {
                        after_unpin(old(self)@.replacer, f)
                    } else {
                        old(self)@.replacer
                    },
                    ..old(self)@
                })
            }),
    {
        let ghost v = self@;
        let f = match self.page_table.get(&page_id) {
            Some(frame_id) => *frame_id,
            None => return false,
        };
        proof {
            self.lemma_frame_of(page_id);
        }
        let idx = (f - 1) as usize;
        let mut page = match self.pages[idx] {
            Some(page) => page,
            None => return false,
        };
        page.unpin();
        if is_dirty {
            page.mark_dirty(true);
        }
        let pinned = page.get_pin_count() > 0;
        self.pages.set(idx, Some(page));
        if !pinned {
            self.replacer.unpin(f);
        }
        proof {
            assert(self@.frames =~= v.frames.insert(f, page@));
            if !pinned {
                assert(self@.replacer.stamps =~= v.replacer.stamps.insert(f, v.replacer.next_epoch));
            }
            assert forall|g: FrameId| #[trigger] self@.frames.contains_key(g) implies self@.frames[g].page_id
                <= self.next_page_id by {
                assert(v.frames.contains_key(g));
            }
        }
        pinned
    }

    /// The bytes to write to disk for `page_id`, whether dirty or not; `None`
    /// when the page is not resident. Once the write has succeeded,
    /// `mark_flushed` clears the dirty flag.
    pub fn flush_page(&self, page_id: PageId) -> (r: Option<[u8; PAGE_SIZE]>)
        requires
            self.wf(),
        ensures
            self@.page_table.contains_key(page_id) ==> r is Some && r->0@ == self@.frames[self@.page_table[page_id]].data,
            !self@.page_table.contains_key(page_id) ==> r is None,
    {
        match self.page(page_id) {
            Some(page) => Some(page.get_data()),
            None => None,
        }
    }

    /// Clears the dirty flag of a resident page once its bytes, as
    /// `flush_page` gave them, have reached the disk. Returns whether the page
    /// was resident; nothing else in the pool changes.
    pub fn mark_flushed(&mut self, page_id: PageId) -> (r: bool)
        requires
            old(self).wf(),
        ensures
            final(self).wf(),
            r == old(self)@.page_table.contains_key(page_id),
            r ==> {
                let f = old(self)@.page_table[page_id];
                final(self)@ == (PoolView {
                    frames: old(self)@.frames.insert(f, PageView { is_dirty: false, ..old(self)@.frames[f] }),
                    ..old(self)@
                })
            },
            !r ==> final(self)@ == old(self)@,
    {
        let ghost v = self@;
        let f = match self.page_table.get(&page_id) {
            Some(frame_id) => *frame_id,
            None => return false,
        };
        proof {
            self.lemma_frame_of(page_id);
        }
        let idx = (f - 1) as usize;
        let mut page = match self.pages[idx] {
            Some(page) => page,
            None => return false,
        };
        page.mark_dirty(false);
        self.pages.set(idx, Some(page));
        proof {
            assert(self@.frames =~= v.frames.insert(f, page@));
            assert forall|g: FrameId| #[trigger] self@.frames.contains_key(g) implies self@.frames[g].page_id
                <= self.next_page_id by {
                assert(v.frames.contains_key(g));
            }
        }
        true
    }

    /// The resident page `page_id`, if any.
    pub fn page(&self, page_id: PageId) -> (r: Option<&Page>)
        requires
            self.wf(),
        ensures
            self@.page_table.contains_key(page_id) ==> r is Some && r->0@ == self@.frames[self@.page_table[page_id]],
            !self@.page_table.contains_key(page_id) ==> r is None,
    {
        match self.page_table.get(&page_id) {
            Some(frame_id) => match &self.pages[({
                proof {
                    self.lemma_frame_of(page_id);
                }
                *frame_id - 1
            }) as usize] {
                Some(page) => Some(page),
                None => None,
            },
            None => None,
        }
    }

    /// Overwrites the bytes of a resident page; the dirty flag is left to the
    /// writer's unpin. Returns whether the page was resident.
    pub fn set_data(&mut self, page_id: PageId, data: &[u8; PAGE_SIZE]) -> (r: bool)
        requires
            old(self).wf(),
        ensures
            final(self).wf(),
            r == old(self)@.page_table.contains_key(page_id),
            r ==> {
                let f = old(self)@.page_table[page_id];
                final(self)@ == (PoolView {
                    frames: old(self)@.frames.insert(f, PageView { data: data@, ..old(self)@.frames[f] }),
                    ..old(self)@
                })
            },
            !r ==> final(self)@ == old(self)@,
    {
        let ghost v = self@;
        let f = match self.page_table.get(&page_id) {
            Some(frame_id) => *frame_id,
            None => return false,
        };
        proof {
            self.lemma_frame_of(page_id);
        }
        let idx = (f - 1) as usize;
        let mut page = match self.pages[idx] {
            Some(page) => page,
            None => return false,
        };
        page.set_data(data);
        self.pages.set(idx, Some(page));
        proof {
            assert(self@.frames =~= v.frames.insert(f, page@));
            assert forall|g: FrameId| #[trigger] self@.frames.contains_key(g) implies self@.frames[g].page_id
                <= self.next_page_id by {
                assert(v.frames.contains_key(g));
            }
        }
        true
    }

    /// The pool never holds more resident pages than it has frames.
    pub proof fn lemma_resident_bound(&self)
        requires
            self.wf(),
        ensures
            self@.page_table.dom().finite(),
            self@.page_table.len() <= self@.pool_size,
    {
        let d = self.page_table@.dom();
        assert(d.finite());
        let to_int = |p: PageId| self@.page_table[p] as int;
        let range = set_int_range(1, self.pool_size + 1);
        assert(vstd::relations::injective_on(to_int, d)) by {
            assert forall|p: PageId, q: PageId| d.contains(p) && d.contains(q) && #[trigger] to_int(p) == #[trigger] to_int(q) implies p == q by {
                assert(self@.frames.contains_key(self@.page_table[p]));
            }
        }
        lemma_map_size(d, d.map(to_int), to_int);
        lemma_int_range(1, self.pool_size + 1);
        assert forall|x: int| d.map(to_int).contains(x) implies range.contains(x) by {
            let p = choose|p: PageId| d.contains(p) && to_int(p) == x;
            assert(self@.frames.contains_key(self@.page_table[p]));
        }
        lemma_len_subset(d.map(to_int), range);
    }

    /// Where a resident page sits in the frame vector.
    proof fn lemma_frame_of(&self, page_id: PageId)
        requires
            self.wf(),
            self@.page_table.contains_key(page_id),
        ensures
            1 <= self@.page_table[page_id] <= self.pool_size,
            self.pages@[self@.page_table[page_id] - 1] is Some,
            self.pages@[self@.page_table[page_id] - 1]->0@ == self@.frames[self@.page_table[page_id]],
            self@.frames[self@.page_table[page_id]].page_id == page_id,
    {
        assert(self@.frames.contains_key(self@.page_table[page_id]));
    }

    /// The pool has no frame to give exactly when every frame holds a pinned page.
    pub proof fn lemma_chosen_none_iff_all_pinned(&self)
        requires
            self.wf(),
        ensures
            chosen_frame(self@) is None <==> all_pinned(self@),
    {
        let v = self@;
        if all_pinned(v) {
            if v.free_list.len() > 0 {
                assert(in_pool(v, v.free_list[0]));
                assert(v.frames.contains_key(v.free_list[0]));
            }
            assert forall|g: FrameId| !is_oldest(v.replacer.stamps, g) by {
                if v.replacer.stamps.contains_key(g) {
                    assert(v.frames.contains_key(g));
                }
            }
        } else {
            let f = choose|f: FrameId| !(in_pool(v, f) ==> #[trigger] v.frames.contains_key(f) && v.frames[f].pin_count > 0);
            if v.free_list.len() == 0 {
                assert(!v.free_list.contains(f));
                assert(v.replacer.stamps.contains_key(f));
                self.replacer.lemma_stamps();
                lemma_oldest_exists(v.replacer.stamps, f);
            }
        }
    }

}

} // verus!
