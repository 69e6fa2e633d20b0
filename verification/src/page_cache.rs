//! The page cache: the pages that are in memory, between those who walk the
//! trie and the store.
//!
//! The cache is written as a state machine. For each page id it knows
//! whether the page is being fetched or is cached. Whoever runs the cache
//! carries out what it hands back: it reads a page from the store when the
//! cache hands out a fetch task, and lets a caller wait on a ticket until
//! the fetch behind it is completed. Pages that the eviction advisor
//! nominates are dropped from the cache outside of update phases only.

use crate::inflight::InflightFetch;
use crate::options::Options;
use crate::page::{
    blank_page, is_empty_page, page_is_empty, slot_of, PageData, DEPTH, PAGE_SIZE,
};
use crate::page_diff::{lemma_ones, ones, PageDiff};
use crate::page_id::{
    child_limbs, limbs_clone, limbs_of, ChildPageIndex, PageId, MAX_PAGE_DEPTH,
};
use crate::rw_pass::{Page, ReadPass, RwPassDomain, WritePass};
use crate::store::{StoreWriteView, Transaction};
use arrayvec::ArrayVec;
use crossbeam_queue::SegQueue;
use dashmap::DashMap;
use fxhash::FxBuildHasher;
use vstd::prelude::*;

verus! {

/// `dashmap::DashMap`, a hash map. Nothing is known of what is inside a
/// value but what `cached_entries` names.
#[verifier::external_type_specification]
#[verifier::external_body]
#[verifier::reject_recursive_types(K)]
#[verifier::reject_recursive_types(V)]
#[verifier::reject_recursive_types(S)]
pub struct ExDashMap<K, V, S>(DashMap<K, V, S>);

/// `fxhash::FxHasher`, the hasher of the map.
#[verifier::external_type_specification]
#[verifier::external_body]
pub struct ExFxHasher(fxhash::FxHasher);

/// `core::hash::BuildHasherDefault`, which makes the hashers of the map.
#[verifier::external_type_specification]
#[verifier::external_body]
#[verifier::reject_recursive_types(H)]
pub struct ExBuildHasherDefault<H>(core::hash::BuildHasherDefault<H>);

/// `crossbeam_queue::SegQueue`, a queue without a bound. Nothing is known
/// of what is inside a value but what `queued_ids` names.
#[verifier::external_type_specification]
#[verifier::external_body]
#[verifier::reject_recursive_types(T)]
pub struct ExSegQueue<T>(SegQueue<T>);

/// What the cache knows of a page.
#[derive(Clone, Copy, Debug, PartialEq, Eq)]
pub enum PageState {
    /// The page is being fetched; the number is the ticket of the fetch.
    Inflight(usize),
    /// The page is in memory.
    Cached(Page),
}

/// What a map from page ids to page states holds: the state of each id
/// that has an entry, by the path of the id.
///
/// The map of a cache is changed through the exclusive borrow of the cache
/// only, never through a shared one: what it holds goes with its value.
pub uninterp spec fn cached_entries(
    map: DashMap<ArrayVec<u8, 42>, PageState, FxBuildHasher>,
) -> Map<Seq<u8>, PageState>;

/// What a queue of page ids holds: the paths of the ids, the one that
/// leaves next first.
///
/// The queue of a cache is changed through the exclusive borrow of the
/// cache only, never through a shared one: what it holds goes with its value.
pub uninterp spec fn queued_ids(queue: SegQueue<ArrayVec<u8, 42>>) -> Seq<Seq<u8>>;

/// `DashMap::with_hasher` with the default `FxBuildHasher`: a map without entries.
#[verifier::external_body]
fn map_new() -> (map: DashMap<ArrayVec<u8, 42>, PageState, FxBuildHasher>)
    ensures
        cached_entries(map) == (Map::<Seq<u8>, PageState>::empty()),
{
    DashMap::with_hasher(FxBuildHasher::default())
}

/// `DashMap::get`: the value of the entry with the given key, if there is one.
#[verifier::external_body]
fn map_get(map: &DashMap<ArrayVec<u8, 42>, PageState, FxBuildHasher>, key: &ArrayVec<u8, 42>) -> (r:
    Option<PageState>)
    ensures
        r == cached_entries(*map).get(limbs_of(*key)),
{
    map.get(key).map(|entry| *entry.value())
}

/// `DashMap::insert`: puts the value under the key, in the place of what
/// was there.
#[verifier::external_body]
fn map_insert(
    map: &mut DashMap<ArrayVec<u8, 42>, PageState, FxBuildHasher>,
    key: ArrayVec<u8, 42>,
    value: PageState,
)
    ensures
        cached_entries(*final(map)) == cached_entries(*old(map)).insert(limbs_of(key), value),
{
    map.insert(key, value);
}

/// `DashMap::remove`: takes the entry with the given key away, if there is
/// one, and returns its value.
#[verifier::external_body]
fn map_remove(
    map: &mut DashMap<ArrayVec<u8, 42>, PageState, FxBuildHasher>,
    key: &ArrayVec<u8, 42>,
) -> (r: Option<PageState>)
    ensures
        r == cached_entries(*old(map)).get(limbs_of(*key)),
        cached_entries(*final(map)) == cached_entries(*old(map)).remove(limbs_of(*key)),
{
    map.remove(key).map(|entry| entry.1)
}

/// `SegQueue::new`: a queue without items.
#[verifier::external_body]
fn queue_new() -> (queue: SegQueue<ArrayVec<u8, 42>>)
    ensures
        queued_ids(queue) == Seq::<Seq<u8>>::empty(),
{
    SegQueue::new()
}

/// `SegQueue::push`: puts the item at the tail of the queue.
#[verifier::external_body]
fn queue_push(queue: &mut SegQueue<ArrayVec<u8, 42>>, id: ArrayVec<u8, 42>)
    ensures
        queued_ids(*final(queue)) == queued_ids(*old(queue)).push(limbs_of(id)),
{
    queue.push(id)
}

/// `SegQueue::pop`: takes the item at the head of the queue away and
/// returns it; `None` on a queue without items.
#[verifier::external_body]
fn queue_pop(queue: &mut SegQueue<ArrayVec<u8, 42>>) -> (r: Option<ArrayVec<u8, 42>>)
    ensures
        queued_ids(*old(queue)).len() == 0 ==> r is None && queued_ids(*final(queue))
            == queued_ids(*old(queue)),
        queued_ids(*old(queue)).len() > 0 ==> (r matches Some(id) && limbs_of(id) == queued_ids(
            *old(queue),
        )[0]) && queued_ids(*final(queue)) == queued_ids(*old(queue)).skip(1),
{
    queue.pop()
}

/// `SegQueue::len`: the number of items in the queue.
#[verifier::external_body]
fn queue_len(queue: &SegQueue<ArrayVec<u8, 42>>) -> (r: usize)
    ensures
        r == queued_ids(*queue).len(),
{
    queue.len()
}

/// A page that is to be read from the store, and the ticket of the fetch
/// that the page will complete.
#[derive(Debug)]
pub struct FetchTask {
    pub page_id: PageId,
    pub ticket: usize,
}

/// What a caller who asked for a page gets.
#[derive(Debug)]
pub enum Retrieval {
    /// The page.
    Ready(Page),
    /// The page is being fetched: the caller waits on the ticket.
    Wait(usize),
    /// The caller reads the page from the store and hands it to `finish_load`.
    Load(FetchTask),
}

/// The mark of an update phase that has begun and was not yet finished.
#[derive(Debug)]
pub struct UpdateGuard {
    phase: (),
}

/// The state of a page cache.
#[verifier::ext_equal]
pub struct PageCacheView {
    /// The state of each page id that has an entry, by the path of the id.
    pub entries: Map<Seq<u8>, PageState>,
    /// The bytes of each page that was made, by the number of its handle.
    pub pages: Seq<Seq<u8>>,
    /// For each ticket, the page that its fetch was completed with, if it was.
    pub fetches: Seq<Option<Page>>,
    /// For each ticket, the path of the page that its fetch was begun for.
    pub fetch_ids: Seq<Seq<u8>>,
    /// The ids that were nominated for eviction, the one that was first, first.
    pub evict_queue: Seq<Seq<u8>>,
    /// Whether an update phase is under way.
    pub update_phase: bool,
    /// From how many changed slots on a page is written out as a whole.
    pub full_page_threshold: usize,
    /// How many pages may be read from the store at the same time.
    pub fetch_concurrency: usize,
}

impl PageCacheView {
    /// What holds of every state that a cache gets into.
    pub open spec fn wf(self) -> bool {
        &&& self.pages.len() <= usize::MAX
        &&& self.fetches.len() <= usize::MAX
        &&& forall|id: Seq<u8>| #[trigger]
            self.entries.contains_key(id) ==> match self.entries[id] {
                PageState::Cached(page) => 0 <= page.index() < self.pages.len(),
                PageState::Inflight(ticket) => ticket < self.fetches.len()
                    && self.fetches[ticket as int] is None,
            }
        &&& self.fetch_ids.len() == self.fetches.len()
        &&& forall|id: Seq<u8>| #[trigger]
            self.entries.contains_key(id) ==> (self.entries[id] matches PageState::Inflight(
                ticket,
            ) ==> self.fetch_ids[ticket as int] == id)
        &&& forall|ticket: int|
            0 <= ticket < self.fetches.len() && self.fetches[ticket] is None
                ==> self.entries.get(#[trigger] self.fetch_ids[ticket]) == Some(
                PageState::Inflight(ticket as usize),
            )
        &&& forall|ticket: int|
            0 <= ticket < self.fetches.len() ==> (#[trigger] self.fetches[ticket] matches Some(
                page,
            ) ==> 0 <= page.index() < self.pages.len())
        &&& forall|i: int|
            0 <= i < self.evict_queue.len() ==> self.entries.contains_key(
                #[trigger] self.evict_queue[i],
            ) && self.entries[self.evict_queue[i]] is Cached
    }

    /// The state after an attempt to evict: where no update phase is under
    /// way, every nominated page has left the cache; else nothing has changed.
    pub open spec fn after_eviction(self) -> PageCacheView {
        if self.update_phase {
            self
        } else {
            PageCacheView {
                entries: self.entries.remove_keys(self.evict_queue.to_set()),
                evict_queue: Seq::empty(),
                ..self
            }
        }
    }

    /// The state with a new pending fetch for the page `id`.
    pub open spec fn with_fetch(self, id: Seq<u8>) -> PageCacheView {
        PageCacheView {
            entries: self.entries.insert(id, PageState::Inflight(self.fetches.len() as usize)),
            fetches: self.fetches.push(None),
            fetch_ids: self.fetch_ids.push(id),
            ..self
        }
    }

    /// The state with a new page of the given bytes as the cached page of
    /// `id`. The fetch that was under way for `id`, if any, is completed
    /// with that page.
    pub open spec fn with_page(self, id: Seq<u8>, bytes: Seq<u8>) -> PageCacheView {
        PageCacheView {
            entries: self.entries.insert(id, PageState::Cached(self.next_page())),
            pages: self.pages.push(bytes),
            fetches: match self.entries.get(id) {
                Some(PageState::Inflight(ticket)) => self.fetches.update(
                    ticket as int,
                    Some(self.next_page()),
                ),
                _ => self.fetches,
            },
            ..self
        }
    }

    /// The handle of the page that is made next.
    pub open spec fn next_page(self) -> Page {
        Page::of_index(self.pages.len() as int)
    }
}

/// The page cache.
pub struct PageCache {
    /// The domain that guards the bytes of the pages.
    page_rw_pass_domain: RwPassDomain,
    /// The pages that are being fetched or are in memory.
    cached: DashMap<ArrayVec<u8, 42>, PageState, FxBuildHasher>,
    /// The fetches, by their tickets.
    fetches: Vec<InflightFetch>,
    /// For each ticket, the path of the page that its fetch was begun for.
    fetch_ids: Ghost<Seq<Seq<u8>>>,
    /// The pages that were nominated for eviction.
    evict_queue: SegQueue<ArrayVec<u8, 42>>,
    /// Whether an update phase is under way. No page is evicted while one is.
    update_phase: bool,
    /// From how many changed slots on a page is written out as a whole.
    full_page_threshold: usize,
    /// How many pages may be read from the store at the same time.
    fetch_concurrency: usize,
}

impl View for PageCache {
    type V = PageCacheView;

    closed spec fn view(&self) -> PageCacheView {
        PageCacheView {
            entries: cached_entries(self.cached),
            pages: self.page_rw_pass_domain@,
            fetches: Seq::new(self.fetches@.len(), |i: int| self.fetches@[i]@),
            fetch_ids: self.fetch_ids@,
            evict_queue: queued_ids(self.evict_queue),
            update_phase: self.update_phase,
            full_page_threshold: self.full_page_threshold,
            fetch_concurrency: self.fetch_concurrency,
        }
    }
}

impl PageCache {
    /// A cache without pages.
    pub fn new(o: &Options) -> (r: Self)
        ensures
            r@.wf(),
            r@.entries == (Map::<Seq<u8>, PageState>::empty()),
            r@.pages == Seq::<Seq<u8>>::empty(),
            r@.fetches == Seq::<Option<Page>>::empty(),
            r@.fetch_ids == Seq::<Seq<u8>>::empty(),
            r@.evict_queue == Seq::<Seq<u8>>::empty(),
            !r@.update_phase,
            r@.full_page_threshold == o.full_page_threshold,
            r@.fetch_concurrency == o.fetch_concurrency,
    {
        let r: Self = Self {
            page_rw_pass_domain: RwPassDomain::new(),
            cached: map_new(),
            fetches: Vec::new(),
            fetch_ids: Ghost(Seq::empty()),
            evict_queue: queue_new(),
            update_phase: false,
            full_page_threshold: o.full_page_threshold,
            fetch_concurrency: o.fetch_concurrency,
        };
        assert(r@.fetches =~= Seq::<Option<Page>>::empty());
        r
    }

    /// How many pages may be read from the store at the same time.
    pub fn fetch_concurrency(&self) -> (r: usize)
        ensures
            r == self@.fetch_concurrency,
    {
        self.fetch_concurrency
    }

    /// What the cache knows of the page `page_id`: `None` where it has no entry.
    pub fn state(&self, page_id: &PageId) -> (r: Option<PageState>)
        ensures
            r == self@.entries.get(page_id@),
    {
        map_get(&self.cached, page_id.limbs())
    }

    /// Takes the nomination of a page for eviction. Only a cached page is
    /// taken: the nomination of any other page is dropped.
    pub fn nominate_for_eviction(&mut self, page_id: &PageId) -> (accepted: bool)
        requires
            old(self)@.wf(),
        ensures
            final(self)@.wf(),
            accepted <==> old(self)@.entries.get(page_id@) matches Some(PageState::Cached(_)),
            accepted ==> final(self)@ == (PageCacheView {
                evict_queue: old(self)@.evict_queue.push(page_id@),
                ..old(self)@
            }),
            !accepted ==> final(self)@ == old(self)@,
    {
        match map_get(&self.cached, page_id.limbs()) {
            Some(PageState::Cached(_)) => {
                queue_push(&mut self.evict_queue, limbs_clone(page_id.limbs()));
                assert(self@ =~= (PageCacheView {
                    evict_queue: old(self)@.evict_queue.push(page_id@),
                    ..old(self)@
                }));
                true
            },
            _ => {
                assert(self@ =~= old(self)@);
                false
            },
        }
    }

    /// Evicts the nominated pages, unless an update phase is under way.
    ///
    /// Up to 128 nominations are looked at, or as many as there are if
    /// there are more.
    pub fn try_perform_evict(&mut self)
        requires
            old(self)@.wf(),
        ensures
            final(self)@.wf(),
            final(self)@ == old(self)@.after_eviction(),
    {
        if self.update_phase {
            assert(self@ =~= old(self)@);
            return ;
        }
        let queue_len: usize = queue_len(&self.evict_queue);
        // Limit the amount of work here: not too many pages are evicted at once.
        let to_evict: usize = if queue_len > 128 {
            queue_len
        } else {
            128
        };
        let ghost before: PageCacheView = self@;
        let ghost queue: Seq<Seq<u8>> = before.evict_queue;
        let ghost mut done: int = 0;
        let mut i: usize = 0;
        assert(queue.take(0).to_set() =~= Set::<Seq<u8>>::empty());
        assert(self@.entries =~= before.entries.remove_keys(queue.take(0).to_set()));
        assert(queue.skip(0) =~= queue);
        while i < to_evict
            invariant
                before.wf(),
                !before.update_phase,
                queue == before.evict_queue,
                i <= to_evict,
                queue.len() <= to_evict,
                0 <= done <= queue.len(),
                done == if i <= queue.len() {
                    i as int
                } else {
                    queue.len() as int
                },
                self@.entries == before.entries.remove_keys(queue.take(done).to_set()),
                self@.evict_queue == queue.skip(done),
                self@.pages == before.pages,
                self@.fetches == before.fetches,
                self@.fetch_ids == before.fetch_ids,
                self@.update_phase == before.update_phase,
                self@.full_page_threshold == before.full_page_threshold,
                self@.fetch_concurrency == before.fetch_concurrency,
            decreases to_evict - i,
        {
            match queue_pop(&mut self.evict_queue) {
                Some(id) => {
                    let ghost victim: Seq<u8> = queue[done];
                    assert(queue.skip(done)[0] == victim);
                    let evicted: Option<PageState> = map_remove(&mut self.cached, &id);
                    proof {
                        // A page that is being fetched was never nominated.
                        assert(before.entries.contains_key(victim));
                        assert(!(evicted matches Some(PageState::Inflight(_))));
                        assert(queue.take(done + 1) =~= queue.take(done).push(victim));
                        queue.take(done).lemma_push_to_set_commute(victim);
                        assert(self@.entries =~= before.entries.remove_keys(
                            queue.take(done + 1).to_set(),
                        ));
                        assert(queue.skip(done).skip(1) =~= queue.skip(done + 1));
                        done = done + 1;
                    }
                },
                None => {},
            }
            i = i + 1;
        }
        assert(queue.take(done) =~= queue);
        assert(self@.evict_queue =~= Seq::<Seq<u8>>::empty());
        assert(self@ =~= before.after_eviction());
    }

    /// Makes a new page of the given bytes the cached page of `page_id`, and
    /// completes the fetch that was under way for it, if any, with that page.
    fn publish(&mut self, page_id: &PageId, data: PageData) -> (page: Page)
        requires
            old(self)@.wf(),
            !(old(self)@.entries.get(page_id@) matches Some(PageState::Cached(_))),
        ensures
            final(self)@.wf(),
            page == old(self)@.next_page(),
            final(self)@ == old(self)@.with_page(page_id@, data@),
    {
        let ghost before: PageCacheView = self@;
        let state: Option<PageState> = map_get(&self.cached, page_id.limbs());
        let page: Page = self.page_rw_pass_domain.protect(data);
        match state {
            Some(PageState::Inflight(ticket)) => {
                assert(before.entries.contains_key(page_id@));
                let fetch: &mut InflightFetch = &mut self.fetches[ticket];
                let _ = fetch.complete_and_notify(page);
            },
            _ => {},
        }
        map_insert(&mut self.cached, limbs_clone(page_id.limbs()), PageState::Cached(page));
        proof {
            let after: PageCacheView = before.with_page(page_id@, data@);
            page.lemma_of_index();
            assert(self@.fetches =~= after.fetches);
            assert(self@ =~= after);
            assert forall|id: Seq<u8>| #[trigger] after.entries.contains_key(id) implies match after.entries[id] {
                PageState::Cached(page) => 0 <= page.index() < after.pages.len(),
                PageState::Inflight(ticket) => ticket < after.fetches.len()
                    && after.fetches[ticket as int] is None,
            } by {
                if id != page_id@ {
                    assert(before.entries.contains_key(id));
                }
            }
            assert forall|id: Seq<u8>| #[trigger] after.entries.contains_key(id) implies (
            after.entries[id] matches PageState::Inflight(ticket) ==> after.fetch_ids[ticket as int]
                == id) by {
                if id != page_id@ {
                    assert(before.entries.contains_key(id));
                }
            }
            assert forall|ticket: int|
                0 <= ticket < after.fetches.len()
                    && after.fetches[ticket] is None implies after.entries.get(
                #[trigger] after.fetch_ids[ticket],
            ) == Some(PageState::Inflight(ticket as usize)) by {
                assert(before.fetches[ticket] is None);
                assert(before.entries.get(before.fetch_ids[ticket]) == Some(
                    PageState::Inflight(ticket as usize),
                ));
            }
            assert forall|i: int| 0 <= i < after.evict_queue.len() implies after.entries.contains_key(
                #[trigger] after.evict_queue[i],
            ) && after.entries[after.evict_queue[i]] is Cached by {
                assert(before.entries.contains_key(before.evict_queue[i]));
            }
            assert(after.wf());
        }
        page
    }

    /// Begins a fetch for `page_id`: a pending fetch with a new ticket, and
    /// the entry that says that the page is being fetched.
    fn begin_fetch(&mut self, page_id: PageId) -> (task: FetchTask)
        requires
            old(self)@.wf(),
            !old(self)@.entries.contains_key(page_id@),
        ensures
            final(self)@.wf(),
            task.page_id@ == page_id@,
            task.ticket == old(self)@.fetches.len(),
            final(self)@ == old(self)@.with_fetch(page_id@),
    {
        let ghost before: PageCacheView = self@;
        let ticket: usize = self.fetches.len();
        self.fetches.push(InflightFetch::new());
        assert(self.fetches@.len() == self.fetches.len());
        map_insert(&mut self.cached, limbs_clone(page_id.limbs()), PageState::Inflight(ticket));
        proof {
            self.fetch_ids = Ghost(self.fetch_ids@.push(page_id@));
        }
        proof {
            let after: PageCacheView = before.with_fetch(page_id@);
            assert(self@.fetches =~= after.fetches);
            assert(self@ =~= after);
            assert forall|id: Seq<u8>| #[trigger] after.entries.contains_key(id) implies match after.entries[id] {
                PageState::Cached(page) => 0 <= page.index() < after.pages.len(),
                PageState::Inflight(ticket) => ticket < after.fetches.len()
                    && after.fetches[ticket as int] is None,
            } by {
                if id != page_id@ {
                    assert(before.entries.contains_key(id));
                }
            }
            assert forall|id: Seq<u8>| #[trigger] after.entries.contains_key(id) implies (
            after.entries[id] matches PageState::Inflight(ticket) ==> after.fetch_ids[ticket as int]
                == id) by {
                if id != page_id@ {
                    assert(before.entries.contains_key(id));
                }
            }
            assert forall|ticket: int|
                0 <= ticket < after.fetches.len()
                    && after.fetches[ticket] is None implies after.entries.get(
                #[trigger] after.fetch_ids[ticket],
            ) == Some(PageState::Inflight(ticket as usize)) by {
                if ticket < before.fetches.len() {
                    assert(before.fetches[ticket] is None);
                    assert(before.entries.get(before.fetch_ids[ticket]) == Some(
                        PageState::Inflight(ticket as usize),
                    ));
                }
            }
            assert forall|i: int| 0 <= i < after.evict_queue.len() implies after.entries.contains_key(
                #[trigger] after.evict_queue[i],
            ) && after.entries[after.evict_queue[i]] is Cached by {
                assert(before.entries.contains_key(before.evict_queue[i]));
            }
            assert(after.wf());
        }
        FetchTask { page_id, ticket }
    }

    /// Asks for the page `page_id` to be brought into memory.
    ///
    /// Where the cache has no entry for the page, it begins a fetch and
    /// hands out the task of reading the page from the store. Where it has
    /// one, it does nothing. Before that, it attempts to evict.
    pub fn prepopulate(&mut self, page_id: PageId) -> (task: Option<FetchTask>)
        requires
            old(self)@.wf(),
        ensures
            final(self)@.wf(),
            prepopulated(old(self)@.after_eviction(), final(self)@, page_id@, task),
    {
        self.try_perform_evict();
        match map_get(&self.cached, page_id.limbs()) {
            Some(_) => None,
            None => {
                // Nope, then the page is to be fetched from the store.
                Some(self.begin_fetch(page_id))
            },
        }
    }

    /// Whether the page of a fetch task is still to be read from the store:
    /// whether its fetch is still the one that is under way for the page.
    /// A task whose fetch was pre-empted needs no reading.
    pub fn fetch_is_needed(&self, task: &FetchTask) -> (r: bool)
        ensures
            r == (self@.entries.get(task.page_id@) == Some(PageState::Inflight(task.ticket))),
    {
        match map_get(&self.cached, task.page_id.limbs()) {
            Some(PageState::Inflight(ticket)) => ticket == task.ticket,
            _ => false,
        }
    }

    /// Takes what the store gave for the page of a fetch task: the bytes of
    /// the page, or `None` where the store has no such page.
    ///
    /// Where a fetch is under way for the page, the page becomes cached with
    /// these bytes, and the ticket whose waiters are to be woken is returned.
    /// Else another caller was faster, and what was read is dropped.
    pub fn complete_fetch(&mut self, task: FetchTask, loaded: Option<Vec<u8>>) -> (notified: Option<
        usize,
    >)
        requires
            old(self)@.wf(),
            loaded matches Some(bytes) ==> bytes@.len() == PAGE_SIZE,
        ensures
            final(self)@.wf(),
            fetch_completed(old(self)@, final(self)@, task.page_id@, loaded_bytes(loaded), notified),
    {
        match map_get(&self.cached, task.page_id.limbs()) {
            Some(PageState::Inflight(ticket)) => {
                let data: PageData = match loaded {
                    Some(bytes) => PageData::pristine_with_data(bytes),
                    None => PageData::pristine_empty(),
                };
                let _ = self.publish(&task.page_id, data);
                Some(ticket)
            },
            _ => {
                // We race against pre-emption: other code may have been
                // faster and made an empty page.
                None
            },
        }
    }

    /// Pre-empts the fetch that is under way for `page_id`: the page
    /// becomes cached as an empty page, which all who wait for it get.
    /// This is for a caller who knows that the store has no such page.
    ///
    /// Where no fetch is under way for the page, nothing happens. The
    /// ticket whose waiters are to be woken is returned.
    pub fn cancel_prepopulate(&mut self, page_id: PageId) -> (notified: Option<usize>)
        requires
            old(self)@.wf(),
        ensures
            final(self)@.wf(),
            fetch_completed(old(self)@, final(self)@, page_id@, blank_page(), notified),
    {
        match map_get(&self.cached, page_id.limbs()) {
            Some(PageState::Inflight(ticket)) => {
                let _ = self.publish(&page_id, PageData::pristine_empty());
                Some(ticket)
            },
            _ => None,
        }
    }

    /// Asks for the page `page_id`.
    ///
    /// A cached page is handed out at once. With `hint_fresh` the caller
    /// says that the store has no such page: it gets an empty page at once,
    /// which pre-empts a fetch that is under way. Without it, the caller
    /// waits for the fetch that is under way, or, where there is none, is
    /// asked to read the page from the store itself. Before all that, the
    /// cache attempts to evict.
    pub fn retrieve_sync(&mut self, page_id: PageId, hint_fresh: bool) -> (r: Retrieval)
        requires
            old(self)@.wf(),
        ensures
            final(self)@.wf(),
            retrieved(old(self)@.after_eviction(), final(self)@, page_id@, hint_fresh, r),
    {
        self.try_perform_evict();
        match map_get(&self.cached, page_id.limbs()) {
            Some(PageState::Cached(page)) => Retrieval::Ready(page),
            Some(PageState::Inflight(ticket)) => {
                if hint_fresh {
                    // Pre-empt the stale fetch.
                    let fresh_page: Page = self.publish(&page_id, PageData::pristine_empty());
                    Retrieval::Ready(fresh_page)
                } else {
                    Retrieval::Wait(ticket)
                }
            },
            None => {
                if hint_fresh {
                    let page: Page = self.publish(&page_id, PageData::pristine_empty());
                    Retrieval::Ready(page)
                } else {
                    Retrieval::Load(self.begin_fetch(page_id))
                }
            },
        }
    }

    /// Takes what the store gave for the page that `retrieve_sync` asked
    /// its caller to read, and hands out the page.
    ///
    /// Where the page was cached in the meantime, by a caller who
    /// pre-empted the fetch, that page is handed out and what was read is
    /// dropped. Else the page becomes cached with the bytes that were read.
    pub fn finish_load(&mut self, task: FetchTask, loaded: Option<Vec<u8>>) -> (page: Page)
        requires
            old(self)@.wf(),
            loaded matches Some(bytes) ==> bytes@.len() == PAGE_SIZE,
        ensures
            final(self)@.wf(),
            load_finished(old(self)@, final(self)@, task.page_id@, loaded_bytes(loaded), page),
    {
        match map_get(&self.cached, task.page_id.limbs()) {
            Some(PageState::Cached(page)) => {
                // Pre-empted by a caller with `hint_fresh`.
                page
            },
            _ => {
                let data: PageData = match loaded {
                    Some(bytes) => PageData::pristine_with_data(bytes),
                    None => PageData::pristine_empty(),
                };
                self.publish(&task.page_id, data)
            },
        }
    }

    /// The page of the fetch with the given ticket, once the fetch is
    /// completed. `None` while it is pending: the caller waits and asks again.
    pub fn wait(&self, ticket: usize) -> (r: Option<Page>)
        ensures
            r == if ticket < self@.fetches.len() {
                self@.fetches[ticket as int]
            } else {
                None
            },
    {
        if ticket < self.fetches.len() {
            self.fetches[ticket].wait()
        } else {
            None
        }
    }

    /// Begins an update phase. No page is evicted until the phase is
    /// finished. `None` where a phase is under way already.
    pub fn start_update_phase(&mut self) -> (guard: Option<UpdateGuard>)
        ensures
            guard is Some <==> !old(self)@.update_phase,
            final(self)@ == (PageCacheView { update_phase: true, ..old(self)@ }),
            old(self)@.wf() ==> final(self)@.wf(),
    {
        if self.update_phase {
            assert(self@ =~= (PageCacheView { update_phase: true, ..old(self)@ }));
            return None;
        }
        self.update_phase = true;
        assert(self@ =~= (PageCacheView { update_phase: true, ..old(self)@ }));
        Some(UpdateGuard { phase: () })
    }

    /// Finishes the update phase, and attempts to evict.
    pub fn finish_update_phase(&mut self, guard: UpdateGuard)
        requires
            old(self)@.wf(),
        ensures
            final(self)@.wf(),
            final(self)@ == (PageCacheView { update_phase: false, ..old(self)@ }).after_eviction(),
    {
        self.update_phase = false;
        assert(self@ =~= (PageCacheView { update_phase: false, ..old(self)@ }));
        self.try_perform_evict();
    }

    /// A read pass for all the pages of the cache.
    pub fn new_read_pass(&self) -> (r: &ReadPass)
        ensures
            r@ == self@.pages,
    {
        &self.page_rw_pass_domain
    }

    /// The write pass for all the pages of the cache. While it is held,
    /// nothing else can be done with the cache.
    pub fn new_write_pass(&mut self) -> (r: &mut WritePass)
        ensures
            r@ == old(self)@.pages,
            final(self)@ == (PageCacheView { pages: final(r)@, ..old(self)@ }),
            old(self)@.wf() && r@.len() <= final(r)@.len() <= usize::MAX ==> final(self)@.wf(),
    {
        &mut self.page_rw_pass_domain
    }

    /// Hands to the transaction what the store needs to take over the
    /// pages that have changed: for each page id and what changed of its
    /// page, in turn, one write. A page that is empty is deleted. A page of
    /// which many slots have changed is written as a whole. Of any other
    /// page the changed slots alone are written. An id without an entry in
    /// the cache is passed over.
    ///
    /// None of the pages may be one that is being fetched.
    pub fn commit(&self, page_diffs: Vec<(PageId, PageDiff)>, tx: &mut Transaction)
        requires
            self@.wf(),
            forall|i: int|
                0 <= i < page_diffs@.len() ==> !(self@.entries.get(
                    (#[trigger] page_diffs@[i]).0@,
                ) matches Some(PageState::Inflight(_))),
        ensures
            final(tx)@ == old(tx)@ + self@.commit_writes(diffs_view(page_diffs@)),
    {
        let read_pass: &ReadPass = self.new_read_pass();
        let ghost diffs: Seq<(Seq<u8>, Seq<bool>)> = diffs_view(page_diffs@);
        let mut i: usize = 0;
        assert(diffs.take(0) =~= Seq::<(Seq<u8>, Seq<bool>)>::empty());
        assert(tx@ =~= old(tx)@ + self@.commit_writes(diffs.take(0)));
        while i < page_diffs.len()
            invariant
                i <= page_diffs@.len(),
                self@.wf(),
                read_pass@ == self@.pages,
                diffs == diffs_view(page_diffs@),
                forall|i: int|
                    0 <= i < page_diffs@.len() ==> !(self@.entries.get(
                        (#[trigger] page_diffs@[i]).0@,
                    ) matches Some(PageState::Inflight(_))),
                tx@ == old(tx)@ + self@.commit_writes(diffs.take(i as int)),
            decreases page_diffs@.len() - i,
        {
            let page_id: &PageId = &page_diffs[i].0;
            let page_diff: &PageDiff = &page_diffs[i].1;
            let ghost done: Seq<StoreWriteView> = self@.commit_writes(diffs.take(i as int));
            proof {
                assert(diffs.take(i + 1).drop_last() =~= diffs.take(i as int));
                assert(diffs.take(i + 1).last() == (page_id@, page_diff@));
                assert(self@.entries.get(page_id@) == self@.entries.get(page_diffs@[i as int].0@));
            }
            match map_get(&self.cached, page_id.limbs()) {
                Some(PageState::Cached(page)) => {
                    assert(self@.entries.contains_key(page_id@));
                    let page_data: &PageData = read_pass.page_data(&page);
                    let ghost write: StoreWriteView = page_write(
                        page_id@,
                        page_data@,
                        page_diff@,
                        self@.full_page_threshold,
                    );
                    assert(self@.commit_writes(diffs.take(i + 1)) == done.push(write));
                    match page_data.bytes() {
                        None => {
                            assert(is_empty_page(blank_page()));
                            tx.delete_page(page_id.clone());
                        },
                        Some(bytes) => {
                            if page_is_empty(bytes.as_slice()) {
                                tx.delete_page(page_id.clone());
                            } else {
                                let updated_count: usize = page_diff.changed_count();
                                if updated_count >= self.full_page_threshold {
                                    tx.write_page(page_id.clone(), bytes);
                                } else {
                                    let slots: Vec<usize> = page_diff.changed_slots();
                                    let tagged: Vec<u8> = tag_nodes(
                                        bytes,
                                        &slots,
                                        Ghost(ones(page_diff@)),
                                    );
                                    tx.write_page_nodes(page_id.clone(), tagged);
                                }
                            }
                        },
                    }
                    assert(tx@ =~= old(tx)@ + done.push(write));
                },
                _ => {
                    assert(self@.commit_writes(diffs.take(i + 1)) == done);
                },
            }
            i = i + 1;
        }
        assert(diffs.take(i as int) =~= diffs);
    }
}

/// The bytes of a page as the store gave them: zero bytes where it has no such page.
pub open spec fn loaded_bytes(loaded: Option<Vec<u8>>) -> Seq<u8> {
    match loaded {
        Some(bytes) => bytes@,
        None => blank_page(),
    }
}

/// What `prepopulate` does to a cache in the state `pre` that has just
/// attempted to evict.
pub open spec fn prepopulated(
    pre: PageCacheView,
    post: PageCacheView,
    id: Seq<u8>,
    task: Option<FetchTask>,
) -> bool {
    if pre.entries.contains_key(id) {
        post == pre && task is None
    } else {
        &&& post == pre.with_fetch(id)
        &&& task matches Some(task)
        &&& task.page_id@ == id
        &&& task.ticket == pre.fetches.len()
    }
}

/// What `complete_fetch` and `cancel_prepopulate` do: a fetch that is under
/// way for the page is completed with a new page of the given bytes, and
/// its ticket is returned. Where none is under way, nothing changes.
pub open spec fn fetch_completed(
    pre: PageCacheView,
    post: PageCacheView,
    id: Seq<u8>,
    bytes: Seq<u8>,
    notified: Option<usize>,
) -> bool {
    match pre.entries.get(id) {
        Some(PageState::Inflight(ticket)) => post == pre.with_page(id, bytes) && notified == Some(
            ticket,
        ),
        _ => post == pre && notified is None,
    }
}

/// What `retrieve_sync` does to a cache in the state `pre` that has just
/// attempted to evict.
pub open spec fn retrieved(
    pre: PageCacheView,
    post: PageCacheView,
    id: Seq<u8>,
    hint_fresh: bool,
    r: Retrieval,
) -> bool {
    match pre.entries.get(id) {
        Some(PageState::Cached(page)) => post == pre && r == Retrieval::Ready(page),
        Some(PageState::Inflight(ticket)) => if hint_fresh {
            post == pre.with_page(id, blank_page()) && r == Retrieval::Ready(pre.next_page())
        } else {
            post == pre && r == Retrieval::Wait(ticket)
        },
        None => if hint_fresh {
            post == pre.with_page(id, blank_page()) && r == Retrieval::Ready(pre.next_page())
        } else {
            &&& r matches Retrieval::Load(task)
            &&& task.page_id@ == id
            &&& task.ticket == pre.fetches.len()
            &&& post == pre.with_fetch(id)
        },
    }
}

/// What `finish_load` does: a page that is cached already is handed out;
/// else a new page of the given bytes becomes the cached page.
pub open spec fn load_finished(
    pre: PageCacheView,
    post: PageCacheView,
    id: Seq<u8>,
    bytes: Seq<u8>,
    page: Page,
) -> bool {
    match pre.entries.get(id) {
        Some(PageState::Cached(cached)) => post == pre && page == cached,
        _ => post == pre.with_page(id, bytes) && page == pre.next_page(),
    }
}

/// What is written of the changed slots of a page: for each of the slots
/// in turn its number in one byte, then the 32 bytes that it holds.
pub open spec fn tagged_nodes(page: Seq<u8>, slots: Seq<int>) -> Seq<u8>
    decreases slots.len(),
{
    if slots.len() == 0 {
        Seq::empty()
    } else {
        tagged_nodes(page, slots.drop_last()) + seq![slots.last() as u8] + slot_of(
            page,
            slots.last(),
        )
    }
}

/// The write that takes a page over into the store: the page with the id
/// `id` and the given bytes, of which the slots that `diff` marks have changed.
pub open spec fn page_write(
    id: Seq<u8>,
    page: Seq<u8>,
    diff: Seq<bool>,
    full_page_threshold: usize,
) -> StoreWriteView {
    if is_empty_page(page) {
        StoreWriteView::DeletePage(id)
    } else if ones(diff).len() >= full_page_threshold {
        StoreWriteView::WritePage(id, page)
    } else {
        StoreWriteView::WritePageNodes(id, tagged_nodes(page, ones(diff)))
    }
}

/// The ids and diffs that `commit` is given, as paths and sequences of marks.
pub open spec fn diffs_view(page_diffs: Seq<(PageId, PageDiff)>) -> Seq<(Seq<u8>, Seq<bool>)> {
    Seq::new(page_diffs.len(), |i: int| (page_diffs[i].0@, page_diffs[i].1@))
}

impl PageCacheView {
    /// The writes that `commit` hands to the transaction, in their order:
    /// one for each id that has a cached page.
    pub open spec fn commit_writes(self, diffs: Seq<(Seq<u8>, Seq<bool>)>) -> Seq<StoreWriteView>
        decreases diffs.len(),
    {
        if diffs.len() == 0 {
            Seq::empty()
        } else {
            let before = self.commit_writes(diffs.drop_last());
            match self.entries.get(diffs.last().0) {
                Some(PageState::Cached(page)) => before.push(
                    page_write(
                        diffs.last().0,
                        self.pages[page.index()],
                        diffs.last().1,
                        self.full_page_threshold,
                    ),
                ),
                _ => before,
            }
        }
    }
}

/// The changed slots of a page cost 33 bytes each.
pub proof fn law_tagged_nodes_len(page: Seq<u8>, slots: Seq<int>)
    requires
        page.len() == PAGE_SIZE,
        forall|k: int| 0 <= k < slots.len() ==> 0 <= #[trigger] slots[k] <= 127,
    ensures
        tagged_nodes(page, slots).len() == 33 * slots.len(),
    decreases slots.len(),
{
    if slots.len() > 0 {
        law_tagged_nodes_len(page, slots.drop_last());
        assert(0 <= slots[slots.len() - 1] <= 127);
    }
}

/// Lists the changed slots of a page: the number of each, then its 32 bytes.
fn tag_nodes(page: &Vec<u8>, slots: &Vec<usize>, Ghost(marked): Ghost<Seq<int>>) -> (r: Vec<u8>)
    requires
        page@.len() == PAGE_SIZE,
        slots@.len() == marked.len(),
        forall|k: int| 0 <= k < slots@.len() ==> slots@[k] == marked[k],
        forall|k: int| 0 <= k < slots@.len() ==> slots@[k] <= 127,
    ensures
        r@ == tagged_nodes(page@, marked),
{
    let mut tagged: Vec<u8> = Vec::new();
    let mut k: usize = 0;
    assert(marked.take(0) =~= Seq::<int>::empty());
    while k < slots.len()
        invariant
            k <= slots@.len(),
            page@.len() == PAGE_SIZE,
            slots@.len() == marked.len(),
            forall|k: int| 0 <= k < slots@.len() ==> slots@[k] == marked[k],
            forall|k: int| 0 <= k < slots@.len() ==> slots@[k] <= 127,
            tagged@ == tagged_nodes(page@, marked.take(k as int)),
        decreases slots@.len() - k,
    {
        let slot_index: usize = slots[k];
        let ghost before: Seq<u8> = tagged@;
        tagged.push(slot_index as u8);
        let start: usize = slot_index * 32;
        let mut j: usize = 0;
        while j < 32
            invariant
                j <= 32,
                start == slot_index * 32,
                slot_index <= 127,
                page@.len() == PAGE_SIZE,
                tagged@ == before + seq![slot_index as u8] + page@.subrange(
                    start as int,
                    start + j,
                ),
            decreases 32 - j,
        {
            tagged.push(page[start + j]);
            assert(page@.subrange(start as int, start + j + 1) =~= page@.subrange(
                start as int,
                start + j,
            ).push(page@[start + j]));
            j = j + 1;
        }
        proof {
            assert(marked.take(k + 1).drop_last() =~= marked.take(k as int));
            assert(marked.take(k + 1).last() == slot_index);
        }
        k = k + 1;
    }
    assert(marked.take(k as int) =~= marked);
    tagged
}

/// Where the data of a leaf is kept: the page is at hand, or it is the
/// child page that has to be asked for first. The number is the left one
/// of the two slots that take the data.
#[derive(Debug)]
pub enum LeafDataLocation {
    /// The two slots are in the page that is at hand.
    InPage(Page, PageId, usize),
    /// The two slots are in the page with this id, which is to be retrieved.
    Retrieve(PageId, usize),
}

/// Where the data of a leaf is kept, as paths and numbers.
pub enum LeafDataLocationView {
    InPage(Page, Seq<u8>, usize),
    Retrieve(Seq<u8>, usize),
}

impl View for LeafDataLocation {
    type V = LeafDataLocationView;

    open spec fn view(&self) -> LeafDataLocationView {
        match *self {
            LeafDataLocation::InPage(page, page_id, left) => LeafDataLocationView::InPage(
                page,
                page_id@,
                left,
            ),
            LeafDataLocation::Retrieve(page_id, left) => LeafDataLocationView::Retrieve(
                page_id@,
                left,
            ),
        }
    }
}

/// Finds the two slots that take the data of a leaf.
///
/// `current_page` is the page in which the leaf itself stands, or `None`
/// for a leaf at the root of the trie. `depth_in_page` is the level of the
/// leaf within that page, from 1 to 6, `child_page_index` the child page
/// below the leaf where the leaf stands at level 6, and `child_left_index`
/// the left one of the two slots below the leaf where it stands higher.
///
/// The data of a leaf at the root is kept at the top of the root page. The
/// data of a leaf at the last level of its page is kept at the top of the
/// child page below it, which must exist. The data of any other leaf is
/// kept in its own page.
pub fn locate_leaf_data(
    current_page: Option<&(PageId, Page)>,
    depth_in_page: usize,
    child_page_index: ChildPageIndex,
    child_left_index: usize,
) -> (r: LeafDataLocation)
    requires
        current_page matches Some(current) ==> depth_in_page == DEPTH ==> current.0@.len()
            < MAX_PAGE_DEPTH,
    ensures
        r@ == match current_page {
            None => LeafDataLocationView::Retrieve(Seq::empty(), 0),
            Some(current) => if depth_in_page == DEPTH {
                LeafDataLocationView::Retrieve(
                    child_limbs(current.0@, child_page_index.value()),
                    0,
                )
            } else {
                LeafDataLocationView::InPage(current.1, current.0@, child_left_index)
            },
        },
{
    match current_page {
        None => LeafDataLocation::Retrieve(PageId::root(), 0),
        Some(current) => {
            if depth_in_page == DEPTH {
                let child_page_id: PageId = current.0.child_page_id(child_page_index).unwrap();
                LeafDataLocation::Retrieve(child_page_id, 0)
            } else {
                LeafDataLocation::InPage(current.1, current.0.clone(), child_left_index)
            }
        },
    }
}

/// While an update phase is under way, an attempt to evict removes no
/// entry: it changes nothing at all.
pub proof fn law_eviction_gated(state: PageCacheView)
    requires
        state.update_phase,
    ensures
        state.after_eviction() == state,
{
}

/// An attempt to evict never removes a page that is being fetched, and
/// what it leaves in the cache is as it was.
pub proof fn law_inflight_not_evicted(state: PageCacheView, id: Seq<u8>)
    requires
        state.wf(),
        state.entries.get(id) matches Some(PageState::Inflight(_)),
    ensures
        state.after_eviction().entries.get(id) == state.entries.get(id),
{
    if !state.update_phase {
        if state.evict_queue.to_set().contains(id) {
            let i: int = choose|i: int|
                0 <= i < state.evict_queue.len() && state.evict_queue[i] == id;
            assert(state.entries[state.evict_queue[i]] is Cached);
        }
    }
}

/// `prepopulate` hands out the task of reading a page from the store only
/// where the cache has no entry for the page, and then the cache has one:
/// until the page is evicted, no other task for it is handed out. No entry
/// leaves the cache.
pub proof fn law_single_flight_prepopulate(
    pre: PageCacheView,
    post: PageCacheView,
    id: Seq<u8>,
    task: Option<FetchTask>,
)
    requires
        prepopulated(pre, post, id, task),
    ensures
        task is Some <==> !pre.entries.contains_key(id),
        post.entries.contains_key(id),
        forall|other: Seq<u8>| pre.entries.contains_key(other) ==> post.entries.contains_key(other),
{
}

/// `retrieve_sync` asks its caller to read a page from the store only where
/// the cache has no entry for the page and the caller gave no hint, and
/// then the cache has an entry: until the page is evicted, nobody else is
/// asked to read it. No entry leaves the cache.
pub proof fn law_single_flight_retrieve(
    pre: PageCacheView,
    post: PageCacheView,
    id: Seq<u8>,
    hint_fresh: bool,
    r: Retrieval,
)
    requires
        retrieved(pre, post, id, hint_fresh, r),
    ensures
        r is Load <==> !pre.entries.contains_key(id) && !hint_fresh,
        post.entries.contains_key(id),
        forall|other: Seq<u8>| pre.entries.contains_key(other) ==> post.entries.contains_key(other),
{
}

/// A caller with `hint_fresh` who meets a fetch that is under way gets a
/// new empty page. The fetch is completed with that page, so all who wait
/// on its ticket get the same page, and that page is the cached one.
pub proof fn law_preemption(
    pre: PageCacheView,
    post: PageCacheView,
    id: Seq<u8>,
    ticket: usize,
    r: Retrieval,
)
    requires
        pre.wf(),
        pre.entries.get(id) == Some(PageState::Inflight(ticket)),
        retrieved(pre, post, id, true, r),
    ensures
        r matches Retrieval::Ready(page) && post.pages[page.index()] == blank_page()
            && post.fetches[ticket as int] == Some(page) && post.entries.get(id) == Some(
            PageState::Cached(page),
        ),
{
    assert(pre.entries.contains_key(id));
    lemma_next_page(pre);
}

/// The handle of the page that is made next has the number of that page.
pub proof fn lemma_next_page(state: PageCacheView)
    requires
        state.wf(),
    ensures
        state.next_page().index() == state.pages.len(),
{
    Page::lemma_index_of(state.pages.len() as int);
}

/// Once a page is cached, what is read from the store for it later is
/// dropped: the cache stays as it is, the reader gets the cached page, and
/// nobody is woken.
pub proof fn law_preemption_wins(
    pre: PageCacheView,
    post: PageCacheView,
    id: Seq<u8>,
    cached: Page,
    bytes: Seq<u8>,
    page: Page,
    notified: Option<usize>,
)
    requires
        pre.entries.get(id) == Some(PageState::Cached(cached)),
        load_finished(pre, post, id, bytes, page) || fetch_completed(pre, post, id, bytes, notified),
    ensures
        post == pre,
        load_finished(pre, post, id, bytes, page) ==> page == cached,
        fetch_completed(pre, post, id, bytes, notified) ==> notified is None,
{
}

/// A fetch is completed once: the page that it was completed with stays,
/// whatever page becomes cached later.
pub proof fn law_fetch_completed_once(pre: PageCacheView, id: Seq<u8>, bytes: Seq<u8>, ticket: int)
    requires
        pre.wf(),
        0 <= ticket < pre.fetches.len(),
        pre.fetches[ticket] is Some,
    ensures
        pre.with_page(id, bytes).fetches[ticket] == pre.fetches[ticket],
        pre.with_fetch(id).fetches[ticket] == pre.fetches[ticket],
        pre.after_eviction().fetches[ticket] == pre.fetches[ticket],
{
    if pre.entries.contains_key(id) {
    }
}

/// What is read from the store for a page lands: after `finish_load` the
/// page is cached, and the fetch that was under way for it is completed
/// with the page that the reader gets.
pub proof fn law_load_lands(
    pre: PageCacheView,
    post: PageCacheView,
    id: Seq<u8>,
    bytes: Seq<u8>,
    page: Page,
)
    requires
        pre.wf(),
        load_finished(pre, post, id, bytes, page),
    ensures
        post.entries.get(id) == Some(PageState::Cached(page)),
        pre.entries.get(id) matches Some(PageState::Inflight(ticket)) ==> post.fetches[ticket as int]
            == Some(page) && post.pages[page.index()] == bytes,
{
    if pre.entries.contains_key(id) {
    }
    lemma_next_page(pre);
}

/// Those who wait are served. A fetch that is pending belongs to a page
/// that the cache holds as being fetched under the ticket of that fetch.
/// Whoever finishes the load of that page, completes its fetch or pre-empts
/// it, completes the fetch, so that any who wait on the ticket get a page.
pub proof fn law_waiters_are_served(
    pre: PageCacheView,
    post: PageCacheView,
    ticket: int,
    bytes: Seq<u8>,
    page: Page,
    notified: Option<usize>,
    r: Retrieval,
)
    requires
        pre.wf(),
        0 <= ticket < pre.fetches.len(),
        pre.fetches[ticket] is None,
        load_finished(pre, post, pre.fetch_ids[ticket], bytes, page) || fetch_completed(
            pre,
            post,
            pre.fetch_ids[ticket],
            bytes,
            notified,
        ) || retrieved(pre, post, pre.fetch_ids[ticket], true, r),
    ensures
        pre.entries.get(pre.fetch_ids[ticket]) == Some(PageState::Inflight(ticket as usize)),
        post.fetches[ticket] is Some,
        pre.after_eviction().fetches[ticket] is None,
        pre.after_eviction().entries.get(pre.fetch_ids[ticket]) == pre.entries.get(
            pre.fetch_ids[ticket],
        ),
{
    law_inflight_not_evicted(pre, pre.fetch_ids[ticket]);
}

/// What `commit` writes of a page: a page that is empty is deleted; else a
/// page of which at least as many slots have changed as the threshold says
/// is written as a whole; else the changed slots are written, 33 bytes for each.
pub proof fn law_page_write(id: Seq<u8>, page: Seq<u8>, diff: Seq<bool>, full_page_threshold: usize)
    requires
        page.len() == PAGE_SIZE,
        diff.len() == 127,
    ensures
        is_empty_page(page) ==> page_write(id, page, diff, full_page_threshold)
            == StoreWriteView::DeletePage(id),
        !is_empty_page(page) && ones(diff).len() >= full_page_threshold ==> page_write(
            id,
            page,
            diff,
            full_page_threshold,
        ) == StoreWriteView::WritePage(id, page),
        !is_empty_page(page) && ones(diff).len() < full_page_threshold ==> (page_write(
            id,
            page,
            diff,
            full_page_threshold,
        ) matches StoreWriteView::WritePageNodes(to, nodes) && to == id && nodes.len() == 33
            * ones(diff).len()),
{
    lemma_ones(diff);
    law_tagged_nodes_len(page, ones(diff));
}

} // verus!
