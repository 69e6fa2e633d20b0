use nomt::options::Options;
use nomt::page::LeafData;
use nomt::page_cache::{
    locate_leaf_data, FetchTask, LeafDataLocation, PageCache, PageState, Retrieval,
};
use nomt::page_diff::PageDiff;
use nomt::page_id::{ChildPageIndex, PageId};
use nomt::rw_pass::Page;
use nomt::store::{StoreWrite, Transaction};

fn page_id_of(limbs: &[u8]) -> PageId {
    let mut page_id = PageId::root();
    for limb in limbs {
        page_id = page_id.child_page_id(ChildPageIndex::new(*limb).unwrap()).unwrap();
    }
    page_id
}

fn ready(retrieval: Retrieval) -> Page {
    match retrieval {
        Retrieval::Ready(page) => page,
        other => panic!("the page is not ready: {:?}", other),
    }
}

fn load(retrieval: Retrieval) -> FetchTask {
    match retrieval {
        Retrieval::Load(task) => task,
        other => panic!("no load was asked for: {:?}", other),
    }
}

fn ticket(retrieval: Retrieval) -> usize {
    match retrieval {
        Retrieval::Wait(ticket) => ticket,
        other => panic!("no wait was asked for: {:?}", other),
    }
}

fn page_with(slot: usize, byte: u8) -> Vec<u8> {
    let mut page = vec![0u8; 4096];
    for b in &mut page[32 * slot..32 * slot + 32] {
        *b = byte;
    }
    page
}

#[test]
fn default_options() {
    let options = Options::new();
    assert_eq!(options.fetch_concurrency, 1);
    assert_eq!(options.cache_capacity_pages, 1024 * 1024);
    assert_eq!(options.advisor_hot_percent, 20);
    assert_eq!(options.full_page_threshold, 32);
    assert!(options.is_valid());
    assert!(!Options { fetch_concurrency: 0, ..options }.is_valid());
    assert!(!Options { advisor_hot_percent: 101, ..options }.is_valid());
    assert_eq!(PageCache::new(&Options { fetch_concurrency: 4, ..options }).fetch_concurrency(), 4);
}

#[test]
fn two_callers_for_one_page_cause_one_load() {
    let mut cache = PageCache::new(&Options::new());
    let id = page_id_of(&[1, 2]);
    assert_eq!(cache.state(&id), None);

    // the first caller is asked to read the page, the second to wait
    let task = load(cache.retrieve_sync(id.clone(), false));
    assert_eq!(task.page_id, id);
    assert_eq!(cache.state(&id), Some(PageState::Inflight(task.ticket)));
    let waits_on = ticket(cache.retrieve_sync(id.clone(), false));
    assert_eq!(waits_on, task.ticket);
    assert_eq!(cache.wait(waits_on), None);
    assert!(cache.prepopulate(id.clone()).is_none());

    let page = cache.finish_load(task, Some(page_with(5, 0xab)));
    assert_eq!(cache.wait(waits_on), Some(page));
    assert_eq!(cache.state(&id), Some(PageState::Cached(page)));
    assert_eq!(ready(cache.retrieve_sync(id.clone(), false)), page);
    assert_eq!(ready(cache.retrieve_sync(id.clone(), true)), page);
    assert_eq!(page.node(cache.new_read_pass(), 5), [0xab; 32]);
    assert_eq!(page.node(cache.new_read_pass(), 6), [0u8; 32]);
}

#[test]
fn a_page_that_the_store_does_not_have_is_empty() {
    let mut cache = PageCache::new(&Options::new());
    let id = page_id_of(&[7]);
    let task = load(cache.retrieve_sync(id.clone(), false));
    let page = cache.finish_load(task, None);
    assert_eq!(page.node(cache.new_read_pass(), 0), [0u8; 32]);
    assert!(cache.new_read_pass().page_data(&page).bytes().is_none());
}

#[test]
fn hint_fresh_gives_an_empty_page_at_once() {
    let mut cache = PageCache::new(&Options::new());
    let id = page_id_of(&[9, 9]);
    let page = ready(cache.retrieve_sync(id.clone(), true));
    assert_eq!(cache.state(&id), Some(PageState::Cached(page)));
    assert_eq!(page.node(cache.new_read_pass(), 3), [0u8; 32]);
    assert_eq!(ready(cache.retrieve_sync(id, false)), page);
}

#[test]
fn hint_fresh_preempts_a_fetch_and_the_waiters_get_the_same_page() {
    let mut cache = PageCache::new(&Options::new());
    let id = page_id_of(&[4]);
    let task = cache.prepopulate(id.clone()).unwrap();
    assert!(cache.fetch_is_needed(&task));
    let waits_on = ticket(cache.retrieve_sync(id.clone(), false));
    assert_eq!(cache.wait(waits_on), None);

    let fresh = ready(cache.retrieve_sync(id.clone(), true));
    assert_eq!(cache.wait(waits_on), Some(fresh));
    assert_eq!(fresh.node(cache.new_read_pass(), 0), [0u8; 32]);
    assert!(!cache.fetch_is_needed(&task));

    // what the worker has read comes too late
    assert_eq!(cache.complete_fetch(task, Some(page_with(0, 1))), None);
    assert_eq!(cache.state(&id), Some(PageState::Cached(fresh)));
    assert_eq!(cache.wait(waits_on), Some(fresh));
    assert_eq!(fresh.node(cache.new_read_pass(), 0), [0u8; 32]);
}

#[test]
fn a_load_that_was_preempted_hands_out_the_cached_page() {
    let mut cache = PageCache::new(&Options::new());
    let id = page_id_of(&[4, 4]);
    let task = load(cache.retrieve_sync(id.clone(), false));
    let fresh = ready(cache.retrieve_sync(id.clone(), true));
    let page = cache.finish_load(task, Some(page_with(0, 1)));
    assert_eq!(page, fresh);
    assert_eq!(page.node(cache.new_read_pass(), 0), [0u8; 32]);
}

#[test]
fn prepopulate_fetches_a_page_once() {
    let mut cache = PageCache::new(&Options::new());
    let id = page_id_of(&[1]);
    let other = page_id_of(&[2]);
    let task = cache.prepopulate(id.clone()).unwrap();
    assert_eq!(task.page_id, id);
    assert!(cache.prepopulate(id.clone()).is_none());
    let other_task = cache.prepopulate(other.clone()).unwrap();
    assert_ne!(other_task.ticket, task.ticket);

    let waits_on = task.ticket;
    assert_eq!(cache.complete_fetch(task, Some(page_with(1, 7))), Some(waits_on));
    let page = cache.wait(waits_on).unwrap();
    assert_eq!(cache.state(&id), Some(PageState::Cached(page)));
    assert_eq!(page.node(cache.new_read_pass(), 1), [7u8; 32]);
    assert!(cache.prepopulate(id).is_none());
    assert_eq!(cache.state(&other), Some(PageState::Inflight(other_task.ticket)));
    assert_eq!(cache.wait(other_task.ticket), None);
    assert_eq!(cache.wait(1000), None);
}

#[test]
fn cancel_prepopulate_gives_the_waiters_an_empty_page() {
    let mut cache = PageCache::new(&Options::new());
    let id = page_id_of(&[1]);
    assert_eq!(cache.cancel_prepopulate(id.clone()), None);
    assert_eq!(cache.state(&id), None);

    let task = cache.prepopulate(id.clone()).unwrap();
    assert_eq!(cache.cancel_prepopulate(id.clone()), Some(task.ticket));
    let page = cache.wait(task.ticket).unwrap();
    assert_eq!(cache.state(&id), Some(PageState::Cached(page)));
    assert_eq!(page.node(cache.new_read_pass(), 0), [0u8; 32]);
    // a second time nothing happens
    assert_eq!(cache.cancel_prepopulate(id.clone()), None);
    assert_eq!(cache.state(&id), Some(PageState::Cached(page)));
    assert!(!cache.fetch_is_needed(&task));
}

#[test]
fn nominated_pages_are_evicted_at_the_next_access() {
    let mut cache = PageCache::new(&Options::new());
    let id = page_id_of(&[1]);
    let other = page_id_of(&[2]);
    let page = ready(cache.retrieve_sync(id.clone(), true));
    let _ = ready(cache.retrieve_sync(other.clone(), true));

    assert!(cache.nominate_for_eviction(&id));
    assert!(cache.nominate_for_eviction(&id));
    assert_eq!(cache.state(&id), Some(PageState::Cached(page)));
    cache.try_perform_evict();
    assert_eq!(cache.state(&id), None);
    assert!(cache.state(&other).is_some());

    // after the eviction the page is read from the store again
    let task = load(cache.retrieve_sync(id.clone(), false));
    let again = cache.finish_load(task, None);
    assert_ne!(again, page);
}

#[test]
fn only_cached_pages_are_taken_for_eviction() {
    let mut cache = PageCache::new(&Options::new());
    let id = page_id_of(&[1]);
    assert!(!cache.nominate_for_eviction(&id));
    let task = cache.prepopulate(id.clone()).unwrap();
    assert!(!cache.nominate_for_eviction(&id));
    cache.try_perform_evict();
    assert_eq!(cache.state(&id), Some(PageState::Inflight(task.ticket)));
}

#[test]
fn no_page_is_evicted_during_an_update_phase() {
    let mut cache = PageCache::new(&Options::new());
    let id = page_id_of(&[1]);
    let other = page_id_of(&[2]);
    let page = ready(cache.retrieve_sync(id.clone(), true));

    let guard = cache.start_update_phase().unwrap();
    assert!(cache.start_update_phase().is_none());
    assert!(cache.nominate_for_eviction(&id));
    cache.try_perform_evict();
    assert_eq!(cache.state(&id), Some(PageState::Cached(page)));
    let _ = ready(cache.retrieve_sync(other.clone(), true));
    assert!(cache.prepopulate(id.clone()).is_none());
    assert_eq!(cache.state(&id), Some(PageState::Cached(page)));

    cache.finish_update_phase(guard);
    assert_eq!(cache.state(&id), None);
    assert!(cache.state(&other).is_some());
    assert!(cache.start_update_phase().is_some());
}

#[test]
fn many_nominations_are_evicted_in_one_attempt() {
    let mut cache = PageCache::new(&Options::new());
    let mut ids = Vec::new();
    for a in 0..20u8 {
        for b in 0..10u8 {
            ids.push(page_id_of(&[a, b]));
        }
    }
    for id in &ids {
        let _ = ready(cache.retrieve_sync(id.clone(), true));
    }
    for id in &ids {
        assert!(cache.nominate_for_eviction(id));
    }
    cache.try_perform_evict();
    for id in &ids {
        assert_eq!(cache.state(id), None);
    }
}

#[test]
fn pages_are_written_through_the_write_pass() {
    let mut cache = PageCache::new(&Options::new());
    let id = page_id_of(&[3]);
    let page = ready(cache.retrieve_sync(id.clone(), true));
    let write_pass = cache.new_write_pass();
    page.set_node(write_pass, 0, [1u8; 32]);
    page.set_leaf_data(write_pass, 2, LeafData { key_path: [2u8; 32], value_hash: [3u8; 32] });
    let read_pass = cache.new_read_pass();
    assert_eq!(page.node(read_pass, 0), [1u8; 32]);
    assert_eq!(page.node(read_pass, 2), [2u8; 32]);
    assert_eq!(page.node(read_pass, 3), [3u8; 32]);
    assert_eq!(ready(cache.retrieve_sync(id, false)), page);
}

#[test]
fn commit_writes_the_changed_slots_of_a_page() {
    let mut cache = PageCache::new(&Options::new());
    let id = page_id_of(&[1, 1]);
    let page = ready(cache.retrieve_sync(id.clone(), true));
    let mut diff = PageDiff::default();
    let write_pass = cache.new_write_pass();
    page.set_node(write_pass, 0, [0x11; 32]);
    diff.set_changed(0);
    page.set_node(write_pass, 7, [0x77; 32]);
    diff.set_changed(7);
    page.set_node(write_pass, 3, [0x33; 32]);
    diff.set_changed(3);
    let mut only_3_and_7 = PageDiff::default();
    only_3_and_7.set_changed(7);
    only_3_and_7.set_changed(3);

    let mut tx = Transaction::new();
    cache.commit(vec![(id.clone(), only_3_and_7), (id.clone(), diff)], &mut tx);
    let writes = tx.into_writes();
    assert_eq!(writes.len(), 2);
    match &writes[0] {
        StoreWrite::WritePageNodes(page_id, nodes) => {
            assert_eq!(page_id, &id);
            assert_eq!(nodes.len(), 66);
            let mut expected = vec![3u8];
            expected.extend([0x33u8; 32]);
            expected.push(7);
            expected.extend([0x77u8; 32]);
            assert_eq!(nodes, &expected);
        },
        other => panic!("the changed slots were not written: {:?}", other),
    }
    match &writes[1] {
        StoreWrite::WritePageNodes(_, nodes) => {
            assert_eq!(nodes.len(), 99);
            assert_eq!(nodes[0], 0);
            assert_eq!(nodes[33], 3);
            assert_eq!(nodes[66], 7);
        },
        other => panic!("the changed slots were not written: {:?}", other),
    }
}

#[test]
fn commit_writes_the_leaf_bits_as_slot_126() {
    let mut cache = PageCache::new(&Options::new());
    let id = page_id_of(&[1]);
    let page = ready(cache.retrieve_sync(id.clone(), true));
    page.set_leaf_data(
        cache.new_write_pass(),
        0,
        LeafData { key_path: [2u8; 32], value_hash: [3u8; 32] },
    );
    let mut diff = PageDiff::default();
    diff.set_changed(126);
    let mut tx = Transaction::new();
    cache.commit(vec![(id, diff)], &mut tx);
    match &tx.writes()[0] {
        StoreWrite::WritePageNodes(_, nodes) => {
            let mut expected = vec![126u8, 0b1100_0000];
            expected.extend([0u8; 31]);
            assert_eq!(nodes, &expected);
        },
        other => panic!("the changed slots were not written: {:?}", other),
    }
}

#[test]
fn commit_writes_a_page_with_many_changes_as_a_whole() {
    let mut cache = PageCache::new(&Options::new());
    let id = page_id_of(&[2]);
    let page = ready(cache.retrieve_sync(id.clone(), true));
    let mut forty = PageDiff::default();
    let mut thirty_two = PageDiff::default();
    let mut thirty_one = PageDiff::default();
    for slot in 0..40 {
        page.set_node(cache.new_write_pass(), slot, [slot as u8 + 1; 32]);
        forty.set_changed(slot);
        if slot < 32 {
            thirty_two.set_changed(slot);
        }
        if slot < 31 {
            thirty_one.set_changed(slot);
        }
    }
    let mut tx = Transaction::new();
    cache.commit(
        vec![(id.clone(), forty), (id.clone(), thirty_two), (id.clone(), thirty_one)],
        &mut tx,
    );
    let expected = cache.new_read_pass().page_data(&page).bytes().unwrap().clone();
    let writes = tx.writes();
    assert_eq!(writes.len(), 3);
    for write in &writes[..2] {
        match write {
            StoreWrite::WritePage(page_id, bytes) => {
                assert_eq!(page_id, &id);
                assert_eq!(bytes.len(), 4096);
                assert_eq!(bytes, &expected);
            },
            other => panic!("the page was not written as a whole: {:?}", other),
        }
    }
    match &writes[2] {
        StoreWrite::WritePageNodes(_, nodes) => assert_eq!(nodes.len(), 31 * 33),
        other => panic!("the changed slots were not written: {:?}", other),
    }
}

#[test]
fn commit_honours_the_threshold_of_the_options() {
    let mut cache = PageCache::new(&Options { full_page_threshold: 2, ..Options::new() });
    let id = page_id_of(&[2]);
    let page = ready(cache.retrieve_sync(id.clone(), true));
    page.set_node(cache.new_write_pass(), 0, [1u8; 32]);
    page.set_node(cache.new_write_pass(), 1, [1u8; 32]);
    let mut one = PageDiff::default();
    one.set_changed(0);
    let mut two = one.clone();
    two.set_changed(1);
    let mut tx = Transaction::new();
    cache.commit(vec![(id.clone(), one), (id.clone(), two)], &mut tx);
    assert!(matches!(&tx.writes()[0], StoreWrite::WritePageNodes(_, nodes) if nodes.len() == 33));
    assert!(matches!(&tx.writes()[1], StoreWrite::WritePage(_, _)));
}

#[test]
fn commit_deletes_empty_pages_and_passes_over_unknown_ones() {
    let mut cache = PageCache::new(&Options::new());
    let never_written = page_id_of(&[1]);
    let emptied = page_id_of(&[2]);
    let below_only = page_id_of(&[3]);
    let unknown = page_id_of(&[4]);
    let _ = ready(cache.retrieve_sync(never_written.clone(), true));
    let page = ready(cache.retrieve_sync(emptied.clone(), true));
    page.set_node(cache.new_write_pass(), 0, [1u8; 32]);
    page.set_node(cache.new_write_pass(), 0, [0u8; 32]);
    let task = load(cache.retrieve_sync(below_only.clone(), false));
    let _ = cache.finish_load(task, Some(page_with(2, 9)));

    let mut diff = PageDiff::default();
    diff.set_changed(0);
    let mut tx = Transaction::new();
    cache.commit(
        vec![
            (never_written.clone(), diff.clone()),
            (unknown, diff.clone()),
            (emptied.clone(), diff.clone()),
            (below_only.clone(), diff),
        ],
        &mut tx,
    );
    let writes = tx.into_writes();
    assert_eq!(writes.len(), 3);
    assert!(matches!(&writes[0], StoreWrite::DeletePage(id) if id == &never_written));
    assert!(matches!(&writes[1], StoreWrite::DeletePage(id) if id == &emptied));
    assert!(matches!(&writes[2], StoreWrite::DeletePage(id) if id == &below_only));
}

#[test]
fn transactions_keep_the_order_of_the_writes() {
    let mut tx = Transaction::new();
    tx.write_page(page_id_of(&[1]), &vec![1u8; 4096]);
    tx.delete_page(page_id_of(&[2]));
    tx.write_page_nodes(page_id_of(&[3]), vec![0u8; 33]);
    let writes = tx.writes();
    assert!(matches!(&writes[0], StoreWrite::WritePage(id, page) if id == &page_id_of(&[1]) && page == &vec![1u8; 4096]));
    assert!(matches!(&writes[1], StoreWrite::DeletePage(id) if id == &page_id_of(&[2])));
    assert!(matches!(&writes[2], StoreWrite::WritePageNodes(id, nodes) if id == &page_id_of(&[3]) && nodes.len() == 33));
}

#[test]
fn leaf_data_is_kept_below_the_leaf() {
    let mut cache = PageCache::new(&Options::new());
    let id = page_id_of(&[5, 6]);
    let page = ready(cache.retrieve_sync(id.clone(), true));
    let current = (id.clone(), page);
    let index = |i: u8| ChildPageIndex::new(i).unwrap();

    // a leaf at the root of the trie: the top of the root page
    match locate_leaf_data(None, 0, index(0), 0) {
        LeafDataLocation::Retrieve(page_id, left) => {
            assert_eq!(page_id, PageId::root());
            assert_eq!(left, 0);
        },
        other => panic!("the root page is to be retrieved: {:?}", other),
    }
    // a leaf within its page: the two slots below it
    match locate_leaf_data(Some(&current), 3, index(9), 20) {
        LeafDataLocation::InPage(in_page, page_id, left) => {
            assert_eq!(in_page, page);
            assert_eq!(page_id, id);
            assert_eq!(left, 20);
        },
        other => panic!("the page is at hand: {:?}", other),
    }
    // a leaf at the last level of its page: the top of the child page
    match locate_leaf_data(Some(&current), 6, index(9), 20) {
        LeafDataLocation::Retrieve(page_id, left) => {
            assert_eq!(page_id, page_id_of(&[5, 6, 9]));
            assert_eq!(left, 0);
        },
        other => panic!("the child page is to be retrieved: {:?}", other),
    }
}
