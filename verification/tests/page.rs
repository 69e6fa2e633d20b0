use nomt::page::{
    page_is_empty, LeafData, PageData, LEAF_DATA_BITFIELD_OFF, LEAF_META_BITFIELD_SLOT,
    NODES_PER_PAGE, PAGE_SIZE,
};
use nomt::page_diff::PageDiff;
use nomt::rw_pass::RwPassDomain;

fn node_of(byte: u8) -> [u8; 32] {
    [byte; 32]
}

fn leaf(key: u8, value: u8) -> LeafData {
    LeafData { key_path: [key; 32], value_hash: [value; 32] }
}

fn leaf_bit(page: &PageData, slot: usize) -> bool {
    let bytes = page.bytes().unwrap();
    bytes[LEAF_DATA_BITFIELD_OFF + slot / 8] & (0x80 >> (slot % 8)) != 0
}

#[test]
fn layout_constants() {
    assert_eq!(NODES_PER_PAGE, 126);
    assert_eq!(LEAF_META_BITFIELD_SLOT, 126);
    assert_eq!(LEAF_DATA_BITFIELD_OFF, 4032);
    assert_eq!(PAGE_SIZE, 4096);
}

#[test]
fn pristine_empty_page_reads_zero() {
    let page = PageData::pristine_empty();
    assert!(page.bytes().is_none());
    for index in [0usize, 1, 64, 125] {
        assert_eq!(page.node(index), [0u8; 32]);
    }
}

#[test]
fn pristine_page_with_data_reads_its_slots() {
    let mut data = vec![0u8; 4096];
    for (i, byte) in data.iter_mut().enumerate() {
        *byte = (i / 32) as u8;
    }
    let page = PageData::pristine_with_data(data.clone());
    assert_eq!(page.bytes().unwrap(), &data);
    assert_eq!(page.node(0), node_of(0));
    assert_eq!(page.node(7), node_of(7));
    assert_eq!(page.node(125), node_of(125));
}

#[test]
fn set_node_writes_the_slot_and_clears_its_leaf_bit() {
    let mut page = PageData::pristine_empty();
    page.set_leaf_data(4, leaf(1, 2));
    assert!(leaf_bit(&page, 4));
    page.set_node(4, node_of(9));
    assert_eq!(page.node(4), node_of(9));
    assert!(!leaf_bit(&page, 4));
    assert_eq!(page.bytes().unwrap().len(), 4096);
    // nothing else has changed
    assert_eq!(page.node(3), [0u8; 32]);
    assert_eq!(page.node(5), node_of(2));
    assert!(leaf_bit(&page, 5));
}

#[test]
fn set_node_at_the_last_slot() {
    let mut page = PageData::pristine_empty();
    page.set_node(125, node_of(0xee));
    assert_eq!(page.node(125), node_of(0xee));
    assert_eq!(&page.bytes().unwrap()[4000..4032], &[0xee; 32][..]);
    assert_eq!(&page.bytes().unwrap()[4032..4096], &[0u8; 64][..]);
}

#[test]
fn set_leaf_data_marks_both_slots_and_writes_64_bytes() {
    let mut page = PageData::pristine_empty();
    page.set_leaf_data(10, leaf(0xaa, 0xbb));
    assert!(leaf_bit(&page, 10));
    assert!(leaf_bit(&page, 11));
    assert!(!leaf_bit(&page, 9));
    assert!(!leaf_bit(&page, 12));
    let bytes = page.bytes().unwrap();
    // slots 8 to 15 have their bits in byte 4033, most significant bit first
    assert_eq!(bytes[4033], 0b0011_0000);
    assert_eq!(&bytes[320..352], &[0xaa; 32][..]);
    assert_eq!(&bytes[352..384], &[0xbb; 32][..]);
    assert_eq!(page.node(10), node_of(0xaa));
    assert_eq!(page.node(11), node_of(0xbb));
}

#[test]
fn set_leaf_data_at_the_last_pair() {
    let mut page = PageData::pristine_empty();
    page.set_leaf_data(124, leaf(1, 2));
    assert!(leaf_bit(&page, 124));
    assert!(leaf_bit(&page, 125));
    assert_eq!(page.bytes().unwrap()[4032 + 15], 0b0000_1100);
    assert_eq!(page.node(124), node_of(1));
    assert_eq!(page.node(125), node_of(2));
}

#[test]
fn clear_leaf_data_after_set_zeroes_both_slots() {
    let mut page = PageData::pristine_empty();
    page.set_leaf_data(10, leaf(0xaa, 0xbb));
    page.clear_leaf_data(10);
    assert!(!leaf_bit(&page, 10));
    assert!(!leaf_bit(&page, 11));
    assert_eq!(page.node(10), [0u8; 32]);
    assert_eq!(page.node(11), [0u8; 32]);
    assert_eq!(page.bytes().unwrap(), &vec![0u8; 4096]);
}

#[test]
fn clear_leaf_data_leaves_nodes_alone() {
    let mut page = PageData::pristine_empty();
    page.set_node(20, node_of(5));
    page.set_node(21, node_of(6));
    page.clear_leaf_data(20);
    assert_eq!(page.node(20), node_of(5));
    assert_eq!(page.node(21), node_of(6));

    // one half leaf data, the other a node
    page.set_leaf_data(30, leaf(7, 8));
    page.set_node(30, node_of(9));
    page.clear_leaf_data(30);
    assert_eq!(page.node(30), node_of(9));
    assert_eq!(page.node(31), [0u8; 32]);
    assert!(!leaf_bit(&page, 30));
    assert!(!leaf_bit(&page, 31));
}

#[test]
fn node_over_leaf_data_keeps_the_right_half() {
    let mut page = PageData::pristine_empty();
    page.set_leaf_data(10, leaf(0xaa, 0xbb));
    page.set_node(10, node_of(0xcc));
    assert_eq!(page.node(10), node_of(0xcc));
    assert!(!leaf_bit(&page, 10));
    assert_eq!(page.node(11), node_of(0xbb));
    assert!(leaf_bit(&page, 11));
}

#[test]
fn page_is_empty_looks_at_the_two_top_slots() {
    let mut page = vec![0u8; 4096];
    assert!(page_is_empty(&page));
    page[64] = 1;
    page[4095] = 1;
    assert!(page_is_empty(&page));
    page[63] = 1;
    assert!(!page_is_empty(&page));
    page[63] = 0;
    page[0] = 1;
    assert!(!page_is_empty(&page));
    page[0] = 0;
    page[32] = 1;
    assert!(!page_is_empty(&page));
}

#[test]
fn page_diff_notes_the_changed_slots_in_rising_order() {
    let mut diff = PageDiff::default();
    assert_eq!(diff.changed_count(), 0);
    assert_eq!(diff.changed_slots(), Vec::<usize>::new());
    diff.set_changed(7);
    diff.set_changed(3);
    diff.set_changed(126);
    diff.set_changed(64);
    diff.set_changed(7);
    assert_eq!(diff.changed_count(), 4);
    assert_eq!(diff.changed_slots(), vec![3, 7, 64, 126]);
    let copy = diff.clone();
    diff.set_changed(0);
    assert_eq!(copy.changed_slots(), vec![3, 7, 64, 126]);
    assert_eq!(diff.changed_slots(), vec![0, 3, 7, 64, 126]);
    assert_eq!(PageDiff::new().changed_count(), 0);
}

#[test]
fn pages_are_reached_through_handles_and_passes() {
    let mut domain = RwPassDomain::new();
    let first = domain.protect(PageData::pristine_empty());
    let second = domain.protect(PageData::pristine_with_data(vec![3u8; 4096]));
    assert_ne!(first, second);
    assert!(domain.holds(&first));
    assert!(domain.holds(&second));
    assert!(!RwPassDomain::new().holds(&first));

    assert_eq!(first.node(&domain, 5), [0u8; 32]);
    assert_eq!(second.node(&domain, 5), node_of(3));

    let copy = first;
    first.set_node(&mut domain, 5, node_of(1));
    assert_eq!(copy.node(&domain, 5), node_of(1));
    assert_eq!(second.node(&domain, 5), node_of(3));

    second.set_leaf_data(&mut domain, 8, leaf(4, 5));
    assert_eq!(second.node(&domain, 8), node_of(4));
    assert_eq!(second.node(&domain, 9), node_of(5));
    // the byte of the leaf bits held 3 before: the two bits are added to it
    assert_eq!(domain.page_data(&second).bytes().unwrap()[4033], 0b1100_0011);
    second.clear_leaf_data(&mut domain, 8);
    assert_eq!(domain.page_data(&second).bytes().unwrap()[4033], 0b0000_0011);
    assert_eq!(second.node(&domain, 8), [0u8; 32]);
    assert_eq!(second.node(&domain, 9), [0u8; 32]);
    assert_eq!(first.node(&domain, 5), node_of(1));
}
