use nomt::page_id::{
    ChildPageIdError, ChildPageIndex, InvalidPageIdBytes, PageId, PageIdsIterator, MAX_CHILD_INDEX,
};

const HIGHEST_ENCODED_42: [u8; 32] = [
    16, 65, 4, 16, 65, 4, 16, 65, 4, 16, 65, 4, 16, 65, 4, 16, 65, 4, 16, 65, 4, 16, 65, 4, 16, 65,
    4, 16, 65, 4, 16, 64,
];

const LOWEST_ENCODED_42: [u8; 32] = [
    0, 65, 4, 16, 65, 4, 16, 65, 4, 16, 65, 4, 16, 65, 4, 16, 65, 4, 16, 65, 4, 16, 65, 4, 16, 65,
    4, 16, 65, 4, 16, 65,
];

fn child_page_id(page_id: &PageId, child_index: u8) -> Result<PageId, ChildPageIdError> {
    page_id.child_page_id(ChildPageIndex::new(child_index).unwrap())
}

fn last_page_id(key_path: [u8; 32]) -> Option<PageId> {
    let mut page_ids = PageIdsIterator::new(key_path);
    let mut last = None;
    while let Some(page_id) = page_ids.next() {
        last = Some(page_id);
    }
    last
}

#[test]
fn test_child_and_parent_page_id() {
    let mut page_id_1 = [0u8; 32]; // child index 6
    page_id_1[31] = 0b00000111;
    let page_id_1 = PageId::decode(page_id_1).unwrap();

    assert_eq!(Ok(page_id_1.clone()), child_page_id(&PageId::root(), 6));
    assert_eq!(PageId::root(), page_id_1.parent_page_id());

    let mut page_id_2 = [0u8; 32]; // child index 4
    page_id_2[31] = 0b11000101;
    page_id_2[30] = 0b00000001;
    let page_id_2 = PageId::decode(page_id_2).unwrap();

    assert_eq!(Ok(page_id_2.clone()), child_page_id(&page_id_1, 4));
    assert_eq!(page_id_1, page_id_2.parent_page_id());

    let mut page_id_3 = [0u8; 32]; // child index 63
    page_id_3[31] = 0b10000000;
    page_id_3[30] = 0b01110001;
    let page_id_3 = PageId::decode(page_id_3).unwrap();

    assert_eq!(
        Ok(page_id_3.clone()),
        child_page_id(&page_id_2, MAX_CHILD_INDEX),
    );
    assert_eq!(page_id_2, page_id_3.parent_page_id());
}

#[test]
fn test_page_ids_iterator() {
    // key_path = 0b000001|000010|0...
    let mut key_path = [0u8; 32];
    key_path[0] = 0b00000100;
    key_path[1] = 0b00100000;

    let mut page_id_1 = [0u8; 32];
    page_id_1[31] = 0b00000010; // 0b000001 + 1
    let page_id_1 = PageId::decode(page_id_1).unwrap();
    let mut page_id_2 = [0u8; 32];
    page_id_2[31] = 0b10000011; // (0b000001 + 1 << 6) + 0b000010 + 1
    let page_id_2 = PageId::decode(page_id_2).unwrap();

    let mut page_ids = PageIdsIterator::new(key_path);
    assert_eq!(page_ids.next(), Some(PageId::root()));
    assert_eq!(page_ids.next(), Some(page_id_1));
    assert_eq!(page_ids.next(), Some(page_id_2));

    // key_path = 0b000010|111111|0...
    let mut key_path = [0u8; 32];
    key_path[0] = 0b00001011;
    key_path[1] = 0b11110000;

    let mut page_id_1 = [0u8; 32];
    page_id_1[31] = 0b00000011; // 0b000010 + 1
    let page_id_1 = PageId::decode(page_id_1).unwrap();
    let mut page_id_2 = [0u8; 32];
    page_id_2[31] = 0b0000000;
    page_id_2[30] = 0b0000001; // (0b00000011 << 6) + 0b111111 + 1 = (0b00000011 + 1) << 6
    let page_id_2 = PageId::decode(page_id_2).unwrap();

    let mut page_ids = PageIdsIterator::new(key_path);
    assert_eq!(page_ids.next(), Some(PageId::root()));
    assert_eq!(page_ids.next(), Some(page_id_1));
    assert_eq!(page_ids.next(), Some(page_id_2));
}

#[test]
fn invalid_child_index() {
    assert_eq!(None, ChildPageIndex::new(0b01010000));
    assert_eq!(None, ChildPageIndex::new(0b10000100));
    assert_eq!(None, ChildPageIndex::new(0b11000101));
}

#[test]
fn test_invalid_page_id() {
    // position 255
    let mut page_id = [0u8; 32];
    page_id[0] = 128;
    assert_eq!(Err(InvalidPageIdBytes), PageId::decode(page_id));

    // position 252
    let mut page_id = [0u8; 32];
    page_id[0] = 128;
    assert_eq!(Err(InvalidPageIdBytes), PageId::decode(page_id));
}

#[test]
fn test_page_id_overflow() {
    let first_page_last_layer = last_page_id([0u8; 32]).unwrap();
    let last_page_last_layer = last_page_id([255; 32]).unwrap();
    assert_eq!(
        Err(ChildPageIdError::PageIdOverflow),
        child_page_id(&first_page_last_layer, 0),
    );
    assert_eq!(
        Err(ChildPageIdError::PageIdOverflow),
        child_page_id(&last_page_last_layer, 0),
    );

    // position 255
    let page_id = PageId::decode(HIGHEST_ENCODED_42).unwrap();
    assert_eq!(
        Err(ChildPageIdError::PageIdOverflow),
        child_page_id(&page_id, 0),
    );

    // any PageId bigger than LOWEST_42 must overflow
    let mut page_id = LOWEST_ENCODED_42;
    page_id[31] = 255;
    let page_id = PageId::decode(page_id).unwrap();
    assert_eq!(
        Err(ChildPageIdError::PageIdOverflow),
        child_page_id(&page_id, 0),
    );

    // position 245
    let mut page_id = [0u8; 32];
    page_id[1] = 32;
    let page_id = PageId::decode(page_id).unwrap();
    assert!(child_page_id(&page_id, 0).is_ok());

    // neither of those two have to panic if called at most 41 times
    let mut low = PageId::root();
    let mut high = PageId::root();
    for _ in 0..42 {
        low = child_page_id(&low, 0).unwrap();
        high = child_page_id(&high, MAX_CHILD_INDEX).unwrap();
    }
}

fn page_id_of(limbs: &[u8]) -> PageId {
    let mut page_id = PageId::root();
    for limb in limbs {
        page_id = child_page_id(&page_id, *limb).unwrap();
    }
    page_id
}

#[test]
fn child_page_index_accepts_0_to_63() {
    for index in 0..=63u8 {
        assert_eq!(ChildPageIndex::new(index).unwrap().to_u8(), index);
    }
    for index in 64..=255u8 {
        assert_eq!(ChildPageIndex::new(index), None);
    }
}

#[test]
fn decode_of_seven_is_child_six_and_encodes_back() {
    let mut bytes = [0u8; 32];
    bytes[31] = 0b00000111;
    let page_id = PageId::decode(bytes).unwrap();
    assert_eq!(page_id.length_dependent_encoding(), &[6u8][..]);
    assert_eq!(page_id.encode(), bytes);
}

#[test]
fn decode_rejects_what_is_above_the_highest() {
    let mut bytes = [0u8; 32];
    bytes[0] = 128;
    assert_eq!(PageId::decode(bytes), Err(InvalidPageIdBytes));

    let mut above = HIGHEST_ENCODED_42;
    above[31] += 1;
    assert_eq!(PageId::decode(above), Err(InvalidPageIdBytes));
    assert_eq!(PageId::decode([255u8; 32]), Err(InvalidPageIdBytes));
    assert!(PageId::decode(HIGHEST_ENCODED_42).is_ok());
}

#[test]
fn root_is_all_zero_and_its_own_parent() {
    let root = PageId::root();
    assert_eq!(root.encode(), [0u8; 32]);
    assert_eq!(PageId::decode([0u8; 32]), Ok(PageId::root()));
    assert_eq!(root.parent_page_id(), PageId::root());
    assert_eq!(root.depth(), 0);
    assert_eq!(root.length_dependent_encoding(), &[0u8; 0][..]);
}

#[test]
fn encode_is_the_number_of_the_path() {
    // (1 + 1) * 64 + (2 + 1) = 131
    let mut expected = [0u8; 32];
    expected[31] = 131;
    assert_eq!(page_id_of(&[1, 2]).encode(), expected);

    // ((0 + 1) * 64 + (0 + 1)) * 64 + (63 + 1) = 4224 = 0x1080
    let mut expected = [0u8; 32];
    expected[30] = 0x10;
    expected[31] = 0x80;
    assert_eq!(page_id_of(&[0, 0, 63]).encode(), expected);

    assert_eq!(page_id_of(&[63; 42]).encode(), HIGHEST_ENCODED_42);
    assert_eq!(page_id_of(&[0; 42]).encode(), LOWEST_ENCODED_42);
}

#[test]
fn decode_gives_the_limbs_in_path_order() {
    let mut bytes = [0u8; 32];
    bytes[30] = 0x10;
    bytes[31] = 0x80;
    let page_id = PageId::decode(bytes).unwrap();
    assert_eq!(page_id.length_dependent_encoding(), &[0u8, 0, 63][..]);
    assert_eq!(page_id.depth(), 3);

    let deepest = PageId::decode(HIGHEST_ENCODED_42).unwrap();
    assert_eq!(deepest.length_dependent_encoding(), &[63u8; 42][..]);
    let lowest = PageId::decode(LOWEST_ENCODED_42).unwrap();
    assert_eq!(lowest.length_dependent_encoding(), &[0u8; 42][..]);
}

#[test]
fn encode_and_decode_are_inverse() {
    let paths: [&[u8]; 6] = [
        &[],
        &[0],
        &[63],
        &[5, 0, 63, 17],
        &[63, 63, 63, 63, 63, 63, 63, 63],
        &[1, 2, 3, 4, 5, 6, 7, 8, 9, 10, 11, 12, 13, 14, 15, 16, 17, 18, 19, 20, 21],
    ];
    for path in paths {
        let page_id = page_id_of(path);
        let bytes = page_id.encode();
        let back = PageId::decode(bytes).unwrap();
        assert_eq!(back, page_id);
        assert_eq!(back.length_dependent_encoding(), path);
        assert_eq!(back.encode(), bytes);
    }
}

#[test]
fn parent_of_child_is_the_page() {
    let page_id = page_id_of(&[3, 9, 27]);
    for index in [0u8, 1, 31, 63] {
        let child = child_page_id(&page_id, index).unwrap();
        assert_eq!(child.depth(), 4);
        assert_eq!(child.parent_page_id(), page_id);
    }
}

#[test]
fn clone_is_equal_and_others_differ() {
    let page_id = page_id_of(&[3, 9, 27]);
    assert_eq!(page_id.clone(), page_id);
    assert_ne!(page_id_of(&[3, 9]), page_id);
    assert_ne!(page_id_of(&[3, 9, 28]), page_id);
}

#[test]
fn iterator_walks_the_sextets_of_the_key() {
    let mut key_path = [0u8; 32];
    key_path[0] = 0b00000100;
    key_path[1] = 0b00100000;
    let mut page_ids = PageIdsIterator::new(key_path);
    let first = page_ids.next().unwrap();
    let second = page_ids.next().unwrap();
    let third = page_ids.next().unwrap();
    assert_eq!(first.encode(), [0u8; 32]);
    let mut expected = [0u8; 32];
    expected[31] = 0b00000010;
    assert_eq!(second.encode(), expected);
    expected[31] = 0b10000011;
    assert_eq!(third.encode(), expected);
}

#[test]
fn iterator_gives_43_pages_of_rising_depth() {
    let mut key_path = [0u8; 32];
    for (i, byte) in key_path.iter_mut().enumerate() {
        *byte = (i as u8).wrapping_mul(37).wrapping_add(11);
    }
    let mut page_ids = PageIdsIterator::new(key_path);
    let mut previous: Option<PageId> = None;
    for depth in 0..43usize {
        let page_id = page_ids.next().unwrap();
        assert_eq!(page_id.depth(), depth);
        if let Some(previous) = &previous {
            assert_eq!(&page_id.parent_page_id(), previous);
        }
        if depth > 0 {
            // the limb is the sextet of the key path at this level
            let bit = 6 * (depth - 1);
            let two = ((key_path[bit / 8] as u16) << 8)
                | (*key_path.get(bit / 8 + 1).unwrap_or(&0) as u16);
            let sextet = ((two >> (10 - bit % 8)) & 63) as u8;
            assert_eq!(page_id.length_dependent_encoding()[depth - 1], sextet);
        }
        previous = Some(page_id);
    }
    assert_eq!(page_ids.next(), None);
    assert_eq!(page_ids.next(), None);
}
