use aeron_rs::agent::image_index::{
    find_image_in_index, image_hash, insert_image_index, remove_image_index, ImageEntry,
    IMAGE_INDEX_EMPTY, MAX_IMAGES,
};

fn make_images() -> [ImageEntry; MAX_IMAGES] {
    std::array::from_fn(|_| ImageEntry::default())
}

fn make_active(images: &mut [ImageEntry; MAX_IMAGES], idx: usize, session: i32, stream: i32) {
    images[idx].session_id = session;
    images[idx].stream_id = stream;
    images[idx].active = true;
}

// image_hash

#[test]
fn image_hash_is_within_mask() {
    for session in -100..100 {
        for stream in -10..10 {
            let h = image_hash(session, stream);
            assert!(h < MAX_IMAGES, "hash {h} out of range for ({session},{stream})");
        }
    }
}

// insert + find

#[test]
fn insert_and_find_single() {
    let mut images = make_images();
    let mut index = [IMAGE_INDEX_EMPTY; MAX_IMAGES];
    make_active(&mut images, 0, 42, 7);
    insert_image_index(&mut index, 0, 42, 7);
    assert_eq!(find_image_in_index(&images, &index, 42, 7), Some(0));
}

#[test]
fn find_nonexistent_returns_none() {
    let images = make_images();
    let index = [IMAGE_INDEX_EMPTY; MAX_IMAGES];
    assert_eq!(find_image_in_index(&images, &index, 99, 99), None);
}

#[test]
fn insert_multiple_and_find() {
    let mut images = make_images();
    let mut index = [IMAGE_INDEX_EMPTY; MAX_IMAGES];
    for i in 0..10 {
        make_active(&mut images, i, i as i32 * 100, i as i32);
        insert_image_index(&mut index, i, i as i32 * 100, i as i32);
    }
    for i in 0..10 {
        assert_eq!(
            find_image_in_index(&images, &index, i as i32 * 100, i as i32),
            Some(i),
        );
    }
}

// remove_image_index (backward-shift deletion)

#[test]
fn remove_single_entry() {
    let mut images = make_images();
    let mut index = [IMAGE_INDEX_EMPTY; MAX_IMAGES];
    make_active(&mut images, 0, 42, 7);
    insert_image_index(&mut index, 0, 42, 7);

    remove_image_index(&mut index, &images, 42, 7);
    assert_eq!(find_image_in_index(&images, &index, 42, 7), None);
}

#[test]
fn remove_nonexistent_is_noop() {
    let images = make_images();
    let mut index = [IMAGE_INDEX_EMPTY; MAX_IMAGES];
    // Should not panic or corrupt state.
    remove_image_index(&mut index, &images, 99, 99);
    assert_eq!(index, [IMAGE_INDEX_EMPTY; MAX_IMAGES]);
}

#[test]
fn remove_preserves_chained_entries() {
    let mut images = make_images();
    let mut index = [IMAGE_INDEX_EMPTY; MAX_IMAGES];

    // Insert three entries, some will chain via linear probing.
    for i in 0..3 {
        make_active(&mut images, i, i as i32, 0);
        insert_image_index(&mut index, i, i as i32, 0);
    }

    // Remove the first one.
    remove_image_index(&mut index, &images, 0, 0);
    assert_eq!(find_image_in_index(&images, &index, 0, 0), None);

    // The others must still be findable.
    assert!(find_image_in_index(&images, &index, 1, 0).is_some());
    assert!(find_image_in_index(&images, &index, 2, 0).is_some());
}

#[test]
fn remove_middle_of_chain() {
    let mut images = make_images();
    let mut index = [IMAGE_INDEX_EMPTY; MAX_IMAGES];

    for i in 0..5 {
        make_active(&mut images, i, i as i32, 0);
        insert_image_index(&mut index, i, i as i32, 0);
    }

    // Remove entry 2 (middle of chain).
    remove_image_index(&mut index, &images, 2, 0);

    // All others still findable.
    for i in 0..5 {
        if i == 2 { continue; }
        assert!(
            find_image_in_index(&images, &index, i as i32, 0).is_some(),
            "entry {i} should still be findable"
        );
    }
    assert_eq!(find_image_in_index(&images, &index, 2, 0), None);
}

#[test]
fn remove_all_entries() {
    let mut images = make_images();
    let mut index = [IMAGE_INDEX_EMPTY; MAX_IMAGES];
    let n = 20;

    for i in 0..n {
        make_active(&mut images, i, i as i32, i as i32);
        insert_image_index(&mut index, i, i as i32, i as i32);
    }

    // Remove all.
    for i in 0..n {
        remove_image_index(&mut index, &images, i as i32, i as i32);
    }

    // Table should be empty.
    for i in 0..n {
        assert_eq!(find_image_in_index(&images, &index, i as i32, i as i32), None);
    }
}

#[test]
fn remove_then_insert_same_key() {
    let mut images = make_images();
    let mut index = [IMAGE_INDEX_EMPTY; MAX_IMAGES];
    make_active(&mut images, 0, 42, 7);
    insert_image_index(&mut index, 0, 42, 7);

    remove_image_index(&mut index, &images, 42, 7);
    assert_eq!(find_image_in_index(&images, &index, 42, 7), None);

    // Re-insert at a different images[] index.
    make_active(&mut images, 5, 42, 7);
    insert_image_index(&mut index, 5, 42, 7);
    assert_eq!(find_image_in_index(&images, &index, 42, 7), Some(5));
}

#[test]
fn remove_with_wrap_around() {
    let mut images = make_images();
    let mut index = [IMAGE_INDEX_EMPTY; MAX_IMAGES];

    // Force wrap-around by scanning for session_ids whose hash lands
    // at the very end of the table (slots 253-255). Linear probing
    // will push subsequent inserts past slot 255 and wrap to slot 0+.
    let mut inserted = Vec::new();
    for session in 0..100_000i32 {
        let h = image_hash(session, 0);
        if h >= MAX_IMAGES - 3 {
            let idx = inserted.len();
            make_active(&mut images, idx, session, 0);
            insert_image_index(&mut index, idx, session, 0);
            inserted.push(session);
        }
        if inserted.len() >= 5 { break; }
    }

    // Must have found at least 2 entries for a meaningful test.
    assert!(inserted.len() >= 2, "need entries that hash near end of table");

    // Remove the first one inserted (at or near end of table).
    let target = inserted[0];
    remove_image_index(&mut index, &images, target, 0);
    assert_eq!(find_image_in_index(&images, &index, target, 0), None);

    // All others still findable.
    for &s in &inserted[1..] {
        assert!(
            find_image_in_index(&images, &index, s, 0).is_some(),
            "session {s} should still be findable after removing {target}"
        );
    }
}

#[test]
fn nearly_full_table_finds_every_image() {
    let mut images = make_images();
    let mut index = [IMAGE_INDEX_EMPTY; MAX_IMAGES];
    let n = MAX_IMAGES - 1;
    for i in 0..n {
        make_active(&mut images, i, i as i32 * 7919, i as i32);
        insert_image_index(&mut index, i, i as i32 * 7919, i as i32);
    }
    for i in (0..n).step_by(2) {
        remove_image_index(&mut index, &images, i as i32 * 7919, i as i32);
        images[i].active = false;
    }
    for i in 0..n {
        let found = find_image_in_index(&images, &index, i as i32 * 7919, i as i32);
        assert_eq!(found, if i % 2 == 0 { None } else { Some(i) });
    }
}

#[test]
fn full_table_finds_every_other_image() {
    for removed in 0..MAX_IMAGES {
        let mut images = make_images();
        let mut index = [IMAGE_INDEX_EMPTY; MAX_IMAGES];
        for i in 0..MAX_IMAGES {
            make_active(&mut images, i, i as i32 * 7919, i as i32 % 3);
            insert_image_index(&mut index, i, i as i32 * 7919, i as i32 % 3);
        }
        remove_image_index(&mut index, &images, removed as i32 * 7919, removed as i32 % 3);
        for i in 0..MAX_IMAGES {
            let found = find_image_in_index(&images, &index, i as i32 * 7919, i as i32 % 3);
            assert_eq!(found, if i == removed { None } else { Some(i) });
        }
    }
}
