use plato::cards::SaveRequest;
use plato::defrag::DefragError;
use plato::image::{ImageError, IMAGE_SIZE};
use plato::layout::{pack_coordinates, ARENA_SIZE, MAX_ITEMS, TYPE_ARTICLE, TYPE_LETTER};
use plato::slots::{ArenaMetrics, OccupiedSlot};
use plato::store::{MetadataRow, PlatoStore};

fn save(s: &mut PlatoStore, id: u16, ct: u8, title: &str, text: &str) {
    let req = SaveRequest {
        id,
        content_type: ct,
        author_id: 3,
        target_id: 4,
        title: title.to_string(),
        text: text.to_string(),
    };
    s.save_card(&req, 100 + id as u32, "date").unwrap();
}

#[test]
fn defragment_keeps_cards_and_reclaims_zombies() {
    let mut s = PlatoStore::new();
    save(&mut s, 1, TYPE_ARTICLE, "one", "first body");
    save(&mut s, 2, TYPE_ARTICLE, "two", "second body, a little longer");
    save(&mut s, 3, TYPE_ARTICLE, "three", "third");
    save(&mut s, 1, TYPE_ARTICLE, "one again", "rewritten");
    s.delete_card(2).unwrap();
    let c1 = s.get_article_slice(1).unwrap().to_vec();
    let c3 = s.get_article_slice(3).unwrap().to_vec();
    let before = s.arena_metrics();
    assert!(before.zombie_bytes > 0);
    assert_eq!(s.defragment(), Ok(()));
    assert_eq!(s.get_article_slice(1).unwrap(), &c1[..]);
    assert_eq!(s.get_article_slice(3).unwrap(), &c3[..]);
    assert!(s.get_article_slice(2).is_none());
    assert_eq!(s.jump_table[1], pack_coordinates(0, c1.len() as u32));
    assert_eq!(s.jump_table[3], pack_coordinates(c1.len() as u32, c3.len() as u32));
    assert_eq!(s.free_pointer as usize, c1.len() + c3.len());
    let after = s.arena_metrics();
    assert_eq!(after.zombie_bytes, 0);
    assert_eq!(after.live_bytes, (c1.len() + c3.len()) as u64);
    assert!(s.arena[s.free_pointer as usize..].iter().all(|b| *b == 0));
}

#[test]
fn defragment_stops_on_corrupt_coordinates() {
    let mut s = PlatoStore::new();
    save(&mut s, 1, TYPE_ARTICLE, "one", "body");
    let len1 = s.free_pointer;
    s.arena[0] ^= 0xFF;
    let arena_before = s.arena.clone();
    s.jump_table[5] = pack_coordinates(ARENA_SIZE as u32, 1);
    s.free_pointer = 900;
    assert_eq!(s.defragment(), Err(DefragError::BoundaryCorruption));
    assert_eq!(s.arena, arena_before);
    assert_eq!(s.free_pointer, 900);
    assert_eq!(s.jump_table[1], pack_coordinates(0, len1));
    assert_eq!(s.jump_table[5], pack_coordinates(ARENA_SIZE as u32, 1));
}

#[test]
fn image_round_trip_restores_tables_and_tail() {
    let mut s = PlatoStore::new();
    save(&mut s, 1, TYPE_ARTICLE, "one", "first body");
    save(&mut s, 2, TYPE_LETTER, "two", "second body");
    let c1 = s.get_article_slice(1).unwrap().to_vec();
    let fp = s.free_pointer;
    s.delete_card(2).unwrap();
    let img = s.to_image();
    assert_eq!(img.len(), IMAGE_SIZE);
    assert_eq!(&img[8..16], &s.jump_table[1].to_le_bytes());
    assert_eq!(&img[8192 + 8..8192 + 12], &101u32.to_le_bytes());
    assert_eq!(img[8192 + 12], TYPE_ARTICLE);
    let loaded = PlatoStore::from_image(&img).unwrap();
    assert_eq!(loaded.jump_table, s.jump_table);
    assert_eq!(loaded.metadata, s.metadata);
    assert_eq!(loaded.arena, s.arena);
    assert_eq!(loaded.get_article_slice(1).unwrap(), &c1[..]);
    assert_eq!(loaded.free_pointer as usize, c1.len());
    assert!(loaded.free_pointer < fp);
}

#[test]
fn image_shorter_than_the_store_is_refused() {
    let img = vec![0u8; IMAGE_SIZE - 1];
    assert!(matches!(PlatoStore::from_image(&img), Err(ImageError::TooShort)));
    let mut long = PlatoStore::new().to_image();
    long.push(9);
    let loaded = PlatoStore::from_image(&long).unwrap();
    assert_eq!(loaded.free_pointer, 0);
}

#[test]
fn restored_tail_wraps_at_32_bits() {
    let mut s = PlatoStore::new();
    s.jump_table[0] = pack_coordinates(u32::MAX, 2);
    s.jump_table[1] = pack_coordinates(10, 5);
    let loaded = PlatoStore::from_image(&s.to_image()).unwrap();
    assert_eq!(loaded.free_pointer, 15);
}

#[test]
fn occupied_slots_and_metrics() {
    let mut s = PlatoStore::new();
    s.jump_table[2] = pack_coordinates(0, 10);
    s.metadata[2] = MetadataRow { timestamp: 1, content_type: 2, author_id: 1, target_id: 2, padding: 0 };
    s.jump_table[700] = pack_coordinates(30, 5);
    s.metadata[700] = MetadataRow { timestamp: 1, content_type: 4, author_id: 3, target_id: 4, padding: 0 };
    s.free_pointer = 40;
    assert_eq!(
        s.occupied_slots(),
        vec![
            OccupiedSlot { id: 2, content_type: 2, author_id: 1, target_id: 2 },
            OccupiedSlot { id: 700, content_type: 4, author_id: 3, target_id: 4 },
        ]
    );
    assert_eq!(
        s.arena_metrics(),
        ArenaMetrics {
            free_pointer: 40,
            occupied_slots: 2,
            free_slots: MAX_ITEMS as u64 - 2,
            live_bytes: 15,
            max_physical_edge: 35,
            zombie_bytes: 20,
        }
    );
}

#[test]
fn service_days_count_from_slot_zero_or_default() {
    let mut s = PlatoStore::new();
    assert_eq!(s.service_days(1781863800 + 86400 * 3 + 5), 3);
    assert_eq!(s.service_days(1781863800 - 86400 - 5), -1);
    assert_eq!(s.service_days(i64::MIN), (i64::MIN / 86400));
    s.metadata[0].timestamp = 1000;
    assert_eq!(s.service_days(1000 + 86399), 0);
    assert_eq!(s.service_days(1000 + 86400), 1);
}

#[test]
fn saturation_bar_fills_from_the_left() {
    assert_eq!(plato::slots::saturation_bar(3, 5), "███░░");
    assert_eq!(plato::slots::saturation_bar(0, 3), "░░░");
    assert_eq!(plato::slots::saturation_bar(9, 2), "██");
    assert_eq!(plato::slots::saturation_bar(1, 0), "");
}

#[test]
fn second_defragment_changes_nothing() {
    let mut s = PlatoStore::new();
    save(&mut s, 9, TYPE_ARTICLE, "a", "first");
    save(&mut s, 2, TYPE_LETTER, "b", "second");
    save(&mut s, 9, TYPE_ARTICLE, "a", "again");
    s.delete_card(2).unwrap();
    assert_eq!(s.defragment(), Ok(()));
    let (arena, jump, meta, fp) = (s.arena.clone(), s.jump_table.clone(), s.metadata.clone(), s.free_pointer);
    assert_eq!(s.defragment(), Ok(()));
    assert_eq!(s.arena, arena);
    assert_eq!(s.jump_table, jump);
    assert_eq!(s.metadata, meta);
    assert_eq!(s.free_pointer, fp);
}
