use flate2::read::GzDecoder;
use plato::cards::{DeleteError, SaveError, SaveRequest};
use plato::layout::{
    pack_coordinates, ARENA_SIZE, MAX_ITEMS, PROFILE_ADMIN, PROFILE_LAMBER, PROFILE_LAMIEL,
    TYPE_ARTICLE, TYPE_LETTER,
};
use plato::store::{MetadataRow, PlatoStore};
use std::io::Read;

fn request(id: u16, content_type: u8, author: u8, target: u8, title: &str, text: &str) -> SaveRequest {
    SaveRequest {
        id,
        content_type,
        author_id: author,
        target_id: target,
        title: title.to_string(),
        text: text.to_string(),
    }
}

fn gunzip(bytes: &[u8]) -> String {
    let mut d = GzDecoder::new(bytes);
    let mut s = String::new();
    d.read_to_string(&mut s).unwrap();
    s
}

#[test]
fn new_store_is_empty() {
    let s = PlatoStore::new();
    assert_eq!(s.arena.len(), ARENA_SIZE);
    assert_eq!(s.jump_table.len(), MAX_ITEMS);
    assert_eq!(s.metadata.len(), MAX_ITEMS);
    assert_eq!(s.free_pointer, 0);
    for id in 0..MAX_ITEMS as u32 {
        assert!(s.get_article_slice(id).is_none());
    }
    assert!(s.get_article_slice(5000).is_none());
}

#[test]
fn save_renders_compresses_and_arms_the_slot() {
    let mut s = PlatoStore::new();
    let r = s.save_card(&request(7, TYPE_ARTICLE, 1, 2, "Title", "Body"), 1700000000, "2024-01-01 00:00:00");
    assert_eq!(r, Ok(false));
    let bytes = s.get_article_slice(7).unwrap().to_vec();
    assert_eq!(s.free_pointer as usize, bytes.len());
    assert_eq!(s.jump_table[7], pack_coordinates(0, bytes.len() as u32));
    assert_eq!(
        gunzip(&bytes),
        "<div class=\"plato-article-card\"><h1 class=\"plato-title\">Title</h1><div class=\"plato-content\">Body</div><div class=\"plato-footer\"><a href=\"/esse/1\" class=\"plato-signature\">Наблюдатель</a>, <span class=\"plato-date\">2024-01-01 00:00:00</span></div></div>"
    );
    assert_eq!(
        s.metadata[7],
        MetadataRow { timestamp: 1700000000, content_type: TYPE_ARTICLE, author_id: 1, target_id: 2, padding: 0 }
    );
}

#[test]
fn admin_letter_is_marked_and_stales_the_journal() {
    let mut s = PlatoStore::new();
    let r = s.save_card(&request(10, TYPE_LETTER, PROFILE_ADMIN, 2, "Order", "Do it"), 5, "d");
    assert_eq!(r, Ok(true));
    let html = gunzip(s.get_article_slice(10).unwrap());
    assert!(html.starts_with("<div class=\"plato-letter-card plato-admin-letter\">"));
    let r = s.save_card(&request(11, TYPE_LETTER, PROFILE_LAMBER, PROFILE_LAMIEL, "Hi", "x"), 5, "d");
    assert_eq!(r, Ok(true));
    let html = gunzip(s.get_article_slice(11).unwrap());
    assert!(html.starts_with("<div class=\"plato-letter-card\">"));
    assert!(html.contains("<a href=\"/esse/3\" class=\"plato-signature\">Ламбер</a>"));
    let html_unknown = {
        s.save_card(&request(12, 9, 77, 0, "T", "x"), 5, "d").unwrap();
        gunzip(s.get_article_slice(12).unwrap())
    };
    assert!(html_unknown.starts_with("<div class=\"plato-article-card\">"));
    assert!(html_unknown.contains("/esse/77\" class=\"plato-signature\">Неизвестный автор</a>"));
}

#[test]
fn save_refuses_bad_slot_and_blank_title() {
    let mut s = PlatoStore::new();
    assert_eq!(s.save_card(&request(1024, 2, 1, 2, "T", "x"), 1, "d"), Err(SaveError::InvalidSlot));
    assert_eq!(s.save_card(&request(3, 2, 1, 2, " \t\u{3000}", "x"), 1, "d"), Err(SaveError::EmptyTitle));
    assert_eq!(s.save_card(&request(3, 2, 1, 2, "", "x"), 1, "d"), Err(SaveError::EmptyTitle));
    assert_eq!(s.free_pointer, 0);
    assert!(s.get_article_slice(3).is_none());
}

#[test]
fn save_refuses_when_the_arena_is_full() {
    let mut s = PlatoStore::new();
    s.free_pointer = (ARENA_SIZE - 10) as u32;
    assert_eq!(s.save_card(&request(3, 2, 1, 2, "T", "x"), 1, "d"), Err(SaveError::ArenaFull));
    assert_eq!(s.free_pointer, (ARENA_SIZE - 10) as u32);
    assert_eq!(s.jump_table[3], 0);
    assert_eq!(s.metadata[3], MetadataRow::empty());
}

#[test]
fn save_overwrites_a_slot_and_keeps_others() {
    let mut s = PlatoStore::new();
    s.save_card(&request(1, 2, 1, 2, "A", "first"), 1, "d").unwrap();
    s.save_card(&request(2, 2, 1, 2, "B", "second"), 1, "d").unwrap();
    let before = s.get_article_slice(2).unwrap().to_vec();
    s.save_card(&request(1, 2, 1, 2, "A2", "again"), 1, "d").unwrap();
    assert!(gunzip(s.get_article_slice(1).unwrap()).contains("again"));
    assert_eq!(s.get_article_slice(2).unwrap(), &before[..]);
}

#[test]
fn delete_clears_slot_and_reports_letters() {
    let mut s = PlatoStore::new();
    s.save_card(&request(4, TYPE_LETTER, 3, 4, "L", "x"), 1, "d").unwrap();
    s.save_card(&request(5, TYPE_ARTICLE, 1, 2, "A", "x"), 1, "d").unwrap();
    let fp = s.free_pointer;
    assert_eq!(s.delete_card(4), Ok(true));
    assert_eq!(s.delete_card(5), Ok(false));
    assert_eq!(s.delete_card(5), Ok(false));
    assert_eq!(s.delete_card(1024), Err(DeleteError::InvalidSlot));
    assert!(s.get_article_slice(4).is_none());
    assert!(s.get_article_slice(5).is_none());
    assert_eq!(s.metadata[4], MetadataRow::empty());
    assert_eq!(s.free_pointer, fp);
}

#[test]
fn get_article_refuses_coordinates_past_the_arena() {
    let mut s = PlatoStore::new();
    s.jump_table[9] = pack_coordinates(ARENA_SIZE as u32 - 2, 3);
    assert!(s.get_article_slice(9).is_none());
    s.jump_table[9] = pack_coordinates(ARENA_SIZE as u32 - 3, 3);
    assert_eq!(s.get_article_slice(9).unwrap().len(), 3);
    s.jump_table[9] = pack_coordinates(5, 0);
    assert_eq!(s.get_article_slice(9).unwrap().len(), 0);
}
