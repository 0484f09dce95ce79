use plato::cards::{render_card, SaveError, SaveRequest};
use plato::image::restore_free_pointer;
use plato::journal::{render_journal_row, summarize_letter, JournalError};
use plato::layout::{pack_coordinates, MAX_ITEMS, PROFILE_ADMIN, SLOT_CORRESPONDENCE, TYPE_LETTER};
use plato::layout::unpack_coordinates;
use plato::store::{MetadataRow, PlatoStore};
use plato::text::{chars_of, find_after_exec, needle, push_decimal};

fn string(v: &[char]) -> String {
    v.iter().collect()
}

#[test]
fn decimal_rendering() {
    let mut out = Vec::new();
    push_decimal(&mut out, 0);
    push_decimal(&mut out, 7);
    out.push(' ');
    push_decimal(&mut out, 1023);
    out.push(' ');
    push_decimal(&mut out, u64::MAX);
    assert_eq!(string(&out), "07 1023 18446744073709551615");
}

#[test]
fn find_after_reports_first_match_at_or_after() {
    let hay = chars_of("ab>cd>ef");
    let gt = needle(">");
    assert_eq!(find_after_exec(&hay, &gt, 0), Some(2));
    assert_eq!(find_after_exec(&hay, &gt, 3), Some(5));
    assert_eq!(find_after_exec(&hay, &gt, 6), None);
    assert_eq!(find_after_exec(&hay, &gt, hay.len()), None);
}

#[test]
fn card_rendering_is_exact() {
    let html = render_card(TYPE_LETTER, PROFILE_ADMIN, "T", "B", "D");
    assert_eq!(
        string(&html),
        "<div class=\"plato-letter-card plato-admin-letter\"><h1 class=\"plato-title\">T</h1><div class=\"plato-content\">B</div><div class=\"plato-footer\"><a href=\"/esse/1\" class=\"plato-signature\">Наблюдатель</a>, <span class=\"plato-date\">D</span></div></div>"
    );
}

#[test]
fn letter_summary_of_a_card() {
    let card = render_card(TYPE_LETTER, 3, "  My title ", " First words of the letter ", "D");
    let (title, preview) = summarize_letter(&card).unwrap();
    assert_eq!(string(&title), "My title");
    assert_eq!(string(&preview), "First words of the letter");
    assert!(summarize_letter(&chars_of("<h1>x</h1> no content")).is_none());
    assert!(summarize_letter(&chars_of("</h1><h1>x class=\"plato-content\">y</div>")).is_none());
}

#[test]
fn journal_row_rendering() {
    let mut out = Vec::new();
    let row = MetadataRow { timestamp: 0, content_type: TYPE_LETTER, author_id: 3, target_id: 4, padding: 0 };
    render_journal_row(&mut out, "D", row, 42, &chars_of("T"), &chars_of("P"));
    assert_eq!(
        string(&out),
        "<div class=\"correspondence-row\"><span class=\"plato-journal-meta\">D | Ламбер ➔ Ламьель</span><h3 class=\"plato-journal-title\"><a href=\"/esse/42\" class=\"plato-signature\">T</a></h3><p class=\"plato-journal-preview\">P...</p></div>"
    );
}

#[test]
fn compressed_card_outcomes() {
    let mut s = PlatoStore::new();
    let req = SaveRequest { id: 9, content_type: TYPE_LETTER, author_id: 3, target_id: 4, title: "t".into(), text: "x".into() };
    assert_eq!(s.commit_compressed_card(&req, 5, None), Err(SaveError::CompressionFailed));
    assert_eq!(s.free_pointer, 0);
    assert_eq!(s.commit_compressed_card(&req, 5, Some(vec![1, 2, 3])), Ok(true));
    assert_eq!(s.get_article_slice(9).unwrap(), &[1, 2, 3]);
    assert_eq!(s.free_pointer, 3);
    s.free_pointer = plato::layout::ARENA_SIZE as u32 - 2;
    assert_eq!(s.commit_compressed_card(&req, 5, Some(vec![1, 2, 3])), Err(SaveError::ArenaFull));
    assert_eq!(s.install_compressed_journal(Some(vec![4, 5, 6]), 1), Err(JournalError::ArenaFull));
    assert_eq!(s.install_compressed_journal(None, 1), Err(JournalError::CompressionFailed));
    s.free_pointer = 3;
    assert_eq!(s.install_compressed_journal(Some(vec![4, 5]), 1), Ok(()));
    assert_eq!(s.get_article_slice(SLOT_CORRESPONDENCE as u32).unwrap(), &[4, 5]);
    assert_eq!(s.jump_table[SLOT_CORRESPONDENCE], pack_coordinates(3, 2));
}

#[test]
fn cards_stay_below_the_free_pointer() {
    let mut s = PlatoStore::new();
    for i in 0..20u16 {
        let req = SaveRequest { id: i * 37 % 1024, content_type: 2, author_id: 1, target_id: 2, title: format!("t{}", i), text: "y".repeat(i as usize * 10) };
        s.save_card(&req, 1, "d").unwrap();
        if i % 3 == 0 {
            s.delete_card((i * 11 % 1024) as u32).unwrap();
        }
    }
    for id in 0..MAX_ITEMS {
        if s.jump_table[id] != 0 {
            let (o, l) = unpack_coordinates(s.jump_table[id]);
            assert!(o as u64 + l as u64 <= s.free_pointer as u64);
        }
    }
    assert_eq!(restore_free_pointer(&s.jump_table) <= s.free_pointer, true);
}

#[test]
fn extracting_a_rendered_card_gives_its_trimmed_text() {
    let html: String = render_card(TYPE_LETTER, PROFILE_ADMIN, "class=\"plato-title\" <h1>", "  body <div>x</p>  ", "D")
        .iter()
        .collect();
    assert_eq!(plato::text::extract_plato_content_payload(&html), Some("body <div>x</p>"));
}
