use plato::cards::SaveRequest;
use plato::context::ContextError;
use plato::journal::JournalError;
use plato::layout::{
    ARENA_SIZE, PROFILE_ADMIN, PROFILE_LAMBER, PROFILE_LAMIEL, PROFILE_SYSTEM, PROFILE_WORLD,
    SLOT_CORRESPONDENCE, TYPE_CORRESPONDENCE, TYPE_LETTER, TYPE_PROFILE,
};
use plato::store::{MetadataRow, PlatoStore};

fn save(s: &mut PlatoStore, id: u16, ct: u8, author: u8, target: u8, title: &str, text: &str, ts: u32) {
    let req = SaveRequest {
        id,
        content_type: ct,
        author_id: author,
        target_id: target,
        title: title.to_string(),
        text: text.to_string(),
    };
    s.save_card(&req, ts, "saved").unwrap();
}

fn local(ts: u32) -> String {
    chrono::DateTime::from_timestamp(ts as i64, 0)
        .unwrap()
        .with_timezone(&chrono::Local)
        .format("%Y-%m-%d %H:%M:%S")
        .to_string()
}

#[test]
fn journal_lists_letters_in_slot_order() {
    let mut s = PlatoStore::new();
    save(&mut s, 20, TYPE_LETTER, PROFILE_LAMBER, PROFILE_LAMIEL, " Hello ", "  Dear friend.  ", 1000);
    save(&mut s, 5, TYPE_LETTER, PROFILE_ADMIN, PROFILE_WORLD, "Rule", "Obey", 2000);
    save(&mut s, 6, 2, PROFILE_ADMIN, PROFILE_WORLD, "Article", "Not a letter", 3000);
    let html = s.correspondence_journal_html("now");
    let expected = format!(
        "<div class=\"plato-article-card\"><h1 class=\"plato-title\">Диалоги</h1><div class=\"plato-content\">\
<div class=\"correspondence-row\"><span class=\"plato-journal-meta\">{} | Наблюдатель ➔ Мир</span><h3 class=\"plato-journal-title\"><a href=\"/esse/5\" class=\"plato-signature admin-directive\">[ИНСТРУКЦИЯ]: Rule</a></h3><p class=\"plato-journal-preview\">Obey...</p></div>\
<div class=\"correspondence-row\"><span class=\"plato-journal-meta\">{} | Ламбер ➔ Ламьель</span><h3 class=\"plato-journal-title\"><a href=\"/esse/20\" class=\"plato-signature\">Hello</a></h3><p class=\"plato-journal-preview\">Dear friend....</p></div>\
</div></div>",
        local(2000),
        local(1000)
    );
    assert_eq!(html, expected);
}

#[test]
fn journal_preview_is_cut_at_220_characters() {
    let mut s = PlatoStore::new();
    let long: String = "я".repeat(300);
    save(&mut s, 1, TYPE_LETTER, 3, 4, "T", &long, 1);
    let html = s.correspondence_journal_html("now");
    let preview = format!("<p class=\"plato-journal-preview\">{}...</p>", "я".repeat(220));
    assert!(html.contains(&preview));
}

#[test]
fn empty_journal_and_its_installation() {
    let mut s = PlatoStore::new();
    let html = s.correspondence_journal_html("now");
    assert_eq!(
        html,
        "<div class=\"plato-article-card\"><h1 class=\"plato-title\">Диалоги</h1><div class=\"plato-content\"></div></div>"
    );
    let full = format!("{}<div class=\"plato-journal-footer\">x</div>", html);
    assert_eq!(s.install_correspondence_journal(&full, 77), Ok(()));
    assert_eq!(
        s.metadata[SLOT_CORRESPONDENCE],
        MetadataRow { timestamp: 77, content_type: TYPE_CORRESPONDENCE, author_id: PROFILE_SYSTEM, target_id: PROFILE_WORLD, padding: 0 }
    );
    let card = s.get_article_slice(SLOT_CORRESPONDENCE as u32).unwrap();
    let mut d = flate2::read::GzDecoder::new(card);
    let mut text = String::new();
    std::io::Read::read_to_string(&mut d, &mut text).unwrap();
    assert_eq!(text, full);
    s.free_pointer = ARENA_SIZE as u32;
    assert_eq!(s.install_correspondence_journal(&full, 78), Err(JournalError::ArenaFull));
}

#[test]
fn journal_skips_its_own_slot_and_undecodable_cards() {
    let mut s = PlatoStore::new();
    save(&mut s, 1023, TYPE_LETTER, 3, 4, "Self", "x", 1);
    s.jump_table[8] = plato::layout::pack_coordinates(0, 4);
    s.metadata[8].content_type = TYPE_LETTER;
    let html = s.correspondence_journal_html("now");
    assert!(!html.contains("correspondence-row"));
}

#[test]
fn context_rejects_non_agents_and_reports_void() {
    let s = PlatoStore::new();
    assert_eq!(s.ai_context(1), Err(ContextError::InvalidAgent));
    assert_eq!(s.ai_context(0), Err(ContextError::InvalidAgent));
    assert_eq!(
        s.ai_context(PROFILE_LAMBER).unwrap(),
        "[SYSTEM STATUS]: Matrix void. No operational data found.\n"
    );
}

#[test]
fn context_orders_profiles_then_letters() {
    let mut s = PlatoStore::new();
    save(&mut s, 50, TYPE_LETTER, PROFILE_LAMIEL, PROFILE_LAMBER, "t", " reply ", 1);
    save(&mut s, 4, TYPE_PROFILE, PROFILE_SYSTEM, PROFILE_WORLD, "p", "Lamiel bio", 1);
    save(&mut s, 3, TYPE_PROFILE, PROFILE_SYSTEM, PROFILE_WORLD, "p", "Lamber bio", 1);
    save(&mut s, 10, TYPE_LETTER, PROFILE_ADMIN, PROFILE_WORLD, "t", "Be kind", 1);
    save(&mut s, 11, TYPE_LETTER, PROFILE_LAMBER, PROFILE_LAMIEL, "t", "own letter", 1);
    save(&mut s, 12, TYPE_LETTER, PROFILE_ADMIN, PROFILE_LAMIEL, "t", "other agent", 1);
    let rule = "------------------------------------------------\n\n";
    let expected = format!(
        "[HERO PROFILE | Lamber]\nLamber bio\n{rule}\
[HERO PROFILE | Lamiel]\nLamiel bio\n{rule}\
[ADMIN DIRECTIVE | SLOT 10]\nFrom: ADMIN (Observer)\nTo: ALL (World)\nContent:\nBe kind\n{rule}\
[LETTER | SLOT 50]\nFrom: Lamiel\nTo: Lamber\nContent:\nreply\n{rule}"
    );
    assert_eq!(s.ai_context(PROFILE_LAMBER).unwrap(), expected);
}

#[test]
fn context_keeps_the_ten_newest_letters() {
    let mut s = PlatoStore::new();
    for id in 100..115u16 {
        save(&mut s, id, TYPE_LETTER, PROFILE_LAMBER, PROFILE_LAMIEL, "t", &format!("m{}", id), 1);
    }
    let text = s.ai_context(PROFILE_LAMIEL).unwrap();
    assert_eq!(text.matches("[LETTER | SLOT").count(), 10);
    assert!(!text.contains("SLOT 104]"));
    assert!(text.starts_with("[LETTER | SLOT 105]\nFrom: Lamber\nTo: Lamiel\nContent:\nm105\n"));
}

#[test]
fn journal_rows_take_the_given_dates() {
    let mut s = PlatoStore::new();
    save(&mut s, 7, TYPE_LETTER, PROFILE_LAMBER, PROFILE_LAMIEL, "T", "body", 1000);
    let mut dates: Vec<String> = (0..1024).map(|_| String::new()).collect();
    dates[7] = "2000-01-02 03:04:05".to_string();
    let html = s.render_correspondence_journal(&dates);
    assert!(html.contains("<span class=\"plato-journal-meta\">2000-01-02 03:04:05 | Ламбер ➔ Ламьель</span>"));
    let dated = s.correspondence_journal_html("regen");
    assert!(!dated.contains("regen"));
    assert!(dated.contains(&format!("<span class=\"plato-journal-meta\">{} | ", local(1000))));
}
