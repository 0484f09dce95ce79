//! The correspondence journal: a card, kept in its reserved slot, that
//! lists every stored letter with its date, its sender and addressee, its
//! title and the opening of its text.

use crate::cards::{author_name, author_name_str};
use crate::codec::{
    gunzip_text, gunzip_to_chars, gzip_best, gzip_compress, is_datetime_text, local_date_string,
    string_from_chars,
};
use crate::layout::{
    MAX_ITEMS, PROFILE_ADMIN, PROFILE_SYSTEM, PROFILE_WORLD, SLOT_CORRESPONDENCE,
    TYPE_CORRESPONDENCE, TYPE_LETTER,
};
use crate::layout::lemma_pack_zero;
use crate::store::{
    lemma_with_card_reads_back, lemma_with_card_reads_slot, MetadataRow, PlatoStore, StoreModel,
};
use crate::text::{
    content_block, content_block_exec, decimal, find, find_after, find_after_exec, needle,
    push_decimal, push_range, push_str, trim, trim_bounds,
};
use vstd::prelude::*;

verus! {

/// Characters of a letter's text shown in its journal preview.
pub const PREVIEW_CHARS: usize = 220;

/// Why the journal could not be installed.
#[derive(Clone, Copy, Debug, PartialEq, Eq, Structural)]
pub enum JournalError {
    /// The gzip encoder failed.
    CompressionFailed,
    /// The compressed journal does not fit on the arena.
    ArenaFull,
}

/// The bounds of a card's title: after the `>` that closes the first `<h1`
/// tag, up to the first `</h1>`. `None` where either is missing or the title
/// would close before it opens.
pub open spec fn title_bounds(html: Seq<char>) -> Option<(int, int)> {
    match find(html, "<h1"@) {
        None => None,
        Some(i) => match find_after(html, ">"@, i) {
            None => None,
            Some(g) => match find(html, "</h1>"@) {
                None => None,
                Some(e) => if g + 1 <= e {
                    Some((g + 1, e))
                } else {
                    None
                },
            },
        },
    }
}

/// The first `PREVIEW_CHARS` characters of `s`, or all of it.
pub open spec fn preview_of(s: Seq<char>) -> Seq<char> {
    if s.len() > PREVIEW_CHARS {
        s.subrange(0, PREVIEW_CHARS as int)
    } else {
        s
    }
}

/// The title and the preview of a letter's HTML: the trimmed title, and the
/// trimmed opening of the trimmed content block.
pub open spec fn letter_summary(html: Seq<char>) -> Option<(Seq<char>, Seq<char>)> {
    match (title_bounds(html), content_block(html)) {
        (Some((ts, te)), Some((cs, ce))) => Some(
            (trim(html.subrange(ts, te)), trim(preview_of(trim(html.subrange(cs, ce))))),
        ),
        _ => None,
    }
}

/// The title and the preview of a letter's HTML, given as characters.
pub fn summarize_letter(html: &Vec<char>) -> (r: Option<(Vec<char>, Vec<char>)>)
    ensures
        r is None <==> letter_summary(html@) is None,
        r matches Some(p) ==> letter_summary(html@) == Some((p.0@, p.1@)),
{
    proof {
        reveal_strlit("<h1");
        reveal_strlit(">");
        reveal_strlit("</h1>");
    }
    let hl = html.len();
    assert(html@.subrange(0, hl as int) =~= html@);
    let open_tag = needle("<h1");
    let gt = needle(">");
    let close_tag = needle("</h1>");
    let i = match find_after_exec(html, &open_tag, 0) {
        Some(i) => i,
        None => return None,
    };
    let g = match find_after_exec(html, &gt, i) {
        Some(g) => g,
        None => return None,
    };
    let e = match find_after_exec(html, &close_tag, 0) {
        Some(e) => e,
        None => return None,
    };
    if g + 1 > e {
        return None;
    }
    let (cs, ce) = match content_block_exec(html) {
        Some(b) => b,
        None => return None,
    };
    let (ta, tb) = trim_bounds(html, g + 1, e);
    let (fa, fb) = trim_bounds(html, cs, ce);
    let pe: usize = if fb - fa > PREVIEW_CHARS {
        fa + PREVIEW_CHARS
    } else {
        fb
    };
    assert(html@.subrange(fa as int, pe as int) =~= preview_of(html@.subrange(fa as int, fb as int)));
    let (pa, pb) = trim_bounds(html, fa, pe);
    let mut title: Vec<char> = Vec::new();
    push_range(&mut title, html, ta, tb);
    let mut preview: Vec<char> = Vec::new();
    push_range(&mut preview, html, pa, pb);
    assert(title@ =~= html@.subrange(ta as int, tb as int));
    assert(preview@ =~= html@.subrange(pa as int, pb as int));
    Some((title, preview))
}

/// The style class of a journal link: the administrator's are marked.
pub open spec fn row_style(author_id: u8) -> Seq<char> {
    if author_id == PROFILE_ADMIN {
        "plato-signature admin-directive"@
    } else {
        "plato-signature"@
    }
}

/// The prefix of a journal title: the administrator's are instructions.
pub open spec fn row_prefix(author_id: u8) -> Seq<char> {
    if author_id == PROFILE_ADMIN {
        "[ИНСТРУКЦИЯ]: "@
    } else {
        Seq::empty()
    }
}

/// One row of the journal.
pub open spec fn journal_row(
    date: Seq<char>,
    row: MetadataRow,
    id: nat,
    title: Seq<char>,
    preview: Seq<char>,
) -> Seq<char> {
    "<div class=\"correspondence-row\"><span class=\"plato-journal-meta\">"@ + date + " | "@
        + author_name(row.author_id) + " ➔ "@ + author_name(row.target_id)
        + "</span><h3 class=\"plato-journal-title\"><a href=\"/esse/"@ + decimal(id) + "\" class=\""@
        + row_style(row.author_id) + "\">"@ + row_prefix(row.author_id) + title
        + "</a></h3><p class=\"plato-journal-preview\">"@ + preview + "...</p></div>"@
}

/// Renders one row of the journal.
pub fn render_journal_row(
    out: &mut Vec<char>,
    date: &str,
    row: MetadataRow,
    id: u64,
    title: &Vec<char>,
    preview: &Vec<char>,
)
    ensures
        final(out)@ == old(out)@ + journal_row(date@, row, id as nat, title@, preview@),
{
    let ghost start = out@;
    push_str(out, "<div class=\"correspondence-row\"><span class=\"plato-journal-meta\">");
    push_str(out, date);
    push_str(out, " | ");
    push_str(out, author_name_str(row.author_id));
    push_str(out, " ➔ ");
    push_str(out, author_name_str(row.target_id));
    push_str(out, "</span><h3 class=\"plato-journal-title\"><a href=\"/esse/");
    push_decimal(out, id);
    push_str(out, "\" class=\"");
    if row.author_id == PROFILE_ADMIN {
        push_str(out, "plato-signature admin-directive");
    } else {
        push_str(out, "plato-signature");
    }
    push_str(out, "\">");
    if row.author_id == PROFILE_ADMIN {
        push_str(out, "[ИНСТРУКЦИЯ]: ");
    }
    push_range(out, title, 0, title.len());
    push_str(out, "</a></h3><p class=\"plato-journal-preview\">");
    push_range(out, preview, 0, preview.len());
    push_str(out, "...</p></div>");
    assert(title@.subrange(0, title@.len() as int) =~= title@);
    assert(preview@.subrange(0, preview@.len() as int) =~= preview@);
    assert(out@ =~= start + journal_row(date@, row, id as nat, title@, preview@));
}

/// The decompressed HTML of the letter in slot `id`, where the slot is one
/// the journal lists: not the journal's own slot, marked a letter, armed,
/// with a card that decompresses to text.
pub open spec fn journal_letter(m: StoreModel, id: int) -> Option<Seq<char>> {
    if id != SLOT_CORRESPONDENCE && m.metadata[id].content_type == TYPE_LETTER
        && m.jump_table[id] != 0 {
        match m.article(id) {
            Some(bytes) => gunzip_text(bytes),
            None => None,
        }
    } else {
        None
    }
}

/// The rows of the journal for the first `n` slots, with the date of each
/// row's letter taken from `dates`.
pub open spec fn journal_rows(m: StoreModel, dates: Seq<Seq<char>>, n: int) -> Seq<char>
    decreases n,
{
    if n <= 0 {
        Seq::empty()
    } else {
        let prev = journal_rows(m, dates, n - 1);
        match journal_letter(m, n - 1) {
            Some(html) => match letter_summary(html) {
                Some((title, preview)) => prev + journal_row(
                    dates[n - 1],
                    m.metadata[n - 1],
                    (n - 1) as nat,
                    title,
                    preview,
                ),
                None => prev,
            },
            None => prev,
        }
    }
}

/// The opening of the journal card.
pub open spec fn journal_head() -> Seq<char> {
    "<div class=\"plato-article-card\"><h1 class=\"plato-title\">Диалоги</h1><div class=\"plato-content\">"@
}

/// The journal's HTML before its footer, with each letter dated from
/// `dates`.
pub open spec fn journal_html(m: StoreModel, dates: Seq<Seq<char>>) -> Seq<char> {
    journal_head() + journal_rows(m, dates, MAX_ITEMS as int) + "</div></div>"@
}

/// The journal's HTML with no row: its opening and its closing tags.
pub open spec fn empty_journal() -> Seq<char> {
    "<div class=\"plato-article-card\"><h1 class=\"plato-title\">Диалоги</h1><div class=\"plato-content\"></div></div>"@
}

/// Whether `m` holds no letter the journal could list: no armed slot but
/// the journal's own is marked a letter.
pub open spec fn holds_no_letter(m: StoreModel) -> bool {
    forall|k: int|
        0 <= k < MAX_ITEMS && k != SLOT_CORRESPONDENCE && #[trigger] m.jump_table[k] != 0
            ==> m.metadata[k].content_type != TYPE_LETTER
}

/// The journal reads a slot only where it is an armed slot, other than the
/// journal's own, whose metadata marks it a letter.
pub proof fn lemma_journal_reads_only_letters(m: StoreModel, id: int)
    requires
        m.wf(),
        0 <= id < MAX_ITEMS,
    ensures
        journal_letter(m, id) is Some ==> {
            &&& id != SLOT_CORRESPONDENCE
            &&& m.jump_table[id] != 0
            &&& m.metadata[id].content_type == TYPE_LETTER
        },
{
}

proof fn lemma_journal_rows_empty(m: StoreModel, dates: Seq<Seq<char>>, n: int)
    requires
        m.wf(),
        holds_no_letter(m),
        n <= MAX_ITEMS,
    ensures
        journal_rows(m, dates, n) == Seq::<char>::empty(),
    decreases n,
{
    if n > 0 {
        lemma_journal_rows_empty(m, dates, n - 1);
        if n - 1 != SLOT_CORRESPONDENCE && m.jump_table[n - 1] != 0 {
            assert(m.metadata[n - 1].content_type != TYPE_LETTER);
        }
    }
}

/// A store that holds no letter renders the journal with no row, whatever
/// the dates.
pub proof fn lemma_journal_without_letters(m: StoreModel, dates: Seq<Seq<char>>)
    requires
        m.wf(),
        holds_no_letter(m),
    ensures
        journal_html(m, dates) == empty_journal(),
{
    lemma_journal_rows_empty(m, dates, MAX_ITEMS as int);
    reveal_strlit("<div class=\"plato-article-card\"><h1 class=\"plato-title\">Диалоги</h1><div class=\"plato-content\">");
    reveal_strlit("</div></div>");
    reveal_strlit("<div class=\"plato-article-card\"><h1 class=\"plato-title\">Диалоги</h1><div class=\"plato-content\"></div></div>");
    assert(journal_html(m, dates) =~= empty_journal());
}

proof fn lemma_journal_rows_ignore_slot(m: StoreModel, k: int, dates: Seq<Seq<char>>, n: int)
    requires
        m.wf(),
        0 <= k < MAX_ITEMS,
        m.metadata[k].content_type != TYPE_LETTER,
        n <= MAX_ITEMS,
    ensures
        journal_rows(m.without_card(k), dates, n) == journal_rows(m, dates, n),
    decreases n,
{
    if n > 0 {
        lemma_journal_rows_ignore_slot(m, k, dates, n - 1);
        let m2 = m.without_card(k);
        assert(journal_letter(m2, n - 1) == journal_letter(m, n - 1));
    }
}

/// Emptying a slot that is not marked a letter leaves the journal as it
/// was: no row comes from anything but a letter.
pub proof fn lemma_journal_ignores_non_letters(m: StoreModel, k: int, dates: Seq<Seq<char>>)
    requires
        m.wf(),
        0 <= k < MAX_ITEMS,
        m.metadata[k].content_type != TYPE_LETTER,
    ensures
        journal_html(m.without_card(k), dates) == journal_html(m, dates),
{
    lemma_journal_rows_ignore_slot(m, k, dates, MAX_ITEMS as int);
}

/// The date shown for a letter: its local rendering where the timestamp
/// could be rendered, else `fallback`.
fn letter_date(local: Option<String>, fallback: &str) -> (d: String)
    ensures
        d@ == (match local {
            Some(s) => s@,
            None => fallback@,
        }),
{
    match local {
        Some(d) => d,
        None => String::from_str(fallback),
    }
}

/// The characters of each of `dates`.
pub open spec fn date_views(dates: Seq<String>) -> Seq<Seq<char>> {
    Seq::new(dates.len(), |i: int| dates[i]@)
}

/// Whether the journal dates slot `id`: it is not the journal's own slot,
/// is armed and is marked a letter.
pub open spec fn dated_slot(m: StoreModel, id: int) -> bool {
    id != SLOT_CORRESPONDENCE && m.metadata[id].content_type == TYPE_LETTER && m.jump_table[id]
        != 0
}

impl PlatoStore {
    /// Renders the journal's HTML before its footer, dating the letter of
    /// each slot with the date given for that slot: one row per letter
    /// whose card decompresses and has a title and a content block, in slot
    /// order.
    pub fn render_correspondence_journal(&self, dates: &Vec<String>) -> (html: String)
        requires
            self@.wf(),
            dates@.len() == MAX_ITEMS,
        ensures
            html@ == journal_html(self@, date_views(dates@)),
            holds_no_letter(self@) ==> html@ == empty_journal(),
    {
        let ghost all = date_views(dates@);
        let mut out: Vec<char> = Vec::new();
        push_str(
            &mut out,
            "<div class=\"plato-article-card\"><h1 class=\"plato-title\">Диалоги</h1><div class=\"plato-content\">",
        );
        let mut id: usize = 0;
        while id < MAX_ITEMS
            invariant
                self@.wf(),
                id <= MAX_ITEMS,
                dates@.len() == MAX_ITEMS,
                all == date_views(dates@),
                out@ == journal_head() + journal_rows(self@, all, id as int),
            decreases MAX_ITEMS - id,
        {
            let row = self.metadata[id];
            if id != SLOT_CORRESPONDENCE && row.content_type == TYPE_LETTER && self.jump_table[id] != 0 {
                if let Some(card) = self.get_article_slice(id as u32) {
                    if let Some(html) = gunzip_to_chars(card) {
                        if let Some((title, preview)) = summarize_letter(&html) {
                            let date = &dates[id];
                            assert(date@ == all[id as int]);
                            render_journal_row(&mut out, date.as_str(), row, id as u64, &title, &preview);
                        }
                    }
                }
            }
            id = id + 1;
        }
        push_str(&mut out, "</div></div>");
        assert(out@ =~= journal_html(self@, all));
        proof {
            if holds_no_letter(self@) {
                lemma_journal_without_letters(self@, all);
            }
        }
        string_from_chars(&out)
    }

    /// Renders the journal's HTML before its footer: one row per letter
    /// whose card decompresses and has a title and a content block, in slot
    /// order, each dated with its timestamp rendered in local time as
    /// `YYYY-MM-DD HH:MM:SS`. Which local time that is depends on the
    /// machine's time zone and is not stated.
    pub fn correspondence_journal_html(&self, regen_date: &str) -> (html: String)
        requires
            self@.wf(),
        ensures
            exists|dates: Seq<Seq<char>>|
                {
                    &&& dates.len() == MAX_ITEMS
                    &&& html@ == journal_html(self@, dates)
                    &&& forall|i: int|
                        0 <= i < MAX_ITEMS && dated_slot(self@, i) ==> is_datetime_text(
                            #[trigger] dates[i],
                        )
                },
            holds_no_letter(self@) ==> html@ == empty_journal(),
    {
        let mut dates: Vec<String> = Vec::new();
        let mut id: usize = 0;
        while id < MAX_ITEMS
            invariant
                self@.wf(),
                id <= MAX_ITEMS,
                dates@.len() == id,
                forall|i: int|
                    0 <= i < id && dated_slot(self@, i) ==> is_datetime_text(#[trigger] dates@[i]@),
            decreases MAX_ITEMS - id,
        {
            let row = self.metadata[id];
            if id != SLOT_CORRESPONDENCE && row.content_type == TYPE_LETTER && self.jump_table[id] != 0 {
                dates.push(letter_date(local_date_string(row.timestamp), regen_date));
            } else {
                dates.push(String::new());
            }
            id = id + 1;
        }
        let html = self.render_correspondence_journal(&dates);
        let ghost d = date_views(dates@);
        assert(forall|i: int|
            0 <= i < MAX_ITEMS && dated_slot(self@, i) ==> is_datetime_text(#[trigger] d[i]));
        assert(d.len() == MAX_ITEMS && html@ == journal_html(self@, d));
        html
    }

    /// Installs a rendered journal: compresses `html`, appends it to the
    /// arena and points the journal's slot at it, with metadata stamped
    /// `timestamp` from the system to the world.
    pub fn install_correspondence_journal(&mut self, html: &str, timestamp: u32) -> (r: Result<
        (),
        JournalError,
    >)
        requires
            old(self)@.wf(),
        ensures
            final(self)@.wf(),
            r is Err ==> final(self)@ == old(self)@,
            r is Ok <==> old(self)@.fits(gzip_best(html@).len()),
            !old(self)@.fits(gzip_best(html@).len()) ==> r == Err::<(), JournalError>(
                JournalError::ArenaFull,
            ),
            r is Ok ==> final(self)@ == old(self)@.with_card(
                SLOT_CORRESPONDENCE as int,
                gzip_best(html@),
                journal_meta(timestamp),
            ),
            r is Ok ==> gunzip_text(gzip_best(html@)) == Some(html@),
            r is Ok ==> final(self)@.article(SLOT_CORRESPONDENCE as int) == Some(gzip_best(html@)),
    {
        let compressed = gzip_compress(html);
        let ghost bytes = compressed.unwrap()@;
        let r = self.install_compressed_journal(compressed, timestamp);
        proof {
            if r is Ok {
                lemma_with_card_reads_slot(
                    old(self)@,
                    SLOT_CORRESPONDENCE as int,
                    bytes,
                    journal_meta(timestamp),
                );
            }
        }
        r
    }

    /// Installs the outcome of compressing a journal: refuses with
    /// `CompressionFailed` when the encoder gave nothing, with `ArenaFull`
    /// when the bytes do not fit, and otherwise appends them and points the
    /// journal's slot at them.
    pub fn install_compressed_journal(&mut self, compressed: Option<Vec<u8>>, timestamp: u32) -> (r:
        Result<(), JournalError>)
        requires
            old(self)@.wf(),
        ensures
            final(self)@.wf(),
            compressed is None ==> r == Err::<(), JournalError>(JournalError::CompressionFailed),
            compressed matches Some(b) ==> (r is Ok <==> old(self)@.fits(b@.len())),
            compressed matches Some(b) && !old(self)@.fits(b@.len()) ==> r == Err::<(), JournalError>(
                JournalError::ArenaFull,
            ),
            r is Err ==> final(self)@ == old(self)@,
            r is Ok ==> final(self)@ == old(self)@.with_card(
                SLOT_CORRESPONDENCE as int,
                compressed.unwrap()@,
                journal_meta(timestamp),
            ),
    {
        let bytes = match compressed {
            Some(c) => c,
            None => return Err(JournalError::CompressionFailed),
        };
        let row = MetadataRow {
            timestamp,
            content_type: TYPE_CORRESPONDENCE,
            author_id: PROFILE_SYSTEM,
            target_id: PROFILE_WORLD,
            padding: 0,
        };
        if !self.commit_card(SLOT_CORRESPONDENCE, &bytes, row) {
            return Err(JournalError::ArenaFull);
        }
        Ok(())
    }
}

/// The metadata row of the journal's slot.
pub open spec fn journal_meta(timestamp: u32) -> MetadataRow {
    MetadataRow {
        timestamp,
        content_type: TYPE_CORRESPONDENCE,
        author_id: PROFILE_SYSTEM,
        target_id: PROFILE_WORLD,
        padding: 0,
    }
}

/// A letter appended to a store whose cards lie below its free pointer, in
/// any slot but the journal's, is read by the journal as its decompressed
/// HTML.
pub proof fn lemma_saved_letter_in_journal(
    m: StoreModel,
    id: int,
    bytes: Seq<u8>,
    row: MetadataRow,
    html: Seq<char>,
)
    requires
        m.wf(),
        m.cards_below_free(),
        0 <= id < MAX_ITEMS,
        id != SLOT_CORRESPONDENCE,
        m.fits(bytes.len()),
        bytes.len() > 0,
        gunzip_text(bytes) == Some(html),
        row.content_type == TYPE_LETTER,
    ensures
        journal_letter(m.with_card(id, bytes, row), id) == Some(html),
{
    lemma_with_card_reads_back(m, id, bytes, row);
    lemma_pack_zero(m.free_pointer, bytes.len() as u32);
}

} // verus!
