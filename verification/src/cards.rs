//! Saving and deleting cards: validating a request, rendering the card's
//! HTML, compressing it and committing it to a slot.

use crate::codec::{gunzip_text, gzip_best, gzip_compress, string_from_chars};
use crate::layout::{
    MAX_ITEMS, PROFILE_ADMIN, PROFILE_LAMBER, PROFILE_LAMIEL, PROFILE_SYSTEM, PROFILE_WORLD,
    TYPE_CORRESPONDENCE, TYPE_LETTER, TYPE_PROFILE,
};
use crate::store::{lemma_with_card_reads_slot, MetadataRow, PlatoStore};
use crate::text::{
    chars_of, content_marker, content_payload, decimal, lemma_find_first, occurs_at, push_decimal,
    push_str, trim, trim_bounds,
};
use vstd::prelude::*;

verus! {

/// A request to arm a slot with a new card.
pub struct SaveRequest {
    /// The slot to write, below the table's size.
    pub id: u16,
    /// The card's content type.
    pub content_type: u8,
    /// The writing profile.
    pub author_id: u8,
    /// The addressed profile.
    pub target_id: u8,
    /// The card's title, which must hold more than whitespace.
    pub title: String,
    /// The card's body.
    pub text: String,
}

/// Why a save was refused.
#[derive(Clone, Copy, Debug, PartialEq, Eq, Structural)]
pub enum SaveError {
    /// The slot id is past the table.
    InvalidSlot,
    /// The title holds nothing but whitespace.
    EmptyTitle,
    /// The gzip encoder failed.
    CompressionFailed,
    /// The compressed card does not fit on the arena.
    ArenaFull,
}

/// Why a delete was refused.
#[derive(Clone, Copy, Debug, PartialEq, Eq, Structural)]
pub enum DeleteError {
    /// The slot id is past the table.
    InvalidSlot,
}

/// The display name of a profile on a card.
pub open spec fn author_name(id: u8) -> Seq<char> {
    if id == PROFILE_SYSTEM {
        "Небытие"@
    } else if id == PROFILE_ADMIN {
        "Наблюдатель"@
    } else if id == PROFILE_WORLD {
        "Мир"@
    } else if id == PROFILE_LAMBER {
        "Ламбер"@
    } else if id == PROFILE_LAMIEL {
        "Ламьель"@
    } else {
        "Неизвестный автор"@
    }
}

/// The display name of a profile on a card.
pub fn author_name_str(id: u8) -> (s: &'static str)
    ensures
        s@ == author_name(id),
{
    if id == PROFILE_SYSTEM {
        "Небытие"
    } else if id == PROFILE_ADMIN {
        "Наблюдатель"
    } else if id == PROFILE_WORLD {
        "Мир"
    } else if id == PROFILE_LAMBER {
        "Ламбер"
    } else if id == PROFILE_LAMIEL {
        "Ламьель"
    } else {
        "Неизвестный автор"
    }
}

/// The style class of a card of the given content type.
pub open spec fn base_class(content_type: u8) -> Seq<char> {
    if content_type == TYPE_LETTER {
        "plato-letter-card"@
    } else if content_type == TYPE_PROFILE {
        "plato-profile-card"@
    } else if content_type == TYPE_CORRESPONDENCE {
        "plato-journal-card"@
    } else {
        "plato-article-card"@
    }
}

/// The full class list of a card: letters of the administrator are marked.
pub open spec fn card_class(content_type: u8, author_id: u8) -> Seq<char> {
    if content_type == TYPE_LETTER && author_id == PROFILE_ADMIN {
        base_class(content_type) + " plato-admin-letter"@
    } else {
        base_class(content_type)
    }
}

/// The HTML of a card.
pub open spec fn card_html(
    content_type: u8,
    author_id: u8,
    title: Seq<char>,
    text: Seq<char>,
    date: Seq<char>,
) -> Seq<char> {
    "<div class=\""@ + card_class(content_type, author_id) + "\"><h1 class=\"plato-title\">"@
        + title + "</h1><div class=\"plato-content\">"@ + text
        + "</div><div class=\"plato-footer\"><a href=\"/esse/"@ + decimal(author_id as nat)
        + "\" class=\"plato-signature\">"@ + author_name(author_id)
        + "</a>, <span class=\"plato-date\">"@ + date + "</span></div></div>"@
}

/// Renders the HTML of a card, as characters.
pub fn render_card(
    content_type: u8,
    author_id: u8,
    title: &str,
    text: &str,
    date: &str,
) -> (html: Vec<char>)
    ensures
        html@ == card_html(content_type, author_id, title@, text@, date@),
{
    let mut out: Vec<char> = Vec::new();
    push_str(&mut out, "<div class=\"");
    if content_type == TYPE_LETTER {
        push_str(&mut out, "plato-letter-card");
    } else if content_type == TYPE_PROFILE {
        push_str(&mut out, "plato-profile-card");
    } else if content_type == TYPE_CORRESPONDENCE {
        push_str(&mut out, "plato-journal-card");
    } else {
        push_str(&mut out, "plato-article-card");
    }
    if content_type == TYPE_LETTER && author_id == PROFILE_ADMIN {
        push_str(&mut out, " plato-admin-letter");
    }
    push_str(&mut out, "\"><h1 class=\"plato-title\">");
    push_str(&mut out, title);
    push_str(&mut out, "</h1><div class=\"plato-content\">");
    push_str(&mut out, text);
    push_str(&mut out, "</div><div class=\"plato-footer\"><a href=\"/esse/");
    push_decimal(&mut out, author_id as u64);
    push_str(&mut out, "\" class=\"plato-signature\">");
    push_str(&mut out, author_name_str(author_id));
    push_str(&mut out, "</a>, <span class=\"plato-date\">");
    push_str(&mut out, date);
    push_str(&mut out, "</span></div></div>");
    assert(out@ =~= card_html(content_type, author_id, title@, text@, date@));
    out
}

/// The metadata row that a save writes.
pub open spec fn saved_row(req: &SaveRequest, timestamp: u32) -> MetadataRow {
    MetadataRow {
        timestamp,
        content_type: req.content_type,
        author_id: req.author_id,
        target_id: req.target_id,
        padding: 0,
    }
}

/// The compressed card that a save writes.
pub open spec fn saved_bytes(req: &SaveRequest, date: Seq<char>) -> Seq<u8> {
    gzip_best(card_html(req.content_type, req.author_id, req.title@, req.text@, date))
}

/// Whether a request names a slot of the table and a title with more than
/// whitespace.
pub open spec fn request_valid(req: &SaveRequest) -> bool {
    req.id < MAX_ITEMS && trim(req.title@).len() > 0
}

/// Extracting the content block of a rendered card gives its text, trimmed,
/// where the title holds no content marker and the text no closing `</div>`.
#[verifier::rlimit(80)]
#[verifier::spinoff_prover]
pub proof fn lemma_card_content_payload(
    content_type: u8,
    author_id: u8,
    title: Seq<char>,
    text: Seq<char>,
    date: Seq<char>,
)
    requires
        forall|i: int| !occurs_at(title, content_marker(), i),
        forall|i: int| !occurs_at(text, "</div>"@, i),
    ensures
        content_payload(card_html(content_type, author_id, title, text, date)) == Some(trim(text)),
{
    reveal_strlit("<div class=\"");
    reveal_strlit("plato-letter-card");
    reveal_strlit("plato-profile-card");
    reveal_strlit("plato-journal-card");
    reveal_strlit("plato-article-card");
    reveal_strlit(" plato-admin-letter");
    reveal_strlit("\"><h1 class=\"plato-title\">");
    reveal_strlit("</h1><div class=\"plato-content\">");
    reveal_strlit("</div><div class=\"plato-footer\"><a href=\"/esse/");
    reveal_strlit("class=\"plato-content\"");
    reveal_strlit(">");
    reveal_strlit("</div>");
    let marker = content_marker();
    let close = "</div>"@;
    assert(marker.len() == 21);
    assert(forall|t: int| 0 <= t < 21 ==> marker[t] != '<' && marker[t] != '>');
    assert(forall|t: int| 1 <= t < 6 ==> close[t] != '<');
    let pre = "<div class=\""@ + card_class(content_type, author_id) + "\"><h1 class=\"plato-title\">"@;
    let l3 = "</h1><div class=\"plato-content\">"@;
    let l4 = "</div><div class=\"plato-footer\"><a href=\"/esse/"@;
    let rest = text + l4 + decimal(author_id as nat) + "\" class=\"plato-signature\">"@ + author_name(
        author_id,
    ) + "</a>, <span class=\"plato-date\">"@ + date + "</span></div></div>"@;
    let h = card_html(content_type, author_id, title, text, date);
    assert(h =~= pre + title + l3 + rest);
    let p = pre.len() as int;
    let tl = title.len() as int;
    let m = p + tl + 10;
    assert(l3.len() == 32);
    assert(h.subrange(m, m + 21) =~= marker);
    assert forall|j: int| 0 <= j < m implies !occurs_at(h, marker, j) by {
        if occurs_at(h, marker, j) {
            let w = h.subrange(j, j + 21);
            assert(w == marker);
            if j < p {
                assert forall|t: int| 0 <= t < 21 && j + t < p implies pre[j + t] == marker[t] by {
                    assert(w[t] == h[j + t]);
                }
                if j + 13 < p {
                    assert(pre[j + 11] == marker[11] && pre[j + 12] == marker[12] && pre[j + 13] == marker[13]);
                } else {
                    assert(pre[j] == marker[0]);
                    if j + 1 < p {
                        assert(pre[j + 1] == marker[1]);
                    }
                }
                assert(false);
            } else if j + 21 <= p + tl {
                assert(title.subrange(j - p, j - p + 21) =~= w);
                assert(occurs_at(title, marker, j - p));
                assert(false);
            } else if j < p + tl {
                let t = p + tl - j;
                assert(w[t] == h[p + tl]);
                assert(h[p + tl] == '<');
                assert(false);
            } else {
                assert forall|t: int| 0 <= t < 21 implies l3[j - p - tl + t] == marker[t] by {
                    assert(w[t] == h[j + t]);
                }
                assert(l3[j - p - tl + 12] == marker[12]);
                assert(false);
            }
        }
    }
    lemma_find_first(h, marker, m);
    let hs = h.subrange(m, h.len() as int);
    assert(hs.subrange(21, 22) =~= ">"@);
    assert forall|j: int| 0 <= j < 21 implies !occurs_at(hs, ">"@, j) by {
        assert(hs.subrange(j, j + 1)[0] == hs[j]);
        assert(hs[j] == marker[j]);
    }
    lemma_find_first(hs, ">"@, 21);
    let g = m + 21;
    let ht = h.subrange(g + 1, h.len() as int);
    assert(ht =~= rest);
    let x = text.len() as int;
    assert(rest.subrange(x, x + 6) =~= close);
    assert forall|j: int| 0 <= j < x implies !occurs_at(rest, close, j) by {
        if occurs_at(rest, close, j) {
            if j + 6 <= x {
                assert(text.subrange(j, j + 6) =~= rest.subrange(j, j + 6));
                assert(occurs_at(text, close, j));
                assert(false);
            } else {
                let t = x - j;
                assert(rest.subrange(j, j + 6)[t] == rest[x]);
                assert(rest[x] == '<');
                assert(false);
            }
        }
    }
    lemma_find_first(rest, close, x);
    assert(h.subrange(g + 1, g + 1 + x) =~= text);
}

impl PlatoStore {
    /// Saves a card: checks the slot and the title, renders the card with
    /// the author's name and `date`, compresses it, appends it to the arena
    /// and arms the slot with it and with metadata stamped `timestamp`.
    /// Returns whether the correspondence journal is now stale (the card is
    /// a letter).
    pub fn save_card(&mut self, req: &SaveRequest, timestamp: u32, date: &str) -> (r: Result<
        bool,
        SaveError,
    >)
        requires
            old(self)@.wf(),
        ensures
            final(self)@.wf(),
            (r == Err::<bool, SaveError>(SaveError::InvalidSlot)) <==> req.id >= MAX_ITEMS,
            (r == Err::<bool, SaveError>(SaveError::EmptyTitle)) <==> (req.id < MAX_ITEMS && trim(
                req.title@,
            ).len() == 0),
            r is Err ==> final(self)@ == old(self)@,
            request_valid(req) ==> (r is Ok <==> old(self)@.fits(saved_bytes(req, date@).len())),
            request_valid(req) && !old(self)@.fits(saved_bytes(req, date@).len()) ==> r == Err::<
                bool,
                SaveError,
            >(SaveError::ArenaFull),
            r matches Ok(stale) ==> {
                &&& request_valid(req)
                &&& stale == (req.content_type == TYPE_LETTER)
                &&& gunzip_text(saved_bytes(req, date@)) == Some(
                    card_html(req.content_type, req.author_id, req.title@, req.text@, date@),
                )
                &&& saved_bytes(req, date@).len() > 0
                &&& final(self)@.article(req.id as int) == Some(saved_bytes(req, date@))
                &&& final(self)@ == old(self)@.with_card(
                    req.id as int,
                    saved_bytes(req, date@),
                    saved_row(req, timestamp),
                )
            },
    {
        if req.id as usize >= MAX_ITEMS {
            return Err(SaveError::InvalidSlot);
        }
        let title = chars_of(req.title.as_str());
        let (a, b) = trim_bounds(&title, 0, title.len());
        assert(title@.subrange(0, title@.len() as int) =~= title@);
        if a == b {
            return Err(SaveError::EmptyTitle);
        }
        let html = render_card(
            req.content_type,
            req.author_id,
            req.title.as_str(),
            req.text.as_str(),
            date,
        );
        let html_text = string_from_chars(&html);
        let compressed = gzip_compress(html_text.as_str());
        let ghost bytes = compressed.unwrap()@;
        let r = self.commit_compressed_card(req, timestamp, compressed);
        proof {
            if r is Ok {
                lemma_with_card_reads_slot(old(self)@, req.id as int, bytes, saved_row(req, timestamp));
            }
        }
        r
    }

    /// Commits the outcome of compressing a valid request's card: refuses
    /// with `CompressionFailed` when the encoder gave nothing, with
    /// `ArenaFull` when the bytes do not fit, and otherwise appends them and
    /// arms the request's slot with them. Returns whether the correspondence
    /// journal is now stale.
    pub fn commit_compressed_card(
        &mut self,
        req: &SaveRequest,
        timestamp: u32,
        compressed: Option<Vec<u8>>,
    ) -> (r: Result<bool, SaveError>)
        requires
            old(self)@.wf(),
            req.id < MAX_ITEMS,
        ensures
            final(self)@.wf(),
            compressed is None ==> r == Err::<bool, SaveError>(SaveError::CompressionFailed),
            compressed matches Some(b) ==> (r is Ok <==> old(self)@.fits(b@.len())),
            compressed matches Some(b) && !old(self)@.fits(b@.len()) ==> r == Err::<bool, SaveError>(
                SaveError::ArenaFull,
            ),
            r is Err ==> final(self)@ == old(self)@,
            r matches Ok(stale) ==> {
                &&& stale == (req.content_type == TYPE_LETTER)
                &&& final(self)@ == old(self)@.with_card(
                    req.id as int,
                    compressed.unwrap()@,
                    saved_row(req, timestamp),
                )
            },
    {
        let bytes = match compressed {
            Some(c) => c,
            None => return Err(SaveError::CompressionFailed),
        };
        let row = MetadataRow {
            timestamp,
            content_type: req.content_type,
            author_id: req.author_id,
            target_id: req.target_id,
            padding: 0,
        };
        if !self.commit_card(req.id as usize, &bytes, row) {
            return Err(SaveError::ArenaFull);
        }
        Ok(req.content_type == TYPE_LETTER)
    }

    /// Empties slot `id`: clears its coordinates and its metadata; the arena
    /// keeps the bytes until the next compaction. Returns whether the
    /// correspondence journal is now stale (the slot held a letter).
    pub fn delete_card(&mut self, id: u32) -> (r: Result<bool, DeleteError>)
        requires
            old(self)@.wf(),
        ensures
            final(self)@.wf(),
            r is Err <==> id >= MAX_ITEMS,
            r is Err ==> final(self)@ == old(self)@,
            r matches Ok(stale) ==> {
                &&& stale == (old(self)@.metadata[id as int].content_type == TYPE_LETTER)
                &&& final(self)@ == old(self)@.without_card(id as int)
            },
    {
        if id as usize >= MAX_ITEMS {
            return Err(DeleteError::InvalidSlot);
        }
        let target_type = self.metadata[id as usize].content_type;
        self.jump_table.set(id as usize, 0);
        self.metadata.set(id as usize, MetadataRow::empty());
        Ok(target_type == TYPE_LETTER)
    }
}

} // verus!
