//! The dialogue context handed to an agent: its own and its opponent's
//! hero profiles, then the most recent letters addressed to it by its
//! opponent or by the administrator, as plain text.

use crate::codec::{gunzip_text, gunzip_to_chars, string_from_chars};
use crate::layout::{
    MAX_ITEMS, PROFILE_ADMIN, PROFILE_LAMBER, PROFILE_LAMIEL, PROFILE_WORLD, SLOT_CORRESPONDENCE,
    TYPE_LETTER, TYPE_PROFILE,
};
use crate::layout::lemma_pack_zero;
use crate::store::{lemma_with_card_reads_back, MetadataRow, PlatoStore, StoreModel};
use crate::text::{
    content_block_exec, content_payload, decimal, push_decimal, push_range, push_str, trim_bounds,
};
use vstd::prelude::*;

verus! {

/// The most letters a context holds.
pub const MAX_DIALOGUE_LETTERS: usize = 10;

/// Kind of a context entry: the first agent's hero profile.
pub const ENTRY_PROFILE_LAMBER: u8 = 0;
/// Kind of a context entry: the second agent's hero profile.
pub const ENTRY_PROFILE_LAMIEL: u8 = 1;
/// Kind of a context entry: a letter from the opponent.
pub const ENTRY_LETTER: u8 = 2;
/// Kind of a context entry: a directive of the administrator.
pub const ENTRY_DIRECTIVE: u8 = 3;

/// Why a context was refused.
#[derive(Clone, Copy, Debug, PartialEq, Eq, Structural)]
pub enum ContextError {
    /// The profile is not one of the two agents.
    InvalidAgent,
}

/// The agent that `agent` corresponds with.
pub open spec fn opponent(agent: u8) -> u8 {
    if agent == PROFILE_LAMBER {
        PROFILE_LAMIEL
    } else {
        PROFILE_LAMBER
    }
}

/// The kind of the letter in slot `id` for `agent`'s context: a directive
/// of the administrator to the agent or to the world, or a letter of the
/// opponent to the agent; `None` for any other slot.
pub open spec fn letter_kind(m: StoreModel, agent: u8, id: int) -> Option<u8> {
    let row = m.metadata[id];
    if id == SLOT_CORRESPONDENCE || m.jump_table[id] == 0 || row.content_type != TYPE_LETTER {
        None
    } else if row.author_id == PROFILE_ADMIN && (row.target_id == agent || row.target_id
        == PROFILE_WORLD) {
        Some(ENTRY_DIRECTIVE)
    } else if row.author_id == opponent(agent) && row.target_id == agent {
        Some(ENTRY_LETTER)
    } else {
        None
    }
}

/// The letters picked by a scan from the last slot down to slot `n`: each
/// eligible letter, until `MAX_DIALOGUE_LETTERS` are picked, newest first.
pub open spec fn scanned_letters(m: StoreModel, agent: u8, n: int) -> Seq<(usize, u8)>
    decreases MAX_ITEMS - n,
{
    if n >= MAX_ITEMS {
        Seq::empty()
    } else {
        let picked = scanned_letters(m, agent, n + 1);
        match letter_kind(m, agent, n) {
            Some(kind) => if picked.len() < MAX_DIALOGUE_LETTERS {
                picked.push((n as usize, kind))
            } else {
                picked
            },
            None => picked,
        }
    }
}

/// Whether slot `id` holds a hero profile.
pub open spec fn holds_profile(m: StoreModel, id: int) -> bool {
    m.jump_table[id] != 0 && m.metadata[id].content_type == TYPE_PROFILE
}

/// The entries of a context, in order: the first agent's profile, the
/// second's, then the picked letters oldest first.
pub open spec fn context_entries(m: StoreModel, agent: u8) -> Seq<(usize, u8)> {
    let p3: Seq<(usize, u8)> = if holds_profile(m, PROFILE_LAMBER as int) {
        seq![(PROFILE_LAMBER as usize, ENTRY_PROFILE_LAMBER)]
    } else {
        Seq::empty()
    };
    let p4: Seq<(usize, u8)> = if holds_profile(m, PROFILE_LAMIEL as int) {
        seq![(PROFILE_LAMIEL as usize, ENTRY_PROFILE_LAMIEL)]
    } else {
        Seq::empty()
    };
    p3 + p4 + scanned_letters(m, agent, 0).reverse()
}

/// The name of a letter's sender in a context.
pub open spec fn sender_label(id: u8) -> Seq<char> {
    if id == PROFILE_ADMIN {
        "ADMIN (Observer)"@
    } else if id == PROFILE_LAMBER {
        "Lamber"@
    } else if id == PROFILE_LAMIEL {
        "Lamiel"@
    } else {
        "System"@
    }
}

/// The name of a letter's addressee in a context.
pub open spec fn recipient_label(id: u8) -> Seq<char> {
    if id == PROFILE_WORLD {
        "ALL (World)"@
    } else if id == PROFILE_LAMBER {
        "Lamber"@
    } else if id == PROFILE_LAMIEL {
        "Lamiel"@
    } else {
        "System"@
    }
}

/// The separator after each section of a context.
pub open spec fn section_rule() -> Seq<char> {
    "------------------------------------------------\n\n"@
}

/// The section of a context for entry (`id`, `kind`) with content `body`.
pub open spec fn section_text(row: MetadataRow, id: usize, kind: u8, body: Seq<char>) -> Seq<
    char,
> {
    if kind == ENTRY_DIRECTIVE {
        "[ADMIN DIRECTIVE | SLOT "@ + decimal(id as nat) + "]\nFrom: "@ + sender_label(row.author_id)
            + "\nTo: "@ + recipient_label(row.target_id) + "\nContent:\n"@ + body + "\n"@
            + section_rule()
    } else if kind == ENTRY_LETTER {
        "[LETTER | SLOT "@ + decimal(id as nat) + "]\nFrom: "@ + sender_label(row.author_id)
            + "\nTo: "@ + recipient_label(row.target_id) + "\nContent:\n"@ + body + "\n"@
            + section_rule()
    } else {
        "[HERO PROFILE | "@ + (if kind == ENTRY_PROFILE_LAMBER {
            "Lamber"@
        } else {
            "Lamiel"@
        }) + "]\n"@ + body + "\n"@ + section_rule()
    }
}

/// The section for entry (`id`, `kind`), where its card decompresses and
/// has a content block.
pub open spec fn entry_section(m: StoreModel, id: usize, kind: u8) -> Option<Seq<char>> {
    match m.article(id as int) {
        Some(bytes) => match gunzip_text(bytes) {
            Some(html) => match content_payload(html) {
                Some(body) => Some(section_text(m.metadata[id as int], id, kind, body)),
                None => None,
            },
            None => None,
        },
        None => None,
    }
}

/// The sections of the first `n` entries.
pub open spec fn context_sections(m: StoreModel, entries: Seq<(usize, u8)>, n: int) -> Seq<char>
    decreases n,
{
    if n <= 0 {
        Seq::empty()
    } else {
        let prev = context_sections(m, entries, n - 1);
        match entry_section(m, entries[n - 1].0, entries[n - 1].1) {
            Some(sec) => prev + sec,
            None => prev,
        }
    }
}

/// The text given when a context holds no section.
pub open spec fn void_context() -> Seq<char> {
    "[SYSTEM STATUS]: Matrix void. No operational data found.\n"@
}

/// The context of `agent`.
pub open spec fn context_text(m: StoreModel, agent: u8) -> Seq<char> {
    let entries = context_entries(m, agent);
    let body = context_sections(m, entries, entries.len() as int);
    if body.len() == 0 {
        void_context()
    } else {
        body
    }
}

/// Appends the sender's label of a letter.
fn push_sender_label(out: &mut Vec<char>, id: u8)
    ensures
        final(out)@ == old(out)@ + sender_label(id),
{
    if id == PROFILE_ADMIN {
        push_str(out, "ADMIN (Observer)");
    } else if id == PROFILE_LAMBER {
        push_str(out, "Lamber");
    } else if id == PROFILE_LAMIEL {
        push_str(out, "Lamiel");
    } else {
        push_str(out, "System");
    }
}

/// Appends the addressee's label of a letter.
fn push_recipient_label(out: &mut Vec<char>, id: u8)
    ensures
        final(out)@ == old(out)@ + recipient_label(id),
{
    if id == PROFILE_WORLD {
        push_str(out, "ALL (World)");
    } else if id == PROFILE_LAMBER {
        push_str(out, "Lamber");
    } else if id == PROFILE_LAMIEL {
        push_str(out, "Lamiel");
    } else {
        push_str(out, "System");
    }
}

/// Appends the section of entry (`id`, `kind`) with metadata `row` and
/// content `html[a..b]`.
fn push_section(
    out: &mut Vec<char>,
    row: MetadataRow,
    id: usize,
    kind: u8,
    html: &Vec<char>,
    a: usize,
    b: usize,
)
    requires
        a <= b <= html@.len(),
    ensures
        final(out)@ == old(out)@ + section_text(row, id, kind, html@.subrange(a as int, b as int)),
{
    let ghost start = out@;
    if kind == ENTRY_DIRECTIVE || kind == ENTRY_LETTER {
        if kind == ENTRY_DIRECTIVE {
            push_str(out, "[ADMIN DIRECTIVE | SLOT ");
        } else {
            push_str(out, "[LETTER | SLOT ");
        }
        push_decimal(out, id as u64);
        push_str(out, "]\nFrom: ");
        push_sender_label(out, row.author_id);
        push_str(out, "\nTo: ");
        push_recipient_label(out, row.target_id);
        push_str(out, "\nContent:\n");
    } else {
        push_str(out, "[HERO PROFILE | ");
        if kind == ENTRY_PROFILE_LAMBER {
            push_str(out, "Lamber");
        } else {
            push_str(out, "Lamiel");
        }
        push_str(out, "]\n");
    }
    push_range(out, html, a, b);
    push_str(out, "\n");
    push_str(out, "------------------------------------------------\n\n");
    assert(out@ =~= start + section_text(row, id, kind, html@.subrange(a as int, b as int)));
}

/// The scan picks at most `MAX_DIALOGUE_LETTERS` letters, each eligible for
/// the agent, at or above slot `n`, newest (highest slot) first.
pub proof fn lemma_scanned_letters(m: StoreModel, agent: u8, n: int)
    requires
        0 <= n <= MAX_ITEMS,
    ensures
        scanned_letters(m, agent, n).len() <= MAX_DIALOGUE_LETTERS,
        forall|j: int|
            0 <= j < scanned_letters(m, agent, n).len() ==> {
                let e = #[trigger] scanned_letters(m, agent, n)[j];
                &&& n <= e.0 < MAX_ITEMS
                &&& letter_kind(m, agent, e.0 as int) == Some(e.1)
            },
        forall|i: int, j: int|
            0 <= i < j < scanned_letters(m, agent, n).len() ==> scanned_letters(m, agent, n)[i].0
                > scanned_letters(m, agent, n)[j].0,
    decreases MAX_ITEMS - n,
{
    if n < MAX_ITEMS {
        lemma_scanned_letters(m, agent, n + 1);
    }
}

/// A context lists the agents' profiles first, then at most
/// `MAX_DIALOGUE_LETTERS` letters, oldest (lowest slot) first, each a
/// directive of the administrator to the agent or to the world, or a letter
/// of the opponent to the agent.
pub proof fn lemma_context_entries_shape(m: StoreModel, agent: u8)
    ensures
        ({
            let e = context_entries(m, agent);
            let letters = scanned_letters(m, agent, 0).reverse();
            &&& letters.len() <= MAX_DIALOGUE_LETTERS
            &&& e.len() <= 2 + MAX_DIALOGUE_LETTERS
            &&& e.subrange(e.len() - letters.len(), e.len() as int) == letters
            &&& forall|j: int|
                0 <= j < letters.len() ==> letter_kind(m, agent, #[trigger] letters[j].0 as int)
                    == Some(letters[j].1)
            &&& forall|i: int, j: int|
                0 <= i < j < letters.len() ==> #[trigger] letters[i].0 < #[trigger] letters[j].0
        }),
{
    lemma_scanned_letters(m, agent, 0);
    let s = scanned_letters(m, agent, 0);
    let letters = s.reverse();
    let e = context_entries(m, agent);
    assert(e.subrange(e.len() - letters.len(), e.len() as int) =~= letters);
    assert forall|j: int| 0 <= j < letters.len() implies letter_kind(
        m,
        agent,
        #[trigger] letters[j].0 as int,
    ) == Some(letters[j].1) by {
        assert(letters[j] == s[s.len() - 1 - j]);
    }
    assert forall|i: int, j: int| 0 <= i < j < letters.len() implies #[trigger] letters[i].0
        < #[trigger] letters[j].0 by {
        assert(letters[i] == s[s.len() - 1 - i]);
        assert(letters[j] == s[s.len() - 1 - j]);
    }
}

/// Whether (`id`, `kind`) may stand in `agent`'s context, by the slot's
/// coordinate and metadata alone: an agent's hero profile in its own slot,
/// a directive of the administrator to the agent or to the world, or a
/// letter of the other agent to this one.
pub open spec fn context_eligible(m: StoreModel, agent: u8, id: int, kind: u8) -> bool {
    let row = m.metadata[id];
    let other: u8 = if agent == PROFILE_LAMBER {
        PROFILE_LAMIEL
    } else {
        PROFILE_LAMBER
    };
    &&& 0 <= id < MAX_ITEMS
    &&& m.jump_table[id] != 0
    &&& {
        ||| (kind == ENTRY_PROFILE_LAMBER && id == PROFILE_LAMBER && row.content_type
            == TYPE_PROFILE)
        ||| (kind == ENTRY_PROFILE_LAMIEL && id == PROFILE_LAMIEL && row.content_type
            == TYPE_PROFILE)
        ||| (kind == ENTRY_DIRECTIVE && id != SLOT_CORRESPONDENCE && row.content_type
            == TYPE_LETTER && row.author_id == PROFILE_ADMIN && (row.target_id == agent
            || row.target_id == PROFILE_WORLD))
        ||| (kind == ENTRY_LETTER && id != SLOT_CORRESPONDENCE && row.content_type == TYPE_LETTER
            && row.author_id == other && row.target_id == agent)
    }
}

/// Every entry of a context is eligible for the agent: a profile in its own
/// slot, a directive of the administrator to the agent or to the world, or
/// a letter of the other agent addressed to the agent itself; a letter to
/// anyone else, or by anyone else, never enters it.
pub proof fn lemma_context_entries_eligible(m: StoreModel, agent: u8)
    requires
        m.wf(),
    ensures
        forall|j: int|
            0 <= j < context_entries(m, agent).len() ==> context_eligible(
                m,
                agent,
                #[trigger] context_entries(m, agent)[j].0 as int,
                context_entries(m, agent)[j].1,
            ),
{
    lemma_scanned_letters(m, agent, 0);
    let s = scanned_letters(m, agent, 0);
    let letters = s.reverse();
    let e = context_entries(m, agent);
    let p = e.len() - letters.len();
    assert forall|j: int| 0 <= j < e.len() implies context_eligible(
        m,
        agent,
        #[trigger] e[j].0 as int,
        e[j].1,
    ) by {
        if j >= p {
            assert(e[j] == letters[j - p]);
            assert(letters[j - p] == s[s.len() - 1 - (j - p)]);
        }
    }
}

/// A letter appended to a store whose cards lie below its free pointer, from
/// the administrator to the agent or to the world, or from the opponent to
/// the agent, in any slot but the journal's, is eligible for the agent's
/// context with the matching kind, and its section is built from the
/// letter's decompressed HTML.
pub proof fn lemma_saved_letter_reaches_agent(
    m: StoreModel,
    id: int,
    bytes: Seq<u8>,
    row: MetadataRow,
    agent: u8,
    html: Seq<char>,
)
    requires
        m.wf(),
        m.cards_below_free(),
        0 <= id < MAX_ITEMS,
        id != SLOT_CORRESPONDENCE,
        m.fits(bytes.len()),
        bytes.len() > 0,
        gunzip_text(bytes) == Some(html),
        row.content_type == TYPE_LETTER,
        (row.author_id == PROFILE_ADMIN && (row.target_id == agent || row.target_id
            == PROFILE_WORLD)) || (row.author_id == opponent(agent) && row.target_id == agent),
    ensures
        letter_kind(m.with_card(id, bytes, row), agent, id) == Some(
            if row.author_id == PROFILE_ADMIN {
                ENTRY_DIRECTIVE
            } else {
                ENTRY_LETTER
            },
        ),
        forall|kind: u8|
            #[trigger] entry_section(m.with_card(id, bytes, row), id as usize, kind) == (match content_payload(
                html,
            ) {
                Some(body) => Some(section_text(row, id as usize, kind, body)),
                None => None,
            }),
{
    lemma_with_card_reads_back(m, id, bytes, row);
    lemma_pack_zero(m.free_pointer, bytes.len() as u32);
}

impl PlatoStore {
    /// The entries of `agent`'s context, in order.
    fn pick_context_entries(&self, agent: u8) -> (r: Vec<(usize, u8)>)
        requires
            self@.wf(),
        ensures
            r@ == context_entries(self@, agent),
            forall|j: int| 0 <= j < r@.len() ==> #[trigger] r@[j].0 < MAX_ITEMS,
            forall|j: int|
                0 <= j < r@.len() ==> context_eligible(self@, agent, #[trigger] r@[j].0 as int, r@[j].1),
    {
        let opp: u8 = if agent == PROFILE_LAMBER {
            PROFILE_LAMIEL
        } else {
            PROFILE_LAMBER
        };
        let mut picked: Vec<(usize, u8)> = Vec::new();
        let mut i: usize = MAX_ITEMS;
        while i > 0
            invariant
                self@.wf(),
                i <= MAX_ITEMS,
                opp == opponent(agent),
                picked@ == scanned_letters(self@, agent, i as int),
                forall|j: int| 0 <= j < picked@.len() ==> #[trigger] picked@[j].0 < MAX_ITEMS,
            decreases i,
        {
            i = i - 1;
            let row = self.metadata[i];
            if i != SLOT_CORRESPONDENCE && self.jump_table[i] != 0 && row.content_type == TYPE_LETTER {
                let directive = row.author_id == PROFILE_ADMIN && (row.target_id == agent
                    || row.target_id == PROFILE_WORLD);
                let incoming = row.author_id == opp && row.target_id == agent;
                if (directive || incoming) && picked.len() < MAX_DIALOGUE_LETTERS {
                    let kind: u8 = if row.author_id == PROFILE_ADMIN {
                        ENTRY_DIRECTIVE
                    } else {
                        ENTRY_LETTER
                    };
                    picked.push((i, kind));
                }
            }
        }
        let mut entries: Vec<(usize, u8)> = Vec::new();
        if self.jump_table[3] != 0 && self.metadata[3].content_type == TYPE_PROFILE {
            entries.push((3, ENTRY_PROFILE_LAMBER));
        }
        if self.jump_table[4] != 0 && self.metadata[4].content_type == TYPE_PROFILE {
            entries.push((4, ENTRY_PROFILE_LAMIEL));
        }
        let ghost prefix = entries@;
        let n = picked.len();
        let mut k: usize = n;
        while k > 0
            invariant
                k <= n,
                n == picked@.len(),
                entries@ == prefix + picked@.reverse().subrange(0, (n - k) as int),
                forall|j: int| 0 <= j < picked@.len() ==> #[trigger] picked@[j].0 < MAX_ITEMS,
                forall|j: int| 0 <= j < entries@.len() ==> #[trigger] entries@[j].0 < MAX_ITEMS,
            decreases k,
        {
            k = k - 1;
            entries.push(picked[k]);
            assert(picked@.reverse().subrange(0, (n - k) as int) =~= picked@.reverse().subrange(
                0,
                (n - k - 1) as int,
            ).push(picked@[k as int]));
        }
        assert(picked@.reverse().subrange(0, n as int) =~= picked@.reverse());
        assert(entries@ =~= context_entries(self@, agent));
        proof {
            lemma_context_entries_eligible(self@, agent);
        }
        entries
    }

    /// Appends the section of entry (`id`, `kind`) to `out`, where its card
    /// decompresses and has a content block.
    fn push_entry_section(&self, out: &mut Vec<char>, id: usize, kind: u8)
        requires
            self@.wf(),
            id < MAX_ITEMS,
        ensures
            final(out)@ == old(out)@ + (match entry_section(self@, id, kind) {
                Some(sec) => sec,
                None => Seq::empty(),
            }),
    {
        let ghost start = out@;
        let card = match self.get_article_slice(id as u32) {
            Some(c) => c,
            None => {
                assert(out@ =~= start + Seq::<char>::empty());
                return;
            },
        };
        let html = match gunzip_to_chars(card) {
            Some(h) => h,
            None => {
                assert(out@ =~= start + Seq::<char>::empty());
                return;
            },
        };
        let (cs, ce) = match content_block_exec(&html) {
            Some(b) => b,
            None => {
                assert(out@ =~= start + Seq::<char>::empty());
                return;
            },
        };
        let (a, b) = trim_bounds(&html, cs, ce);
        let row = self.metadata[id];
        push_section(out, row, id, kind, &html, a, b);
    }

    /// The dialogue context of `agent`: for each entry, in order, a section
    /// with the trimmed content block of its card, where the card
    /// decompresses and has one; a notice when no section results. Refused
    /// for a profile that is not one of the two agents.
    pub fn ai_context(&self, agent: u8) -> (r: Result<String, ContextError>)
        requires
            self@.wf(),
        ensures
            r is Err <==> (agent != PROFILE_LAMBER && agent != PROFILE_LAMIEL),
            r matches Ok(text) ==> text@ == context_text(self@, agent),
    {
        if agent != PROFILE_LAMBER && agent != PROFILE_LAMIEL {
            return Err(ContextError::InvalidAgent);
        }
        let entries = self.pick_context_entries(agent);
        let mut out: Vec<char> = Vec::new();
        let mut k: usize = 0;
        while k < entries.len()
            invariant
                self@.wf(),
                k <= entries@.len(),
                entries@ == context_entries(self@, agent),
                forall|j: int| 0 <= j < entries@.len() ==> #[trigger] entries@[j].0 < MAX_ITEMS,
                out@ == context_sections(self@, entries@, k as int),
            decreases entries@.len() - k,
        {
            let (id, kind) = entries[k];
            self.push_entry_section(&mut out, id, kind);
            proof {
                match entry_section(self@, id, kind) {
                    Some(sec) => {},
                    None => {
                        assert(out@ =~= context_sections(self@, entries@, k as int));
                    },
                }
            }
            k = k + 1;
        }
        if out.len() == 0 {
            push_str(&mut out, "[SYSTEM STATUS]: Matrix void. No operational data found.\n");
        }
        Ok(string_from_chars(&out))
    }
}

} // verus!
