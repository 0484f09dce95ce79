//! Character-level text utilities: whitespace trimming, substring search,
//! decimal rendering and the extraction of a card's content block.

use vstd::prelude::*;
use vstd::string::StrSliceExecFns;

verus! {

broadcast use vstd::string::group_string_axioms;

/// The characters of a string, in order.
pub fn chars_of(s: &str) -> (v: Vec<char>)
    ensures
        v@ == s@,
{
    let mut v: Vec<char> = Vec::new();
    for c in it: s.chars()
        invariant
            v@ == it.seq().take(it.index()),
    {
        v.push(c);
    }
    v
}


/// Appends the characters of `s` to `out`.
pub fn push_str(out: &mut Vec<char>, s: &str)
    ensures
        final(out)@ == old(out)@ + s@,
{
    let ghost start = out@;
    for c in it: s.chars()
        invariant
            out@ == start + it.seq().take(it.index()),
    {
        out.push(c);
    }
}

/// Appends the characters `src[from..to]` to `out`.
pub fn push_range(out: &mut Vec<char>, src: &Vec<char>, from: usize, to: usize)
    requires
        from <= to <= src@.len(),
    ensures
        final(out)@ == old(out)@ + src@.subrange(from as int, to as int),
{
    let ghost start = out@;
    let mut i: usize = from;
    while i < to
        invariant
            from <= i <= to <= src@.len(),
            out@ == start + src@.subrange(from as int, i as int),
        decreases to - i,
    {
        out.push(src[i]);
        i = i + 1;
        assert(src@.subrange(from as int, i as int) =~= src@.subrange(from as int, i - 1).push(src@[i - 1]));
    }
}

/// The characters of Unicode's White_Space property, which `char::is_whitespace`
/// reports.
pub open spec fn is_space(c: char) -> bool {
    let u = c as u32;
    ||| (0x9 <= u && u <= 0xD)
    ||| u == 0x20
    ||| u == 0x85
    ||| u == 0xA0
    ||| u == 0x1680
    ||| (0x2000 <= u && u <= 0x200A)
    ||| u == 0x2028
    ||| u == 0x2029
    ||| u == 0x202F
    ||| u == 0x205F
    ||| u == 0x3000
}

/// Whether `c` is a whitespace character.
pub fn is_space_char(c: char) -> (b: bool)
    ensures
        b == is_space(c),
{
    let u: u32 = c as u32;
    (0x9 <= u && u <= 0xD) || u == 0x20 || u == 0x85 || u == 0xA0 || u == 0x1680 || (0x2000 <= u
        && u <= 0x200A) || u == 0x2028 || u == 0x2029 || u == 0x202F || u == 0x205F || u == 0x3000
}

/// `s` without its leading whitespace.
pub open spec fn trim_start(s: Seq<char>) -> Seq<char>
    decreases s.len(),
{
    if s.len() > 0 && is_space(s[0]) {
        trim_start(s.drop_first())
    } else {
        s
    }
}

/// `s` without its trailing whitespace.
pub open spec fn trim_end(s: Seq<char>) -> Seq<char>
    decreases s.len(),
{
    if s.len() > 0 && is_space(s.last()) {
        trim_end(s.drop_last())
    } else {
        s
    }
}

/// `s` without leading and trailing whitespace, as `str::trim` gives it.
pub open spec fn trim(s: Seq<char>) -> Seq<char> {
    trim_end(trim_start(s))
}

/// The bounds, within `[from, to)`, of `src[from..to]` once trimmed.
pub fn trim_bounds(src: &Vec<char>, from: usize, to: usize) -> (r: (usize, usize))
    requires
        from <= to <= src@.len(),
    ensures
        from <= r.0 <= r.1 <= to,
        src@.subrange(r.0 as int, r.1 as int) == trim(src@.subrange(from as int, to as int)),
{
    let mut a: usize = from;
    while a < to && is_space_char(src[a])
        invariant
            from <= a <= to <= src@.len(),
            trim_start(src@.subrange(from as int, to as int)) == trim_start(
                src@.subrange(a as int, to as int),
            ),
        decreases to - a,
    {
        assert(src@.subrange(a as int, to as int).drop_first() =~= src@.subrange(a + 1, to as int));
        a = a + 1;
    }
    let mut b: usize = to;
    while b > a && is_space_char(src[b - 1])
        invariant
            from <= a <= b <= to <= src@.len(),
            trim(src@.subrange(from as int, to as int)) == trim_end(src@.subrange(a as int, b as int)),
        decreases b - a,
    {
        assert(src@.subrange(a as int, b as int).drop_last() =~= src@.subrange(a as int, b - 1));
        b = b - 1;
    }
    (a, b)
}


/// Whether `needle` occurs in `hay` at index `i`.
pub open spec fn occurs_at(hay: Seq<char>, needle: Seq<char>, i: int) -> bool {
    &&& 0 <= i
    &&& i + needle.len() <= hay.len()
    &&& hay.subrange(i, i + needle.len()) == needle
}

/// Whether `i` is the first index at which `needle` occurs in `hay`.
pub open spec fn first_occurrence(hay: Seq<char>, needle: Seq<char>, i: int) -> bool {
    &&& occurs_at(hay, needle, i)
    &&& forall|j: int| 0 <= j < i ==> !occurs_at(hay, needle, j)
}

/// The index of the first occurrence of `needle` in `hay`, as `str::find`
/// gives it (counted in characters).
pub open spec fn find(hay: Seq<char>, needle: Seq<char>) -> Option<int> {
    if exists|i: int| first_occurrence(hay, needle, i) {
        Some(choose|i: int| first_occurrence(hay, needle, i))
    } else {
        None
    }
}

/// `find` in `hay[from..]`, shifted back to an index of `hay`.
pub open spec fn find_after(hay: Seq<char>, needle: Seq<char>, from: int) -> Option<int> {
    match find(hay.subrange(from, hay.len() as int), needle) {
        Some(d) => Some(d + from),
        None => None,
    }
}

/// Where `needle` occurs at `k` and nowhere before, `find` gives `k`.
pub proof fn lemma_find_first(hay: Seq<char>, needle: Seq<char>, k: int)
    requires
        occurs_at(hay, needle, k),
        forall|j: int| 0 <= j < k ==> !occurs_at(hay, needle, j),
    ensures
        find(hay, needle) == Some(k),
{
    assert(first_occurrence(hay, needle, k));
    let c = choose|i: int| first_occurrence(hay, needle, i);
    lemma_first_occurrence_unique(hay, needle, c, k);
}

proof fn lemma_first_occurrence_unique(hay: Seq<char>, needle: Seq<char>, i: int, j: int)
    requires
        first_occurrence(hay, needle, i),
        first_occurrence(hay, needle, j),
    ensures
        i == j,
{
}

/// Whether `needle` occurs in `hay` at index `i`.
fn occurs_at_exec(hay: &Vec<char>, needle: &Vec<char>, i: usize) -> (b: bool)
    requires
        i + needle@.len() <= hay@.len(),
    ensures
        b == occurs_at(hay@, needle@, i as int),
{
    let n = needle.len();
    let hl = hay.len();
    let mut k: usize = 0;
    while k < n
        invariant
            n == needle@.len(),
            hl == hay@.len(),
            i + n <= hay@.len(),
            k <= n,
            forall|m: int| 0 <= m < k ==> hay@[i + m] == needle@[m],
        decreases n - k,
    {
        if hay[i + k] != needle[k] {
            assert(hay@.subrange(i as int, i + n)[k as int] != needle@[k as int]);
            return false;
        }
        k = k + 1;
    }
    assert(hay@.subrange(i as int, i + n) =~= needle@);
    true
}

/// The index of the first occurrence of `needle` in `hay` at or after `from`.
pub fn find_after_exec(hay: &Vec<char>, needle: &Vec<char>, from: usize) -> (r: Option<usize>)
    requires
        from <= hay@.len(),
        needle@.len() > 0,
    ensures
        r is None <==> find_after(hay@, needle@, from as int) is None,
        r matches Some(k) ==> find_after(hay@, needle@, from as int) == Some(k as int),
        r matches Some(k) ==> from <= k && k + needle@.len() <= hay@.len(),
        hay@.len() <= usize::MAX,
{
    let ghost tail = hay@.subrange(from as int, hay@.len() as int);
    let len = hay.len();
    let n = needle.len();
    if n > len - from {
        assert forall|i: int| !occurs_at(tail, needle@, i) by {}
        return None;
    }
    let mut i: usize = from;
    while i <= len - n
        invariant
            from <= i <= len - n + 1,
            len == hay@.len(),
            n == needle@.len(),
            n > 0,
            n <= len - from,
            tail == hay@.subrange(from as int, len as int),
            forall|j: int| 0 <= j < i - from ==> !occurs_at(tail, needle@, j),
        decreases len - i,
    {
        if occurs_at_exec(hay, needle, i) {
            assert(tail.subrange(i - from, i - from + n) =~= hay@.subrange(i as int, i + n));
            assert(first_occurrence(tail, needle@, i - from));
            let ghost c = choose|k: int| first_occurrence(tail, needle@, k);
            proof {
                lemma_first_occurrence_unique(tail, needle@, c, i - from);
            }
            return Some(i);
        }
        assert(tail.subrange(i - from, i - from + n) =~= hay@.subrange(i as int, i + n));
        i = i + 1;
    }
    assert forall|k: int| !first_occurrence(tail, needle@, k) by {
        if first_occurrence(tail, needle@, k) {
            assert(k < i - from);
        }
    }
    None
}


/// The marker attribute of a card's content block.
pub open spec fn content_marker() -> Seq<char> {
    "class=\"plato-content\""@
}

/// The bounds `[start, end)` of the content block of an HTML card: the text
/// after the first `>` that follows the first content marker, up to the first
/// `</div>` after that.
pub open spec fn content_block(html: Seq<char>) -> Option<(int, int)> {
    match find(html, content_marker()) {
        None => None,
        Some(m) => match find_after(html, ">"@, m) {
            None => None,
            Some(g) => match find_after(html, "</div>"@, g + 1) {
                None => None,
                Some(e) => Some((g + 1, e)),
            },
        },
    }
}

/// The trimmed text of an HTML card's content block, if the card has one.
pub open spec fn content_payload(html: Seq<char>) -> Option<Seq<char>> {
    match content_block(html) {
        None => None,
        Some((s, e)) => Some(trim(html.subrange(s, e))),
    }
}

/// A non-empty needle to search for, as characters.
pub fn needle(s: &str) -> (v: Vec<char>)
    requires
        s@.len() > 0,
    ensures
        v@ == s@,
        v@.len() > 0,
{
    chars_of(s)
}

/// The bounds of the content block of an HTML card given as characters.
pub fn content_block_exec(html: &Vec<char>) -> (r: Option<(usize, usize)>)
    ensures
        r matches Some(b) ==> b.0 <= b.1 <= html@.len(),
        r is None <==> content_block(html@) is None,
        r matches Some(b) ==> content_block(html@) == Some((b.0 as int, b.1 as int)),
{
    proof {
        reveal_strlit("class=\"plato-content\"");
        reveal_strlit(">");
        reveal_strlit("</div>");
    }
    let marker = needle("class=\"plato-content\"");
    let gt = needle(">");
    let close = needle("</div>");
    assert(html@.subrange(0, html@.len() as int) =~= html@);
    let m = match find_after_exec(html, &marker, 0) {
        Some(m) => m,
        None => return None,
    };
    let g = match find_after_exec(html, &gt, m) {
        Some(g) => g,
        None => return None,
    };
    let e = match find_after_exec(html, &close, g + 1) {
        Some(e) => e,
        None => return None,
    };
    Some((g + 1, e))
}

/// Locates the text of a card's content block, without its surrounding
/// whitespace.
pub fn extract_plato_content_payload(html: &str) -> (r: Option<&str>)
    ensures
        r matches Some(t) ==> content_payload(html@) == Some(t@),
        r is None ==> content_payload(html@) is None,
{
    let chars = chars_of(html);
    match content_block_exec(&chars) {
        None => None,
        Some((s, e)) => {
            let (a, b) = trim_bounds(&chars, s, e);
            Some(html.substring_char(a, b))
        },
    }
}


/// The ASCII digit for `d`, which is below ten.
pub open spec fn digit_char(d: nat) -> char {
    ((48 + d) as u8) as char
}

/// The decimal rendering of `n`, as `Display` gives it for an unsigned integer.
pub open spec fn decimal(n: nat) -> Seq<char>
    decreases n,
{
    if n < 10 {
        seq![digit_char(n)]
    } else {
        decimal(n / 10).push(digit_char(n % 10))
    }
}

/// Appends the decimal rendering of `n` to `out`.
pub fn push_decimal(out: &mut Vec<char>, n: u64)
    ensures
        final(out)@ == old(out)@ + decimal(n as nat),
    decreases n,
{
    if n >= 10 {
        push_decimal(out, n / 10);
    }
    let d: u8 = (n % 10) as u8;
    out.push((48u8 + d) as char);
    proof {
        if n >= 10 {
            assert(decimal(n as nat) == decimal((n / 10) as nat).push(digit_char((n % 10) as nat)));
        }
    }
}

} // verus!
