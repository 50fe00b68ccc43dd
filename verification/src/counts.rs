//! Line counts: of one content, between two contents, and out of a `diff --git` text.
//!
//! Counts are 32-bit; a count past that width keeps its low bits.

use vstd::hash_map::StringHashMap;
use vstd::prelude::*;
use vstd::string::*;

use crate::outside::{self, LineChange};
use crate::text;

verus! {

broadcast use vstd::string::group_string_axioms;

// --- one content ---------------------------------------------------------------

/// Whether `bytes` holds a NUL byte, the mark of a binary content.
pub open spec fn is_binary(bytes: Seq<u8>) -> bool {
    bytes.contains(0u8)
}

/// How many line feeds `bytes` holds.
pub open spec fn newlines(bytes: Seq<u8>) -> nat
    decreases bytes.len(),
{
    if bytes.len() == 0 {
        0
    } else {
        newlines(bytes.drop_last()) + if bytes.last() == 10 {
            1nat
        } else {
            0nat
        }
    }
}

/// How many lines `bytes` has: one for each line feed, one more for an unterminated last
/// line, none for a binary content.
pub open spec fn line_total(bytes: Seq<u8>) -> nat {
    if bytes.len() == 0 || is_binary(bytes) {
        0
    } else if bytes.last() == 10 {
        newlines(bytes)
    } else {
        newlines(bytes) + 1
    }
}

/// Whether `bytes` holds a NUL byte.
pub(crate) fn holds_nul(bytes: &[u8]) -> (b: bool)
    ensures
        b == is_binary(bytes@),
{
    let mut i: usize = 0;
    while i < bytes.len()
        invariant
            i <= bytes.len(),
            forall|j: int| 0 <= j < i ==> bytes@[j] != 0,
        decreases bytes.len() - i,
    {
        if bytes[i] == 0 {
            return true;
        }
        i = i + 1;
    }
    false
}

/// Lines in `bytes`: newline count plus an unterminated final line; 0 for empty or binary (a
/// NUL byte).
pub fn text_line_count(bytes: &[u8]) -> (n: u32)
    ensures
        n == line_total(bytes@) as u32,
{
    if bytes.len() == 0 || holds_nul(bytes) {
        return 0;
    }
    let mut count: usize = 0;
    let mut i: usize = 0;
    while i < bytes.len()
        invariant
            i <= bytes.len(),
            count <= i,
            count == newlines(bytes@.take(i as int)),
        decreases bytes.len() - i,
    {
        assert(bytes@.take(i + 1).drop_last() =~= bytes@.take(i as int));
        if bytes[i] == 10 {
            count = count + 1;
        }
        i = i + 1;
    }
    assert(bytes@.take(i as int) =~= bytes@);
    if bytes[bytes.len() - 1] == 10 {
        return count as u32;
    }
    assert(count < bytes.len()) by {
        lemma_newlines_bound(bytes@.drop_last());
    }
    (count + 1) as u32
}

proof fn lemma_newlines_bound(bytes: Seq<u8>)
    ensures
        newlines(bytes) <= bytes.len(),
    decreases bytes.len(),
{
    if bytes.len() > 0 {
        lemma_newlines_bound(bytes.drop_last());
    }
}

// --- two contents ----------------------------------------------------------------

/// Added and removed lines of an edit script.
pub open spec fn change_counts(changes: Seq<LineChange>) -> (u32, u32) {
    (outside::tagged(changes, LineChange::Added) as u32, outside::tagged(changes, LineChange::Removed) as u32)
}

/// Added and removed lines between two contents; none where either is binary.
pub open spec fn counts_between(old: Seq<u8>, new: Seq<u8>) -> (u32, u32) {
    if is_binary(old) || is_binary(new) {
        (0, 0)
    } else {
        change_counts(outside::line_changes(outside::lossy(old), outside::lossy(new)))
    }
}

/// Added and removed lines of an edit script.
pub fn count_changes(changes: &Vec<LineChange>) -> (n: (u32, u32))
    ensures
        n == change_counts(changes@),
{
    let mut added: usize = 0;
    let mut removed: usize = 0;
    let mut i: usize = 0;
    while i < changes.len()
        invariant
            i <= changes.len(),
            added <= i,
            removed <= i,
            added == outside::tagged(changes@.take(i as int), LineChange::Added),
            removed == outside::tagged(changes@.take(i as int), LineChange::Removed),
        decreases changes.len() - i,
    {
        assert(changes@.take(i + 1).drop_last() =~= changes@.take(i as int));
        match changes[i] {
            LineChange::Added => {
                added = added + 1;
            },
            LineChange::Removed => {
                removed = removed + 1;
            },
            LineChange::Kept => {},
        }
        i = i + 1;
    }
    assert(changes@.take(i as int) =~= changes@);
    (added as u32, removed as u32)
}

/// How many bytes of `bytes` can end a line: line feeds and carriage returns.
pub open spec fn line_ends(bytes: Seq<u8>) -> nat
    decreases bytes.len(),
{
    if bytes.len() == 0 {
        0
    } else {
        line_ends(bytes.drop_last()) + if bytes.last() == 10 || bytes.last() == 13 {
            1nat
        } else {
            0nat
        }
    }
}

/// Whether the lines of two contents can be numbered in 32 bits: one of them is binary, so that none
/// is, or they have no more lines together than there are numbers, or neither has more bytes.
pub open spec fn countable(old: Seq<u8>, new: Seq<u8>) -> bool {
    ||| is_binary(old)
    ||| is_binary(new)
    ||| line_ends(old) + line_ends(new) + 2 <= u32::MAX
    ||| old.len() <= u32::MAX && new.len() <= u32::MAX
}

fn count_line_ends(bytes: &[u8]) -> (n: usize)
    ensures
        n == line_ends(bytes@),
{
    let mut count: usize = 0;
    let mut i: usize = 0;
    while i < bytes.len()
        invariant
            i <= bytes.len(),
            count <= i,
            count == line_ends(bytes@.take(i as int)),
        decreases bytes.len() - i,
    {
        assert(bytes@.take(i + 1).drop_last() =~= bytes@.take(i as int));
        if bytes[i] == 10 || bytes[i] == 13 {
            count = count + 1;
        }
        i = i + 1;
    }
    assert(bytes@.take(i as int) =~= bytes@);
    count
}

/// Whether the lines of two contents can be numbered in 32 bits.
pub fn can_count(old: &[u8], new: &[u8]) -> (b: bool)
    ensures
        b == countable(old@, new@),
{
    if (old.len() as u64 <= 0xffff_ffff && new.len() as u64 <= 0xffff_ffff) || holds_nul(old)
        || holds_nul(new) {
        return true;
    }
    let a = count_line_ends(old) as u64;
    let b = count_line_ends(new) as u64;
    a <= 0xffff_ffff && b <= 0xffff_ffff && a + b + 2 <= 0xffff_ffff
}

/// Whether `bytes` is plain text: without a NUL and without a carriage return.
pub open spec fn plain_text(bytes: Seq<u8>) -> bool {
    !is_binary(bytes) && !bytes.contains(13u8)
}

/// `(additions, deletions)` between two contents. Binary content counts `(0, 0)`, and so does a
/// content against itself. Of other contents no more lines are added than the new one has, no more
/// removed than the old one has, and the two numbers differ by as much as the contents differ in
/// lines; of plain texts those are the lines that `text_line_count` counts.
pub fn text_counts(old: &[u8], new: &[u8]) -> (n: (u32, u32))
    requires
        countable(old@, new@),
    ensures
        n == counts_between(old@, new@),
        old@ == new@ ==> n == (0u32, 0u32),
        !is_binary(old@) && !is_binary(new@) ==> {
            &&& n.0 <= outside::pieces(outside::lossy(new@))
            &&& n.1 <= outside::pieces(outside::lossy(old@))
            &&& n.0 + outside::pieces(outside::lossy(old@)) == n.1 + outside::pieces(
                outside::lossy(new@),
            )
        },
        plain_text(old@) && plain_text(new@) ==> {
            &&& n.0 <= line_total(new@)
            &&& n.1 <= line_total(old@)
            &&& n.0 + line_total(old@) == n.1 + line_total(new@)
        },
{
    if holds_nul(old) || holds_nul(new) {
        return (0, 0);
    }
    let old_text = outside::lossy_text(old);
    let new_text = outside::lossy_text(new);
    proof {
        lemma_pieces(old_text@);
        lemma_pieces(new_text@);
        lemma_lines_of(old@, old_text@);
        lemma_lines_of(new@, new_text@);
    }
    let changes = outside::diff_lines(old_text.as_str(), new_text.as_str());
    count_changes(&changes)
}

/// Whether a character ends a line: a line feed, or with `cr` a carriage return too.
spec fn ends_line(c: char, cr: bool) -> bool {
    c == '\n' || (cr && c == '\r')
}

/// How many characters of `s` end a line.
spec fn ends_in(s: Seq<char>, cr: bool) -> nat
    decreases s.len(),
{
    if s.len() == 0 {
        0
    } else {
        ends_in(s.drop_first(), cr) + if ends_line(s[0], cr) {
            1nat
        } else {
            0nat
        }
    }
}

proof fn lemma_ends_push(s: Seq<char>, c: char, cr: bool)
    ensures
        ends_in(s.push(c), cr) == ends_in(s, cr) + if ends_line(c, cr) {
            1nat
        } else {
            0nat
        },
    decreases s.len(),
{
    if s.len() == 0 {
        reveal_with_fuel(ends_in, 2);
        assert(s.push(c).drop_first() =~= s);
    } else {
        assert(s.push(c).drop_first() =~= s.drop_first().push(c));
        lemma_ends_push(s.drop_first(), c, cr);
    }
}

/// What ends a line is ASCII.
proof fn lemma_ends_ascii(s: Seq<char>, cr: bool)
    ensures
        ends_in(outside::ascii_part(s), cr) == ends_in(s, cr),
    decreases s.len(),
{
    if s.len() > 0 {
        let rest = s.drop_last();
        lemma_ends_ascii(rest, cr);
        assert(s =~= rest.push(s.last()));
        lemma_ends_push(rest, s.last(), cr);
        lemma_ends_push(outside::ascii_part(rest), s.last(), cr);
    }
}

proof fn lemma_ends_bytes(bytes: Seq<u8>, cr: bool)
    ensures
        ends_in(outside::ascii_text(bytes), cr) == if cr {
            line_ends(bytes)
        } else {
            newlines(bytes)
        },
    decreases bytes.len(),
{
    if bytes.len() > 0 {
        lemma_ends_bytes(bytes.drop_last(), cr);
        lemma_ends_push(outside::ascii_text(bytes.drop_last()), bytes.last() as char, cr);
    }
}

/// Without carriage returns, the line feeds are all that ends a line; with one they are not.
proof fn lemma_returns(s: Seq<char>)
    ensures
        ends_in(s, true) >= ends_in(s, false),
        s.contains('\r') ==> ends_in(s, true) > ends_in(s, false),
    decreases s.len(),
{
    if s.len() > 0 {
        lemma_returns(s.drop_first());
        if s.contains('\r') && s[0] != '\r' {
            let i = s.index_of('\r');
            assert(s.drop_first()[i - 1] == '\r');
        }
    }
}

proof fn lemma_no_returns(bytes: Seq<u8>)
    requires
        !bytes.contains(13u8),
    ensures
        line_ends(bytes) == newlines(bytes),
    decreases bytes.len(),
{
    if bytes.len() > 0 {
        let rest = bytes.drop_last();
        assert(bytes[bytes.len() - 1] != 13);
        assert forall|i: int| 0 <= i < rest.len() implies rest[i] != 13 by {
            assert(bytes[i] != 13);
        }
        lemma_no_returns(rest);
    }
}

/// The lines of a decoded content: at most one more than the bytes that can end one, and those of
/// its bytes where it is plain.
proof fn lemma_lines_of(bytes: Seq<u8>, s: Seq<char>)
    requires
        outside::ascii_part(s) == outside::ascii_text(bytes),
        s.len() <= bytes.len(),
        bytes.len() > 0 ==> s.len() > 0 && (outside::is_ascii(s.last()) <==> bytes.last() < 128),
    ensures
        outside::pieces(s) <= line_ends(bytes) + 1,
        plain_text(bytes) ==> outside::pieces(s) == line_total(bytes),
{
    lemma_ends_ascii(s, true);
    lemma_ends_bytes(bytes, true);
    lemma_pieces_by_ends(s);
    if plain_text(bytes) {
        lemma_ends_ascii(s, false);
        lemma_ends_bytes(bytes, false);
        lemma_no_returns(bytes);
        lemma_returns(s);
        lemma_pieces_by_feeds(s);
        if bytes.len() > 0 && bytes.last() < 128 {
            assert(outside::ascii_part(s).last() == s.last());
            assert(outside::ascii_text(bytes).last() == bytes.last() as char);
        }
    }
}

/// The first line of a text, where another one follows, ends with what ends a line.
proof fn lemma_any_first_piece(s: Seq<char>)
    requires
        s.len() > 0,
    ensures
        1 <= outside::piece_len(s) <= s.len(),
        outside::piece_len(s) < s.len() ==> ends_in(s.skip(outside::piece_len(s) as int), true) + 1
            <= ends_in(s, true),
    decreases s.len(),
{
    assert(s.skip(1) =~= s.drop_first());
    if s.len() > 1 && s[0] == '\r' && s[1] == '\n' {
        assert(s.skip(2) =~= s.skip(1).drop_first());
        assert(ends_in(s.skip(1), true) == ends_in(s.skip(2), true) + 1);
    } else if s.len() > 1 && s[0] != '\n' && s[0] != '\r' {
        lemma_any_first_piece(s.skip(1));
        let n = outside::piece_len(s.skip(1)) as int;
        assert(s.skip(1).skip(n) =~= s.skip(n + 1));
    }
}

proof fn lemma_pieces_by_ends(s: Seq<char>)
    ensures
        outside::pieces(s) <= ends_in(s, true) + 1,
    decreases s.len(),
{
    if s.len() > 0 {
        lemma_any_first_piece(s);
        if outside::piece_len(s) < s.len() {
            lemma_pieces_by_ends(s.skip(outside::piece_len(s) as int));
        }
    }
}

/// The first line of a text without carriage returns ends at its first line feed.
proof fn lemma_first_piece(s: Seq<char>)
    requires
        s.len() > 0,
        !s.contains('\r'),
    ensures
        1 <= outside::piece_len(s) <= s.len(),
        outside::piece_len(s) < s.len() ==> s[outside::piece_len(s) - 1] == '\n',
        ends_in(s, false) == ends_in(s.skip(outside::piece_len(s) as int), false) + if s[outside::piece_len(s) - 1]
            == '\n' {
            1nat
        } else {
            0nat
        },
    decreases s.len(),
{
    assert(s.skip(1) =~= s.drop_first());
    assert(s[0] != '\r');
    if s.len() > 1 && s[0] != '\n' {
        assert(!s.skip(1).contains('\r')) by {
            assert forall|i: int| 0 <= i < s.skip(1).len() implies s.skip(1)[i] != '\r' by {
                assert(s[i + 1] != '\r');
            }
        }
        lemma_first_piece(s.skip(1));
        let n = outside::piece_len(s.skip(1)) as int;
        assert(s.skip(1).skip(n) =~= s.skip(n + 1));
    }
}

/// A text without carriage returns has a line for each line feed, and one more where its last line
/// is unterminated.
proof fn lemma_pieces_by_feeds(s: Seq<char>)
    requires
        !s.contains('\r'),
    ensures
        outside::pieces(s) == ends_in(s, false) + if s.len() > 0 && s.last() != '\n' {
            1nat
        } else {
            0nat
        },
    decreases s.len(),
{
    if s.len() > 0 {
        lemma_first_piece(s);
        let n = outside::piece_len(s) as int;
        let rest = s.skip(n);
        if n < s.len() {
            assert(!rest.contains('\r')) by {
                assert forall|i: int| 0 <= i < rest.len() implies rest[i] != '\r' by {
                    assert(s[n + i] != '\r');
                }
            }
            lemma_pieces_by_feeds(rest);
            assert(rest.last() == s.last());
        } else {
            assert(rest =~= Seq::<char>::empty());
        }
    }
}

proof fn lemma_pieces(s: Seq<char>)
    ensures
        outside::pieces(s) <= s.len(),
    decreases s.len(),
{
    if s.len() > 0 && outside::piece_len(s) < s.len() {
        lemma_piece_len(s);
        lemma_pieces(s.skip(outside::piece_len(s) as int));
    }
}

proof fn lemma_piece_len(s: Seq<char>)
    ensures
        outside::piece_len(s) >= 1,
    decreases s.len(),
{
}

// --- a diff text -------------------------------------------------------------------

pub open spec fn is_boundary(line: Seq<char>) -> bool {
    "diff --git "@.is_prefix_of(line)
}

pub open spec fn is_hunk_mark(line: Seq<char>) -> bool {
    "@@"@.is_prefix_of(line)
}

/// How many lines of a file's section stand before its first hunk.
pub open spec fn header_len(section: Seq<Seq<char>>) -> nat
    decreases section.len(),
{
    if section.len() == 0 {
        0
    } else {
        let n = header_len(section.drop_last());
        if n == section.len() - 1 && !is_hunk_mark(section.last()) {
            n + 1
        } else {
            n
        }
    }
}

/// The path that a header counts under, and the old name it has in hand: the new side's name,
/// or the old side's where the new side is `/dev/null`.
pub open spec fn header_names(header: Seq<Seq<char>>) -> (Option<Seq<char>>, Option<Seq<char>>)
    decreases header.len(),
{
    if header.len() == 0 {
        (None, None)
    } else {
        let (file, old) = header_names(header.drop_last());
        let line = header.last();
        if let Some(name) = text::after_prefix(line, "--- a/"@) {
            (file, Some(name))
        } else if let Some(name) = text::after_prefix(line, "+++ b/"@) {
            (Some(name), old)
        } else if "+++ /dev/null"@.is_prefix_of(line) {
            (old, None)
        } else {
            (file, old)
        }
    }
}

/// How many of `body`'s lines start with `lead`.
pub open spec fn led_by(body: Seq<Seq<char>>, lead: char) -> nat
    decreases body.len(),
{
    if body.len() == 0 {
        0
    } else {
        led_by(body.drop_last(), lead) + if body.last().len() > 0 && body.last()[0] == lead {
            1nat
        } else {
            0nat
        }
    }
}

/// The counts with one file's section recorded.
pub open spec fn with_section(
    counts: Map<Seq<char>, (u32, u32)>,
    section: Seq<Seq<char>>,
) -> Map<Seq<char>, (u32, u32)> {
    let n = header_len(section) as int;
    let body = section.skip(n);
    match header_names(section.take(n)).0 {
        Some(path) => counts.insert(path, (led_by(body, '+') as u32, led_by(body, '-') as u32)),
        None => counts,
    }
}

/// How many lines stand before the next `diff --git` line.
pub open spec fn section_len(ls: Seq<Seq<char>>) -> nat
    decreases ls.len(),
{
    if ls.len() == 0 || is_boundary(ls[0]) {
        0
    } else {
        1 + section_len(ls.skip(1))
    }
}

/// The counts with every section of `ls` recorded, in order.
pub open spec fn with_sections(
    counts: Map<Seq<char>, (u32, u32)>,
    ls: Seq<Seq<char>>,
) -> Map<Seq<char>, (u32, u32)>
    decreases ls.len(),
{
    let n = section_len(ls) as int;
    if n >= ls.len() {
        with_section(counts, ls)
    } else {
        with_sections(with_section(counts, ls.take(n)), ls.skip(n + 1))
    }
}

/// Per-file `(additions, deletions)` of a `diff --git` text. Lines inside the hunks count, under
/// the new path, or the old path for a deletion; headers stand only between a `diff --git` line
/// and its first `@@`.
pub open spec fn counts_of(out: Seq<char>) -> Map<Seq<char>, (u32, u32)> {
    with_sections(Map::empty(), text::lines(out))
}

proof fn lemma_section_len_is(ls: Seq<Seq<char>>, n: int)
    requires
        0 <= n <= ls.len(),
        n < ls.len() ==> is_boundary(ls[n]),
        forall|i: int| 0 <= i < n ==> !is_boundary(#[trigger] ls[i]),
    ensures
        section_len(ls) == n,
    decreases ls.len(),
{
    if n > 0 {
        assert(!is_boundary(ls[0]));
        assert forall|i: int| 0 <= i < n - 1 implies !is_boundary(#[trigger] ls.skip(1)[i]) by {
            assert(ls.skip(1)[i] == ls[i + 1]);
        }
        lemma_section_len_is(ls.skip(1), n - 1);
    }
}

proof fn lemma_header_len(section: Seq<Seq<char>>)
    ensures
        header_len(section) <= section.len(),
    decreases section.len(),
{
    if section.len() > 0 {
        lemma_header_len(section.drop_last());
    }
}

/// Per-file `(additions, deletions)` from `sl diff --git` output.
pub fn diff_counts(out: &str) -> (map: StringHashMap<(u32, u32)>)
    ensures
        map@ == counts_of(out@),
{
    let ls = text::split_lines(out);
    let ghost all = ls.deep_view();
    let mut map: StringHashMap<(u32, u32)> = StringHashMap::new();
    let mut file: Option<String> = None;
    let mut old_name: Option<String> = None;
    let mut in_hunk = false;
    let mut add: usize = 0;
    let mut del: usize = 0;
    let mut i: usize = 0;
    let ghost mut start: int = 0;
    assert(all.skip(0) =~= all);
    assert(all.subrange(0, 0) =~= Seq::<Seq<char>>::empty());
    while i < ls.len()
        invariant
            all == ls.deep_view(),
            0 <= start <= i <= ls.len(),
            forall|j: int| start <= j < i ==> !is_boundary(#[trigger] all[j]),
            with_sections(map@, all.skip(start)) == with_sections(Map::empty(), all),
            section_state(
                all.subrange(start, i as int),
                file.deep_view(),
                old_name.deep_view(),
                in_hunk,
                add,
                del,
            ),
        decreases ls.len() - i,
    {
        let ghost section = all.subrange(start, i as int);
        let ghost line_view = all[i as int];
        let line = ls[i].as_str();
        assert(line@ == line_view);
        proof {
            lemma_header_len(section);
            assert(all.subrange(start, i + 1) =~= section.push(line_view));
            assert(section.push(line_view).drop_last() =~= section);
        }
        if text::has_prefix(line, "diff --git ") {
            proof {
                let rest = all.skip(start);
                assert forall|j: int| 0 <= j < i - start implies !is_boundary(
                    #[trigger] rest[j],
                ) by {
                    assert(rest[j] == all[start + j]);
                }
                lemma_section_len_is(rest, i - start);
                assert(rest.take(i - start) =~= section);
                assert(rest.skip(i - start + 1) =~= all.skip(i + 1));
                start = i + 1;
                assert(all.subrange(start, start) =~= Seq::<Seq<char>>::empty());
            }
            if let Some(path) = file {
                map.insert(path, (add as u32, del as u32));
            }
            file = None;
            old_name = None;
            in_hunk = false;
            add = 0;
            del = 0;
        } else if !in_hunk {
            proof {
                let n = header_len(section) as int;
                assert(section.take(n) =~= section);
                assert(section.push(line_view).take(n) =~= section);
                assert(section.push(line_view).take(n + 1) =~= section.push(line_view));
                lemma_marks_differ(line_view);
            }
            if let Some(old) = text::strip(line, "--- a/") {
                old_name = Some(old);
            } else if let Some(new) = text::strip(line, "+++ b/") {
                file = Some(new);
            } else if text::has_prefix(line, "+++ /dev/null") {
                file = old_name;
                old_name = None;
            } else if text::has_prefix(line, "@@") {
                in_hunk = true;
                proof {
                    let n = header_len(section) as int;
                    reveal_strlit("@@");
                    assert(section.push(line_view).skip(n) =~= seq![line_view]);
                    assert(seq![line_view].drop_last() =~= Seq::<Seq<char>>::empty());
                    assert(line_view[0] == "@@"@[0]);
                    reveal_with_fuel(led_by, 2);
                }
            }
        } else {
            let lead = first_char(line);
            proof {
                let n = header_len(section) as int;
                let body = section.skip(n);
                assert(section.push(line_view).skip(n) =~= body.push(line_view));
                assert(body.push(line_view).drop_last() =~= body);
                assert(section.push(line_view).take(n) =~= section.take(n));
            }
            match lead {
                Some('+') => {
                    add = add + 1;
                },
                Some('-') => {
                    del = del + 1;
                },
                _ => {},
            }
        }
        i = i + 1;
    }
    proof {
        let rest = all.skip(start);
        assert forall|j: int| 0 <= j < i - start implies !is_boundary(#[trigger] rest[j]) by {
            assert(rest[j] == all[start + j]);
        }
        lemma_section_len_is(rest, i - start);
        assert(rest =~= all.subrange(start, i as int));
    }
    if let Some(path) = file {
        map.insert(path, (add as u32, del as u32));
    }
    map
}

/// What the counting loop knows of the section it is in.
spec fn section_state(
    section: Seq<Seq<char>>,
    file: Option<Seq<char>>,
    old_name: Option<Seq<char>>,
    in_hunk: bool,
    add: usize,
    del: usize,
) -> bool {
    let n = header_len(section) as int;
    let body = section.skip(n);
    &&& in_hunk == (n < section.len())
    &&& header_names(section.take(n)).0 == file
    &&& !in_hunk ==> header_names(section.take(n)).1 == old_name
    &&& add == led_by(body, '+')
    &&& del == led_by(body, '-')
    &&& add <= section.len()
    &&& del <= section.len()
}

/// A hunk mark is no file name line.
proof fn lemma_marks_differ(line: Seq<char>)
    ensures
        is_hunk_mark(line) ==> {
            &&& !"--- a/"@.is_prefix_of(line)
            &&& !"+++ b/"@.is_prefix_of(line)
            &&& !"+++ /dev/null"@.is_prefix_of(line)
        },
{
    reveal_strlit("@@");
    reveal_strlit("--- a/");
    reveal_strlit("+++ b/");
    reveal_strlit("+++ /dev/null");
    if is_hunk_mark(line) {
        assert(line[0] == "@@"@[0]);
        assert("--- a/"@.is_prefix_of(line) ==> line[0] == "--- a/"@[0]);
        assert("+++ b/"@.is_prefix_of(line) ==> line[0] == "+++ b/"@[0]);
        assert("+++ /dev/null"@.is_prefix_of(line) ==> line[0] == "+++ /dev/null"@[0]);
    }
}

fn first_char(s: &str) -> (c: Option<char>)
    ensures
        c == (if s@.len() > 0 {
            Some(s@[0])
        } else {
            None
        }),
{
    let v = text::chars_of(s);
    if v.len() > 0 {
        Some(v[0])
    } else {
        None
    }
}

// --- joined diffs ----------------------------------------------------------------------------------

proof fn lemma_section_len_joined(xs: Seq<Seq<char>>, ys: Seq<Seq<char>>)
    requires
        ys.len() > 0,
        is_boundary(ys[0]),
    ensures
        section_len(xs + ys) == section_len(xs),
        section_len(xs) <= xs.len(),
    decreases xs.len(),
{
    let all = xs + ys;
    if xs.len() == 0 {
        assert(all =~= ys);
    } else if !is_boundary(xs[0]) {
        assert(all.skip(1) =~= xs.skip(1) + ys);
        lemma_section_len_joined(xs.skip(1), ys);
    }
}

proof fn lemma_sections_joined(
    counts: Map<Seq<char>, (u32, u32)>,
    xs: Seq<Seq<char>>,
    ys: Seq<Seq<char>>,
)
    requires
        ys.len() > 0,
        is_boundary(ys[0]),
    ensures
        with_sections(counts, xs + ys) == with_sections(with_sections(counts, xs), ys),
    decreases xs.len(),
{
    let n = section_len(xs) as int;
    let all = xs + ys;
    lemma_section_len_joined(xs, ys);
    assert(all.take(n) =~= xs.take(n));
    if n >= xs.len() {
        let done = with_section(counts, xs);
        assert(xs.take(n) =~= xs);
        assert(all.skip(n + 1) =~= ys.skip(1));
        // The section before the first `diff --git` line of `ys` is empty.
        let none = ys.take(0);
        assert(none =~= Seq::<Seq<char>>::empty());
        assert(none.take(0) =~= Seq::<Seq<char>>::empty());
        assert(with_section(done, none) == done);
    } else {
        assert(all.skip(n + 1) =~= xs.skip(n + 1) + ys);
        lemma_sections_joined(with_section(counts, xs.take(n)), xs.skip(n + 1), ys);
    }
}

proof fn lemma_sections_over(
    counts: Map<Seq<char>, (u32, u32)>,
    more: Map<Seq<char>, (u32, u32)>,
    ls: Seq<Seq<char>>,
)
    ensures
        with_sections(counts.union_prefer_right(more), ls) == counts.union_prefer_right(
            with_sections(more, ls),
        ),
    decreases ls.len(),
{
    let n = section_len(ls) as int;
    let section = if n >= ls.len() {
        ls
    } else {
        ls.take(n)
    };
    let both = counts.union_prefer_right(more);
    assert(with_section(both, section) =~= counts.union_prefer_right(with_section(more, section)));
    if n < ls.len() {
        lemma_sections_over(counts, with_section(more, section), ls.skip(n + 1));
    }
}

/// The counts of a diff behind another are the counts of both; of a path in both, those of the later
/// one.
pub proof fn law_counts_of_joined_diffs(first: Seq<char>, second: Seq<char>)
    requires
        first.len() == 0 || first.last() == '\n',
        "diff --git "@.is_prefix_of(second),
    ensures
        counts_of(first + second) == counts_of(first).union_prefer_right(counts_of(second)),
{
    let xs = text::lines(first);
    let ys = text::lines(second);
    text::lemma_lines_joined(first, second);
    lemma_first_line(second);
    lemma_sections_joined(Map::empty(), xs, ys);
    let none = Map::<Seq<char>, (u32, u32)>::empty();
    let done = counts_of(first);
    lemma_sections_over(done, none, ys);
    assert(done.union_prefer_right(none) =~= done);
}

/// A text that starts as a `diff --git` line has one for its first line.
proof fn lemma_first_line(s: Seq<char>)
    requires
        is_boundary(s),
    ensures
        text::lines(s).len() > 0,
        is_boundary(text::lines(s)[0]),
{
    reveal_strlit("diff --git ");
    let mark = "diff --git "@;
    let end = text::line_end(s) as int;
    text::lemma_line_end(s);
    assert forall|i: int| 0 <= i < mark.len() implies s[i] == mark[i] by {}
    if end < mark.len() {
        assert(s[end] == mark[end]);
    }
    if end < s.len() {
        let line = text::without_cr(s.take(end));
        assert(text::lines(s)[0] == line);
        assert(s.take(end)[mark.len() - 1] == mark[mark.len() - 1]);
        assert(line.len() >= mark.len()) by {
            if end == mark.len() {
                assert(s.take(end).last() == mark[mark.len() - 1]);
            }
        }
        assert(mark =~= line.take(mark.len() as int));
    }
}

// --- what the counts count ----------------------------------------------------------------------

/// The lines of a content are its line feeds, and one more where something follows the last of them;
/// a content with a NUL has none, nor has an empty one.
pub proof fn law_line_count_is_the_line_feeds(bytes: Seq<u8>)
    ensures
        bytes.contains(0u8) ==> line_total(bytes) == 0,
        bytes.len() == 0 ==> line_total(bytes) == 0,
        !bytes.contains(0u8) && bytes.len() > 0 ==> line_total(bytes) == bytes.filter(
            |b: u8| b == 10,
        ).len() + if bytes.last() == 10 {
            0nat
        } else {
            1nat
        },
{
    lemma_newlines_filter(bytes);
}

proof fn lemma_newlines_filter(bytes: Seq<u8>)
    ensures
        newlines(bytes) == bytes.filter(|b: u8| b == 10).len(),
    decreases bytes.len(),
{
    reveal(Seq::filter);
    if bytes.len() > 0 {
        lemma_newlines_filter(bytes.drop_last());
    }
}

proof fn lemma_tagged_filter(changes: Seq<LineChange>, tag: LineChange)
    ensures
        outside::tagged(changes, tag) == changes.filter(|c: LineChange| c == tag).len(),
    decreases changes.len(),
{
    reveal(Seq::filter);
    if changes.len() > 0 {
        lemma_tagged_filter(changes.drop_last(), tag);
    }
}

/// The counts between two contents are those of the line diff of their texts: as many additions as it
/// has added lines and as many deletions as it has removed ones. Where either content has a NUL
/// nothing is counted.
pub proof fn law_counts_are_the_added_and_removed_lines(old: Seq<u8>, new: Seq<u8>)
    ensures
        ({
            let changes = outside::line_changes(outside::lossy(old), outside::lossy(new));
            counts_between(old, new) == if old.contains(0u8) || new.contains(0u8) {
                (0u32, 0u32)
            } else {
                (
                    changes.filter(|c: LineChange| c == LineChange::Added).len() as u32,
                    changes.filter(|c: LineChange| c == LineChange::Removed).len() as u32,
                )
            }
        }),
{
    let changes = outside::line_changes(outside::lossy(old), outside::lossy(new));
    lemma_tagged_filter(changes, LineChange::Added);
    lemma_tagged_filter(changes, LineChange::Removed);
}

proof fn lemma_led_filter(body: Seq<Seq<char>>, lead: char)
    ensures
        led_by(body, lead) == body.filter(|l: Seq<char>| l.len() > 0 && l[0] == lead).len(),
    decreases body.len(),
{
    reveal(Seq::filter);
    if body.len() > 0 {
        lemma_led_filter(body.drop_last(), lead);
    }
}

proof fn lemma_header_len_is(section: Seq<Seq<char>>, n: int)
    requires
        0 <= n <= section.len(),
        forall|i: int| 0 <= i < n ==> !"@@"@.is_prefix_of(#[trigger] section[i]),
        n < section.len() ==> "@@"@.is_prefix_of(section[n]),
    ensures
        header_len(section) == n,
    decreases section.len(),
{
    if section.len() > 0 {
        let rest = section.drop_last();
        let k = if n == section.len() {
            n - 1
        } else {
            n
        };
        assert forall|i: int| 0 <= i < k implies !"@@"@.is_prefix_of(#[trigger] rest[i]) by {
            assert(rest[i] == section[i]);
        }
        if k < rest.len() {
            assert(rest[k] == section[k]);
        }
        lemma_header_len_is(rest, k);
        assert(section.last() == section[section.len() - 1]);
    }
}

/// A name line starts as one of three.
proof fn lemma_name_lines(line: Seq<char>)
    ensures
        "+++ b/"@.is_prefix_of(line) ==> !"--- a/"@.is_prefix_of(line) && !"+++ /dev/null"@.is_prefix_of(
            line,
        ),
        "+++ /dev/null"@.is_prefix_of(line) ==> !"--- a/"@.is_prefix_of(line),
{
    reveal_strlit("--- a/");
    reveal_strlit("+++ b/");
    reveal_strlit("+++ /dev/null");
    if "+++ b/"@.is_prefix_of(line) {
        assert(line[0] == "+++ b/"@[0] && line[4] == "+++ b/"@[4]);
        if "+++ /dev/null"@.is_prefix_of(line) {
            assert(line[4] == "+++ /dev/null"@[4]);
        }
    }
    if "+++ /dev/null"@.is_prefix_of(line) {
        assert(line[0] == "+++ /dev/null"@[0]);
    }
    if "--- a/"@.is_prefix_of(line) {
        assert(line[0] == "--- a/"@[0]);
    }
}

/// Whether no line from `from` on names a new side.
spec fn names_no_new(header: Seq<Seq<char>>, from: int) -> bool {
    forall|i: int|
        from <= i < header.len() ==> !"+++ b/"@.is_prefix_of(#[trigger] header[i])
            && !"+++ /dev/null"@.is_prefix_of(header[i])
}

proof fn lemma_named(header: Seq<Seq<char>>, k: int, path: Seq<char>)
    requires
        0 <= k < header.len(),
        header[k] == "+++ b/"@ + path,
        names_no_new(header, k + 1),
    ensures
        header_names(header).0 == Some(path),
    decreases header.len(),
{
    let rest = header.drop_last();
    let line = header.last();
    lemma_name_lines(line);
    if k == header.len() - 1 {
        assert("+++ b/"@ =~= line.take("+++ b/"@.len() as int));
        assert(line.skip("+++ b/"@.len() as int) =~= path);
    } else {
        assert(rest[k] == header[k]);
        assert forall|i: int| k + 1 <= i < rest.len() implies !"+++ b/"@.is_prefix_of(
            #[trigger] rest[i],
        ) && !"+++ /dev/null"@.is_prefix_of(rest[i]) by {
            assert(rest[i] == header[i]);
        }
        lemma_named(rest, k, path);
        assert(line == header[header.len() - 1]);
    }
}

proof fn lemma_old_name(header: Seq<Seq<char>>, j: int, path: Seq<char>)
    requires
        0 <= j < header.len(),
        header[j] == "--- a/"@ + path,
        forall|i: int|
            j < i < header.len() ==> !"--- a/"@.is_prefix_of(#[trigger] header[i])
                && !"+++ /dev/null"@.is_prefix_of(header[i]),
    ensures
        header_names(header).1 == Some(path),
    decreases header.len(),
{
    let rest = header.drop_last();
    let line = header.last();
    if j == header.len() - 1 {
        assert("--- a/"@ =~= line.take("--- a/"@.len() as int));
        assert(line.skip("--- a/"@.len() as int) =~= path);
    } else {
        assert(rest[j] == header[j]);
        assert forall|i: int| j < i < rest.len() implies !"--- a/"@.is_prefix_of(#[trigger] rest[i])
            && !"+++ /dev/null"@.is_prefix_of(rest[i]) by {
            assert(rest[i] == header[i]);
        }
        lemma_old_name(rest, j, path);
        assert(line == header[header.len() - 1]);
    }
}

proof fn lemma_named_old(header: Seq<Seq<char>>, j: int, k: int, path: Seq<char>)
    requires
        0 <= j < k < header.len(),
        header[j] == "--- a/"@ + path,
        forall|i: int|
            j < i < k ==> !"--- a/"@.is_prefix_of(#[trigger] header[i])
                && !"+++ /dev/null"@.is_prefix_of(header[i]),
        "+++ /dev/null"@.is_prefix_of(header[k]),
        names_no_new(header, k + 1),
    ensures
        header_names(header).0 == Some(path),
    decreases header.len(),
{
    let rest = header.drop_last();
    let line = header.last();
    lemma_name_lines(line);
    assert(rest[j] == header[j]);
    if k == header.len() - 1 {
        assert forall|i: int| j < i < rest.len() implies !"--- a/"@.is_prefix_of(#[trigger] rest[i])
            && !"+++ /dev/null"@.is_prefix_of(rest[i]) by {
            assert(rest[i] == header[i]);
        }
        lemma_old_name(rest, j, path);
    } else {
        assert(rest[k] == header[k]);
        assert forall|i: int| j < i < k implies !"--- a/"@.is_prefix_of(#[trigger] rest[i])
            && !"+++ /dev/null"@.is_prefix_of(rest[i]) by {
            assert(rest[i] == header[i]);
        }
        assert forall|i: int| k + 1 <= i < rest.len() implies !"+++ b/"@.is_prefix_of(
            #[trigger] rest[i],
        ) && !"+++ /dev/null"@.is_prefix_of(rest[i]) by {
            assert(rest[i] == header[i]);
        }
        lemma_named_old(rest, j, k, path);
        assert(line == header[header.len() - 1]);
    }
}

proof fn lemma_unnamed(header: Seq<Seq<char>>)
    requires
        names_no_new(header, 0),
    ensures
        header_names(header).0 is None,
    decreases header.len(),
{
    if header.len() > 0 {
        let rest = header.drop_last();
        assert forall|i: int| 0 <= i < rest.len() implies !"+++ b/"@.is_prefix_of(#[trigger] rest[i])
            && !"+++ /dev/null"@.is_prefix_of(rest[i]) by {
            assert(rest[i] == header[i]);
        }
        lemma_unnamed(rest);
        assert(header.last() == header[header.len() - 1]);
    }
}

/// The lines of one file's part of a diff: its `diff --git` line, the header, and the hunks from the
/// first `@@` line on.
pub open spec fn one_file(
    ls: Seq<Seq<char>>,
    first: Seq<char>,
    header: Seq<Seq<char>>,
    hunks: Seq<Seq<char>>,
) -> bool {
    &&& ls == seq![first] + header + hunks
    &&& "diff --git "@.is_prefix_of(first)
    &&& forall|i: int|
        0 <= i < header.len() ==> !"diff --git "@.is_prefix_of(#[trigger] header[i])
            && !"@@"@.is_prefix_of(header[i])
    &&& forall|i: int| 0 <= i < hunks.len() ==> !"diff --git "@.is_prefix_of(#[trigger] hunks[i])
    &&& hunks.len() > 0 ==> "@@"@.is_prefix_of(hunks[0])
}

proof fn lemma_one_file(
    out: Seq<char>,
    first: Seq<char>,
    header: Seq<Seq<char>>,
    hunks: Seq<Seq<char>>,
)
    requires
        one_file(text::lines(out), first, header, hunks),
    ensures
        counts_of(out) == (match header_names(header).0 {
            Some(path) => Map::<Seq<char>, (u32, u32)>::empty().insert(
                path,
                (led_by(hunks, '+') as u32, led_by(hunks, '-') as u32),
            ),
            None => Map::empty(),
        }),
{
    let ls = text::lines(out);
    let section = header + hunks;
    let none = ls.take(0);
    assert(none =~= Seq::<Seq<char>>::empty());
    assert(none.take(0) =~= Seq::<Seq<char>>::empty());
    assert(ls[0] == first);
    assert(ls.skip(1) =~= section);
    assert forall|i: int| 0 <= i < section.len() implies !is_boundary(#[trigger] section[i]) by {
        if i < header.len() {
            assert(section[i] == header[i]);
        } else {
            assert(section[i] == hunks[i - header.len()]);
        }
    }
    lemma_section_len_is(section, section.len() as int);
    let n = header.len() as int;
    assert forall|i: int| 0 <= i < n implies !"@@"@.is_prefix_of(#[trigger] section[i]) by {
        assert(section[i] == header[i]);
    }
    if n < section.len() {
        assert(section[n] == hunks[0]);
    }
    lemma_header_len_is(section, n);
    assert(section.take(n) =~= header);
    assert(section.skip(n) =~= hunks);
    let e = Map::<Seq<char>, (u32, u32)>::empty();
    assert(section_len(ls) == 0);
    assert(with_section(e, none) == e);
    assert(with_sections(e, section) == with_section(e, section));
    assert(with_sections(e, ls) == with_sections(e, section));
}

/// The counts of one file's part of a diff: its added lines are those of the hunks that start with a
/// plus, its removed lines those that start with a minus, under the path that the last `+++` line
/// names.
pub proof fn law_counts_of_one_file(
    out: Seq<char>,
    first: Seq<char>,
    header: Seq<Seq<char>>,
    hunks: Seq<Seq<char>>,
    k: int,
    path: Seq<char>,
)
    requires
        one_file(text::lines(out), first, header, hunks),
        0 <= k < header.len(),
        header[k] == "+++ b/"@ + path,
        forall|i: int|
            k < i < header.len() ==> !"+++ b/"@.is_prefix_of(#[trigger] header[i])
                && !"+++ /dev/null"@.is_prefix_of(header[i]),
    ensures
        counts_of(out) == Map::<Seq<char>, (u32, u32)>::empty().insert(
            path,
            (
                hunks.filter(|l: Seq<char>| l.len() > 0 && l[0] == '+').len() as u32,
                hunks.filter(|l: Seq<char>| l.len() > 0 && l[0] == '-').len() as u32,
            ),
        ),
{
    lemma_one_file(out, first, header, hunks);
    lemma_named(header, k, path);
    lemma_led_filter(hunks, '+');
    lemma_led_filter(hunks, '-');
}

/// The counts of a removed file's part of a diff, whose new side is `/dev/null`, stand under its old
/// path.
pub proof fn law_counts_of_a_removed_file(
    out: Seq<char>,
    first: Seq<char>,
    header: Seq<Seq<char>>,
    hunks: Seq<Seq<char>>,
    j: int,
    k: int,
    path: Seq<char>,
)
    requires
        one_file(text::lines(out), first, header, hunks),
        0 <= j < k < header.len(),
        header[j] == "--- a/"@ + path,
        "+++ /dev/null"@.is_prefix_of(header[k]),
        forall|i: int|
            j < i < header.len() && i != k ==> !"--- a/"@.is_prefix_of(#[trigger] header[i])
                && !"+++ b/"@.is_prefix_of(header[i]) && !"+++ /dev/null"@.is_prefix_of(header[i]),
    ensures
        counts_of(out) == Map::<Seq<char>, (u32, u32)>::empty().insert(
            path,
            (
                hunks.filter(|l: Seq<char>| l.len() > 0 && l[0] == '+').len() as u32,
                hunks.filter(|l: Seq<char>| l.len() > 0 && l[0] == '-').len() as u32,
            ),
        ),
{
    lemma_one_file(out, first, header, hunks);
    lemma_named_old(header, j, k, path);
    lemma_led_filter(hunks, '+');
    lemma_led_filter(hunks, '-');
}

/// A part of a diff that names no new side, as a binary file's, counts nothing; nor does a text that
/// has no `diff --git` line and no name.
pub proof fn law_unnamed_part_counts_nothing(
    out: Seq<char>,
    first: Seq<char>,
    header: Seq<Seq<char>>,
    hunks: Seq<Seq<char>>,
)
    requires
        one_file(text::lines(out), first, header, hunks),
        forall|i: int|
            0 <= i < header.len() ==> !"+++ b/"@.is_prefix_of(#[trigger] header[i])
                && !"+++ /dev/null"@.is_prefix_of(header[i]),
    ensures
        counts_of(out) == Map::<Seq<char>, (u32, u32)>::empty(),
        counts_of(seq![]) == Map::<Seq<char>, (u32, u32)>::empty(),
{
    lemma_one_file(out, first, header, hunks);
    lemma_unnamed(header);
    let none = Seq::<Seq<char>>::empty();
    assert(text::lines(seq![]) =~= none);
    assert(none.take(0) =~= none);
}

} // verus!
