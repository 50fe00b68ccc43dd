//! Changed files: their kinds, the status records they come from, and their order.

use vstd::prelude::*;
use vstd::string::*;

use crate::text;

verus! {

broadcast use vstd::string::group_string_axioms;

/// What happened to a changed file.
#[derive(Clone, Copy, Debug, PartialEq, Eq, Structural)]
pub enum ChangeKind {
    Modified,
    Added,
    Deleted,
    Renamed,
    Untracked,
}

/// Which change set a review shows.
#[derive(Clone, Copy, Debug, PartialEq, Eq, Structural)]
pub enum Scope {
    Uncommitted,
    Branch,
    LastTurn,
}

/// One changed file with its line counts. `previous_path` names the source of a rename.
#[derive(Debug, PartialEq, Eq)]
pub struct ChangedFile {
    pub path: String,
    pub kind: ChangeKind,
    pub additions: u32,
    pub deletions: u32,
    pub previous_path: Option<String>,
}

/// The view of a `ChangedFile`.
pub struct FileRow {
    pub path: Seq<char>,
    pub kind: ChangeKind,
    pub additions: u32,
    pub deletions: u32,
    pub previous_path: Option<Seq<char>>,
}

impl DeepView for ChangedFile {
    type V = FileRow;

    open spec fn deep_view(&self) -> FileRow {
        FileRow {
            path: self.path@,
            kind: self.kind,
            additions: self.additions,
            deletions: self.deletions,
            previous_path: self.previous_path.deep_view(),
        }
    }
}

impl Clone for ChangedFile {
    fn clone(&self) -> (r: Self)
        ensures
            r.deep_view() == self.deep_view(),
    {
        ChangedFile {
            path: self.path.clone(),
            kind: self.kind,
            additions: self.additions,
            deletions: self.deletions,
            previous_path: self.previous_path.clone(),
        }
    }
}

/// One `sl status -Tjson` record.
#[derive(Debug, PartialEq, Eq)]
pub struct StatusEntry {
    pub path: String,
    pub status: String,
    pub copy: Option<String>,
}

/// The view of a `StatusEntry`.
pub struct Entry {
    pub path: Seq<char>,
    pub status: Seq<char>,
    pub copy: Option<Seq<char>>,
}

impl DeepView for StatusEntry {
    type V = Entry;

    open spec fn deep_view(&self) -> Entry {
        Entry { path: self.path@, status: self.status@, copy: self.copy.deep_view() }
    }
}

/// The kind that a status code stands for, where it stands for one.
pub open spec fn entry_kind(e: Entry) -> Option<ChangeKind> {
    if e.status == "M"@ {
        Some(ChangeKind::Modified)
    } else if e.status == "A"@ {
        if e.copy is Some {
            Some(ChangeKind::Renamed)
        } else {
            Some(ChangeKind::Added)
        }
    } else if e.status == "R"@ || e.status == "!"@ {
        Some(ChangeKind::Deleted)
    } else if e.status == "?"@ {
        Some(ChangeKind::Untracked)
    } else {
        None
    }
}

/// Map one status record to a changed-file kind.
pub fn kind_of(entry: &StatusEntry) -> (k: Option<ChangeKind>)
    ensures
        k == entry_kind(entry.deep_view()),
{
    let status = entry.status.as_str();
    if text::same(status, "M") {
        Some(ChangeKind::Modified)
    } else if text::same(status, "A") {
        if entry.copy.is_some() {
            Some(ChangeKind::Renamed)
        } else {
            Some(ChangeKind::Added)
        }
    } else if text::same(status, "R") || text::same(status, "!") {
        Some(ChangeKind::Deleted)
    } else if text::same(status, "?") {
        Some(ChangeKind::Untracked)
    } else {
        None
    }
}

// --- order by path ---------------------------------------------------------------

/// Rows in ascending order of path.
pub open spec fn in_order(rows: Seq<FileRow>) -> bool {
    forall|i: int, j: int|
        0 <= i < j < rows.len() ==> !text::before(#[trigger] rows[j].path, #[trigger] rows[i].path)
}

/// The place of `path` among `rows`: behind every leading row that it is not before.
pub open spec fn place(rows: Seq<FileRow>, path: Seq<char>) -> nat
    decreases rows.len(),
{
    if rows.len() == 0 || text::before(path, rows[0].path) {
        0
    } else {
        1 + place(rows.skip(1), path)
    }
}

pub open spec fn lists(rows: Seq<FileRow>, path: Seq<char>) -> bool {
    exists|i: int| 0 <= i < rows.len() && #[trigger] rows[i].path == path
}

/// `rows` with `row` put in its place.
pub open spec fn placed(rows: Seq<FileRow>, row: FileRow) -> Seq<FileRow> {
    rows.insert(place(rows, row.path) as int, row)
}

/// `rows` in ascending order of path, rows of one path in the order they came.
pub open spec fn sorted(rows: Seq<FileRow>) -> Seq<FileRow>
    decreases rows.len(),
{
    if rows.len() == 0 {
        seq![]
    } else {
        placed(sorted(rows.drop_last()), rows.last())
    }
}

/// `rows` in ascending order of path, the first row of each path alone.
pub open spec fn listing(rows: Seq<FileRow>) -> Seq<FileRow>
    decreases rows.len(),
{
    if rows.len() == 0 {
        seq![]
    } else {
        let done = listing(rows.drop_last());
        if lists(done, rows.last().path) {
            done
        } else {
            placed(done, rows.last())
        }
    }
}

proof fn lemma_place_is(rows: Seq<FileRow>, path: Seq<char>, k: int)
    requires
        0 <= k <= rows.len(),
        forall|i: int| 0 <= i < k ==> !text::before(path, #[trigger] rows[i].path),
        k < rows.len() ==> text::before(path, rows[k].path),
    ensures
        place(rows, path) == k,
    decreases rows.len(),
{
    if k > 0 {
        assert(!text::before(path, rows[0].path));
        assert forall|i: int| 0 <= i < k - 1 implies !text::before(
            path,
            #[trigger] rows.skip(1)[i].path,
        ) by {
            assert(rows.skip(1)[i] == rows[i + 1]);
        }
        lemma_place_is(rows.skip(1), path, k - 1);
    }
}

proof fn lemma_place(rows: Seq<FileRow>, path: Seq<char>)
    ensures
        place(rows, path) <= rows.len(),
        forall|i: int| 0 <= i < place(rows, path) ==> !text::before(path, #[trigger] rows[i].path),
        place(rows, path) < rows.len() ==> text::before(
            path,
            rows[place(rows, path) as int].path,
        ),
    decreases rows.len(),
{
    if rows.len() > 0 && !text::before(path, rows[0].path) {
        lemma_place(rows.skip(1), path);
        assert forall|i: int| 0 <= i < place(rows, path) implies !text::before(
            path,
            #[trigger] rows[i].path,
        ) by {
            if i > 0 {
                assert(rows[i] == rows.skip(1)[i - 1]);
            }
        }
    }
}

/// Not-before is transitive: the order is total.
proof fn lemma_not_before(a: Seq<char>, b: Seq<char>, c: Seq<char>)
    requires
        !text::before(b, a),
        !text::before(c, b),
    ensures
        !text::before(c, a),
{
    if text::before(c, a) {
        text::lemma_before_total(a, b);
        if a != b {
            text::lemma_before_transitive(c, a, b);
        }
    }
}

proof fn lemma_placed_in_order(rows: Seq<FileRow>, row: FileRow)
    requires
        in_order(rows),
    ensures
        in_order(placed(rows, row)),
        placed(rows, row).len() == rows.len() + 1,
{
    let k = place(rows, row.path) as int;
    let out = placed(rows, row);
    lemma_place(rows, row.path);
    assert forall|i: int, j: int| 0 <= i < j < out.len() implies !text::before(
        #[trigger] out[j].path,
        #[trigger] out[i].path,
    ) by {
        let a = if i < k {
            i
        } else {
            i - 1
        };
        let b = if j < k {
            j
        } else {
            j - 1
        };
        if i == k {
            let first = rows[k].path;
            lemma_after(row.path, first);
            assert(b >= k);
            if b > k {
                lemma_not_before(row.path, first, rows[b].path);
            }
        } else if j == k {
            assert(a < k);
            assert(!text::before(row.path, rows[a].path));
        } else {
            assert(out[i] == rows[a] && out[j] == rows[b]);
        }
    }
}

proof fn lemma_after(a: Seq<char>, b: Seq<char>)
    requires
        text::before(a, b),
    ensures
        !text::before(b, a),
{
    if text::before(b, a) {
        text::lemma_before_transitive(a, b, a);
        text::lemma_before_irreflexive(a);
    }
}

/// The sorted rows are in ascending order of path.
proof fn lemma_sorted(rows: Seq<FileRow>)
    ensures
        in_order(sorted(rows)),
        sorted(rows).len() == rows.len(),
    decreases rows.len(),
{
    if rows.len() > 0 {
        lemma_sorted(rows.drop_last());
        lemma_placed_in_order(sorted(rows.drop_last()), rows.last());
    }
}

proof fn lemma_listing_in_order(rows: Seq<FileRow>)
    ensures
        in_order(listing(rows)),
    decreases rows.len(),
{
    if rows.len() > 0 {
        lemma_listing_in_order(rows.drop_last());
        lemma_placed_in_order(listing(rows.drop_last()), rows.last());
    }
}

/// The place of `path` among rows in order.
fn find_place(rows: &Vec<ChangedFile>, path: &str) -> (k: usize)
    requires
        in_order(rows.deep_view()),
    ensures
        k == place(rows.deep_view(), path@),
        k <= rows.len(),
{
    let ghost rs = rows.deep_view();
    let mut lo: usize = 0;
    let mut hi: usize = rows.len();
    while lo < hi
        invariant
            rs == rows.deep_view(),
            in_order(rs),
            lo <= hi <= rows.len(),
            forall|i: int| 0 <= i < lo ==> !text::before(path@, #[trigger] rs[i].path),
            hi < rs.len() ==> text::before(path@, rs[hi as int].path),
        decreases hi - lo,
    {
        let mid: usize = lo + (hi - lo) / 2;
        if text::precedes(path, rows[mid].path.as_str()) {
            assert(rs[mid as int].path == rows[mid as int].path@);
            hi = mid;
        } else {
            proof {
                assert(rs[mid as int].path == rows[mid as int].path@);
                assert forall|i: int| 0 <= i < mid + 1 implies !text::before(
                    path@,
                    #[trigger] rs[i].path,
                ) by {
                    if i < mid {
                        assert(!text::before(rs[mid as int].path, rs[i].path));
                        lemma_not_before(rs[i].path, rs[mid as int].path, path@);
                    }
                }
            }
            lo = mid + 1;
        }
    }
    proof {
        lemma_place_is(rs, path@, lo as int);
    }
    lo
}

/// Put `row` in its place among rows in order.
pub fn add_row(rows: &mut Vec<ChangedFile>, row: ChangedFile)
    requires
        in_order(old(rows).deep_view()),
    ensures
        final(rows).deep_view() == placed(old(rows).deep_view(), row.deep_view()),
        in_order(final(rows).deep_view()),
{
    let k = find_place(rows, row.path.as_str());
    let ghost before = rows.deep_view();
    let ghost view = row.deep_view();
    rows.insert(k, row);
    proof {
        assert(rows.deep_view() =~= before.insert(k as int, view));
        lemma_placed_in_order(before, view);
    }
}

/// Put `row` in its place among rows in order, unless its path is listed already.
pub fn add_new_row(rows: &mut Vec<ChangedFile>, row: ChangedFile)
    requires
        in_order(old(rows).deep_view()),
    ensures
        final(rows).deep_view() == (if lists(old(rows).deep_view(), row.deep_view().path) {
            old(rows).deep_view()
        } else {
            placed(old(rows).deep_view(), row.deep_view())
        }),
        in_order(final(rows).deep_view()),
{
    let k = find_place(rows, row.path.as_str());
    let ghost rs = rows.deep_view();
    proof {
        lemma_place(rs, row.path@);
    }
    if k > 0 && text::same(rows[k - 1].path.as_str(), row.path.as_str()) {
        assert(rs[k - 1].path == row.path@);
        return;
    }
    proof {
        if lists(rs, row.path@) {
            let i = choose|i: int| 0 <= i < rs.len() && #[trigger] rs[i].path == row.path@;
            if i >= k {
                text::lemma_before_irreflexive(row.path@);
                assert(text::before(rs[i].path, rs[k as int].path));
                assert(i > k);
                assert(false);
            } else {
                assert(rs[k - 1].path == rows[k - 1].path@);
                assert(i < k - 1);
                assert(!text::before(rs[k - 1].path, rs[i].path));
                assert(!text::before(row.path@, rs[k - 1].path));
                text::lemma_before_total(row.path@, rs[k - 1].path);
                assert(false);
            }
        }
    }
    add_row(rows, row);
}

// --- laws of the order -----------------------------------------------------------------------

/// Rows in strictly ascending order of path: each path once.
pub open spec fn strictly_in_order(rows: Seq<FileRow>) -> bool {
    forall|i: int, j: int|
        0 <= i < j < rows.len() ==> text::before(#[trigger] rows[i].path, #[trigger] rows[j].path)
}

proof fn lemma_placed_contains(rows: Seq<FileRow>, row: FileRow, r: FileRow)
    ensures
        placed(rows, row).contains(r) <==> rows.contains(r) || r == row,
{
    let k = place(rows, row.path) as int;
    let out = placed(rows, row);
    lemma_place(rows, row.path);
    assert(out[k] == row);
    if rows.contains(r) {
        let i = choose|i: int| 0 <= i < rows.len() && rows[i] == r;
        if i < k {
            assert(out[i] == r);
        } else {
            assert(out[i + 1] == r);
        }
    }
    if out.contains(r) && r != row {
        let i = choose|i: int| 0 <= i < out.len() && out[i] == r;
        if i < k {
            assert(rows[i] == r);
        } else {
            assert(rows[i - 1] == r);
        }
    }
}

proof fn lemma_lists_push(rows: Seq<FileRow>, path: Seq<char>)
    requires
        rows.len() > 0,
    ensures
        lists(rows, path) <==> lists(rows.drop_last(), path) || path == rows.last().path,
{
    let rest = rows.drop_last();
    if lists(rest, path) {
        let i = choose|i: int| 0 <= i < rest.len() && #[trigger] rest[i].path == path;
        assert(rows[i].path == path);
    }
    if lists(rows, path) {
        let i = choose|i: int| 0 <= i < rows.len() && #[trigger] rows[i].path == path;
        if i < rest.len() {
            assert(rest[i].path == path);
        }
    }
    assert(rows[rows.len() - 1].path == rows.last().path);
}

proof fn lemma_lists_placed(rows: Seq<FileRow>, row: FileRow, path: Seq<char>)
    ensures
        lists(placed(rows, row), path) <==> lists(rows, path) || path == row.path,
{
    let out = placed(rows, row);
    if lists(out, path) {
        let i = choose|i: int| 0 <= i < out.len() && #[trigger] out[i].path == path;
        assert(out.contains(out[i]));
        lemma_placed_contains(rows, row, out[i]);
        if rows.contains(out[i]) {
            let j = choose|j: int| 0 <= j < rows.len() && rows[j] == out[i];
            assert(rows[j].path == path);
        }
    }
    if lists(rows, path) {
        let j = choose|j: int| 0 <= j < rows.len() && #[trigger] rows[j].path == path;
        assert(rows.contains(rows[j]));
        lemma_placed_contains(rows, row, rows[j]);
        let i = choose|i: int| 0 <= i < out.len() && out[i] == rows[j];
        assert(out[i].path == path);
    }
    if path == row.path {
        lemma_placed_contains(rows, row, row);
        let i = choose|i: int| 0 <= i < out.len() && out[i] == row;
        assert(out[i].path == path);
    }
}

proof fn lemma_listing_lists(rows: Seq<FileRow>, path: Seq<char>)
    ensures
        lists(listing(rows), path) <==> lists(rows, path),
    decreases rows.len(),
{
    if rows.len() > 0 {
        let done = listing(rows.drop_last());
        lemma_listing_lists(rows.drop_last(), path);
        lemma_lists_push(rows, path);
        lemma_lists_placed(done, rows.last(), path);
    }
}

proof fn lemma_placed_strictly(rows: Seq<FileRow>, row: FileRow)
    requires
        strictly_in_order(rows),
        in_order(rows),
        !lists(rows, row.path),
    ensures
        strictly_in_order(placed(rows, row)),
{
    let k = place(rows, row.path) as int;
    let out = placed(rows, row);
    lemma_place(rows, row.path);
    lemma_placed_in_order(rows, row);
    assert forall|i: int, j: int| 0 <= i < j < out.len() implies text::before(
        #[trigger] out[i].path,
        #[trigger] out[j].path,
    ) by {
        let a = if i < k {
            i
        } else {
            i - 1
        };
        let b = if j < k {
            j
        } else {
            j - 1
        };
        text::lemma_before_total(out[i].path, out[j].path);
        assert(!text::before(out[j].path, out[i].path));
        if i == k {
            assert(out[j] == rows[b]);
            assert(rows[b].path != row.path);
        } else if j == k {
            assert(out[i] == rows[a]);
            assert(rows[a].path != row.path);
        } else {
            assert(out[i] == rows[a] && out[j] == rows[b]);
        }
    }
}

proof fn lemma_listing_strictly(rows: Seq<FileRow>)
    ensures
        strictly_in_order(listing(rows)),
    decreases rows.len(),
{
    if rows.len() > 0 {
        let done = listing(rows.drop_last());
        lemma_listing_strictly(rows.drop_last());
        lemma_listing_in_order(rows.drop_last());
        if !lists(done, rows.last().path) {
            lemma_placed_strictly(done, rows.last());
        }
    }
}

/// Whether no earlier row has the path of the row at `i`.
pub open spec fn first_of_its_path(rows: Seq<FileRow>, i: int) -> bool {
    forall|j: int| 0 <= j < i ==> (#[trigger] rows[j]).path != rows[i].path
}

proof fn lemma_listing_keeps_first(rows: Seq<FileRow>, i: int)
    requires
        0 <= i < rows.len(),
        first_of_its_path(rows, i),
    ensures
        listing(rows).contains(rows[i]),
    decreases rows.len(),
{
    let rest = rows.drop_last();
    let done = listing(rest);
    let last = rows.last();
    if i == rest.len() {
        lemma_listing_lists(rest, last.path);
        if lists(rest, last.path) {
            let j = choose|j: int| 0 <= j < rest.len() && #[trigger] rest[j].path == last.path;
            assert(rows[j].path == rows[i].path);
        }
        lemma_placed_contains(done, last, last);
    } else {
        assert(rest[i] == rows[i]);
        assert(first_of_its_path(rest, i)) by {
            assert forall|j: int| 0 <= j < i implies (#[trigger] rest[j]).path != rest[i].path by {
                assert(rest[j] == rows[j]);
            }
        }
        lemma_listing_keeps_first(rest, i);
        lemma_placed_contains(done, last, rows[i]);
    }
}

proof fn lemma_listing_adds_none(rows: Seq<FileRow>, r: FileRow)
    requires
        listing(rows).contains(r),
    ensures
        rows.contains(r),
    decreases rows.len(),
{
    if rows.len() > 0 {
        let rest = rows.drop_last();
        let done = listing(rest);
        lemma_placed_contains(done, rows.last(), r);
        assert(rows[rows.len() - 1] == rows.last());
        if done.contains(r) {
            lemma_listing_adds_none(rest, r);
            let i = choose|i: int| 0 <= i < rest.len() && rest[i] == r;
            assert(rows[i] == r);
        }
    }
}

/// A listing stands in strictly ascending order of path, so that no path is listed twice. It lists
/// every path of the rows and no other, and of each path the first row.
pub proof fn law_listing_has_each_path_once(rows: Seq<FileRow>)
    ensures
        strictly_in_order(listing(rows)),
        forall|path: Seq<char>| #[trigger] lists(listing(rows), path) <==> lists(rows, path),
        forall|i: int|
            0 <= i < rows.len() && first_of_its_path(rows, i) ==> listing(rows).contains(
                #[trigger] rows[i],
            ),
        forall|r: FileRow| #[trigger] listing(rows).contains(r) ==> rows.contains(r),
{
    lemma_listing_strictly(rows);
    assert forall|path: Seq<char>| #[trigger] lists(listing(rows), path) <==> lists(
        rows,
        path,
    ) by {
        lemma_listing_lists(rows, path);
    }
    assert forall|i: int|
        0 <= i < rows.len() && first_of_its_path(rows, i) implies listing(rows).contains(
        #[trigger] rows[i],
    ) by {
        lemma_listing_keeps_first(rows, i);
    }
    assert forall|r: FileRow| #[trigger] listing(rows).contains(r) implies rows.contains(r) by {
        lemma_listing_adds_none(rows, r);
    }
}

/// Sorting puts rows in ascending order of path and neither drops nor adds one.
pub proof fn law_sorting_keeps_every_row(rows: Seq<FileRow>)
    ensures
        in_order(sorted(rows)),
        sorted(rows).len() == rows.len(),
        forall|r: FileRow| #[trigger] sorted(rows).contains(r) <==> rows.contains(r),
    decreases rows.len(),
{
    lemma_sorted(rows);
    if rows.len() > 0 {
        let rest = rows.drop_last();
        let last = rows.last();
        law_sorting_keeps_every_row(rest);
        assert forall|r: FileRow| #[trigger] sorted(rows).contains(r) <==> rows.contains(r) by {
            lemma_placed_contains(sorted(rest), last, r);
            if rest.contains(r) {
                let i = choose|i: int| 0 <= i < rest.len() && rest[i] == r;
                assert(rows[i] == r);
            }
            if rows.contains(r) {
                let i = choose|i: int| 0 <= i < rows.len() && rows[i] == r;
                if i < rest.len() {
                    assert(rest[i] == r);
                }
            }
            assert(rows[rows.len() - 1] == last);
        }
    }
}

/// Whether no two rows have one path.
pub open spec fn paths_once(rows: Seq<FileRow>) -> bool {
    forall|i: int, j: int|
        0 <= i < j < rows.len() ==> #[trigger] rows[i].path != #[trigger] rows[j].path
}

/// Rows of distinct paths are sorted into strictly ascending order of path.
pub proof fn law_sorting_distinct_paths_is_strict(rows: Seq<FileRow>)
    requires
        paths_once(rows),
    ensures
        strictly_in_order(sorted(rows)),
{
    lemma_sorting_is_listing(rows);
    lemma_listing_strictly(rows);
}

proof fn lemma_sorting_is_listing(rows: Seq<FileRow>)
    requires
        paths_once(rows),
    ensures
        sorted(rows) == listing(rows),
    decreases rows.len(),
{
    if rows.len() > 0 {
        let rest = rows.drop_last();
        assert forall|i: int, j: int| 0 <= i < j < rest.len() implies #[trigger] rest[i].path
            != #[trigger] rest[j].path by {
            assert(rest[i] == rows[i] && rest[j] == rows[j]);
        }
        lemma_sorting_is_listing(rest);
        lemma_listing_lists(rest, rows.last().path);
        if lists(rest, rows.last().path) {
            let i = choose|i: int|
                0 <= i < rest.len() && #[trigger] rest[i].path == rows.last().path;
            assert(rows[i].path == rows[rows.len() - 1].path);
        }
    }
}

/// What a status code stands for: `M` is modified, `A` added, or renamed with a copy source, `R` and
/// `!` deleted, `?` untracked, and any other code nothing.
pub proof fn law_status_codes(e: Entry)
    ensures
        e.status == seq!['M'] ==> entry_kind(e) == Some(ChangeKind::Modified),
        e.status == seq!['A'] && e.copy is None ==> entry_kind(e) == Some(ChangeKind::Added),
        e.status == seq!['A'] && e.copy is Some ==> entry_kind(e) == Some(ChangeKind::Renamed),
        e.status == seq!['R'] ==> entry_kind(e) == Some(ChangeKind::Deleted),
        e.status == seq!['!'] ==> entry_kind(e) == Some(ChangeKind::Deleted),
        e.status == seq!['?'] ==> entry_kind(e) == Some(ChangeKind::Untracked),
        entry_kind(e) is Some ==> e.status.len() == 1 && seq!['M', 'A', 'R', '!', '?'].contains(
            e.status[0],
        ),
{
    reveal_strlit("M");
    reveal_strlit("A");
    reveal_strlit("R");
    reveal_strlit("!");
    reveal_strlit("?");
    assert("M"@ =~= seq!['M']);
    assert("A"@ =~= seq!['A']);
    assert("R"@ =~= seq!['R']);
    assert("!"@ =~= seq!['!']);
    assert("?"@ =~= seq!['?']);
    assert(seq!['M'][0] == 'M' && seq!['A'][0] == 'A' && seq!['R'][0] == 'R' && seq!['!'][0] == '!'
        && seq!['?'][0] == '?');
    let all = seq!['M', 'A', 'R', '!', '?'];
    assert(all[0] == 'M' && all[1] == 'A' && all[2] == 'R' && all[3] == '!' && all[4] == '?');
}

/// Each of the five status codes stands for a kind.
pub proof fn lemma_status_codes_have_kinds(e: Entry)
    requires
        e.status == "M"@ || e.status == "A"@ || e.status == "R"@ || e.status == "!"@ || e.status
            == "?"@,
    ensures
        entry_kind(e) is Some,
{
}

} // verus!
