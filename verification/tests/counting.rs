//! Counts of diffs and contents, and the revset of a spelling.

use herdr_reviewr::base::probe_revset;
use herdr_reviewr::counts::{can_count, diff_counts, text_counts, text_line_count};

#[test]
fn probe_revset_reads_hex_as_a_prefix_and_names_as_names() {
    // Digit-only is a hash prefix at any length: bare, `123456` is a revnum and would pin an
    // ancient commit.
    assert_eq!(probe_revset("123456"), "limit(id(123456), 1)");
    assert_eq!(probe_revset("0"), "limit(id(0), 1)");
    assert_eq!(probe_revset("beef1234"), "limit(id(beef1234), 1)");
    // Short mixed hex stays a name, so a bookmark named `abc` resolves.
    assert_eq!(probe_revset("abc"), "limit(abc, 1)");
    assert_eq!(probe_revset("master"), "limit(master, 1)");
    assert_eq!(probe_revset("last(public() & ::.)"), "limit(last(public() & ::.), 1)");
}

#[test]
fn diff_counts_keys_hunk_lines_under_the_new_path() {
    let out = "diff --git a/src/a.rs b/src/a.rs\n\
               --- a/src/a.rs\n\
               +++ b/src/a.rs\n\
               @@ -1,2 +1,3 @@\n \
               ctx\n\
               +new line\n\
               -old line\n\
               +--- content that looks like a header\n\
               diff --git a/gone.rs b/gone.rs\n\
               --- a/gone.rs\n\
               +++ /dev/null\n\
               @@ -1,2 +0,0 @@\n\
               -one\n\
               -two\n";
    let m = diff_counts(out);
    assert_eq!(*m.get("src/a.rs").unwrap(), (2, 1));
    assert_eq!(*m.get("gone.rs").unwrap(), (0, 2));
}

#[test]
fn diff_counts_reads_a_rename_under_its_new_name() {
    let out = "diff --git a/old.rs b/new.rs\n\
               rename from old.rs\n\
               rename to new.rs\n\
               --- a/old.rs\n\
               +++ b/new.rs\n\
               @@ -1 +1 @@\n\
               -a\n\
               +b\n";
    let m = diff_counts(out);
    assert_eq!(*m.get("new.rs").unwrap(), (1, 1));
    assert!(!m.contains_key("old.rs"));
}

#[test]
fn text_counts_diff_lines_and_binary_is_zero() {
    assert_eq!(text_counts(b"a\nb\n", b"a\nc\nd\n"), (2, 1));
    assert_eq!(text_counts(b"", b"x\n"), (1, 0));
    assert_eq!(text_counts(b"bin\0", b"x"), (0, 0));
}

#[test]
fn line_count_matches_numstat_semantics() {
    assert_eq!(text_line_count(b""), 0);
    assert_eq!(text_line_count(b"one\n"), 1);
    assert_eq!(text_line_count(b"one\ntwo"), 2);
    assert_eq!(text_line_count(b"bin\0ary"), 0);
}

#[test]
fn text_counts_balance_the_lines_of_both_sides() {
    let texts: [&[u8]; 10] =
        [b"", b"a\n", b"a", b"a\nb\nc\n", b"c\nb\na", b"\xc3\xa9\n\n\xe2\x82\xac", b"\n\n\n",
         b"\xff\n\xc3\n", b"a\n\xe2\x82", b"\xf0\x90\x80\nb\xff"];
    for old in texts {
        assert_eq!(text_counts(old, old), (0, 0));
        for new in texts {
            assert!(can_count(old, new));
            let (added, removed) = text_counts(old, new);
            assert_eq!(added + text_line_count(old), removed + text_line_count(new));
            assert!(added <= text_line_count(new));
            assert!(removed <= text_line_count(old));
        }
    }
    // One of the three lines is kept.
    assert_eq!(text_counts(b"a\nb\nc\n", b"c\nb\na"), (2, 2));
}

#[test]
fn a_carriage_return_ends_a_line_of_a_diff() {
    assert_eq!(text_counts(b"a\rb\r\nc", b"a\rc"), (0, 1));
    assert_eq!(text_counts(b"", b"a\rb\r"), (2, 0));
    assert_eq!(text_line_count(b"a\rb\r"), 1);
}

#[test]
fn joined_diffs_count_both_and_the_later_wins() {
    let first = "diff --git a/x b/x\n--- a/x\n+++ b/x\n@@ -1 +1 @@\n-a\n+b\n\
                 diff --git a/y b/y\n--- a/y\n+++ b/y\n@@ -0,0 +1 @@\n+c\n";
    let second = "diff --git a/x b/x\n--- a/x\n+++ b/x\n@@ -1 +1,2 @@\n a\n+b\n";
    let m = diff_counts(&format!("{first}{second}"));
    assert_eq!(*m.get("x").unwrap(), (1, 0));
    assert_eq!(*m.get("y").unwrap(), (1, 0));
}
