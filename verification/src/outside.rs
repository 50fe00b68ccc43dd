//! The calls into other crates and into parts of std that carry no contract of their own.

use std::sync::Arc;

use vstd::prelude::*;
use vstd::string::*;
use vstd::utf8::*;

use sha2::Digest;

verus! {

/// What `String::from_utf8_lossy` makes of `bytes`.
pub uninterp spec fn lossy(bytes: Seq<u8>) -> Seq<char>;

/// The ASCII bytes of `bytes`, in order, as characters.
pub open spec fn ascii_text(bytes: Seq<u8>) -> Seq<char>
    decreases bytes.len(),
{
    if bytes.len() == 0 {
        seq![]
    } else if bytes.last() < 128 {
        ascii_text(bytes.drop_last()).push(bytes.last() as char)
    } else {
        ascii_text(bytes.drop_last())
    }
}

/// Whether a character is ASCII.
pub open spec fn is_ascii(c: char) -> bool {
    (c as u32) < 128
}

/// The ASCII characters of `s`, in order.
pub open spec fn ascii_part(s: Seq<char>) -> Seq<char>
    decreases s.len(),
{
    if s.len() == 0 {
        seq![]
    } else if is_ascii(s.last()) {
        ascii_part(s.drop_last()).push(s.last())
    } else {
        ascii_part(s.drop_last())
    }
}

/// `String::from_utf8_lossy`: the text of `bytes`, with the replacement character in place of the
/// sequences that are not UTF-8. Valid UTF-8 is decoded as it stands, and no character comes from
/// nothing. An ASCII byte is valid UTF-8 wherever it stands: the ASCII bytes are the ASCII
/// characters of the text, in order, and the text ends in one where the bytes do.
#[verifier::external_body]
pub(crate) fn lossy_text(bytes: &[u8]) -> (s: String)
    ensures
        s@ == lossy(bytes@),
        valid_utf8(bytes@) ==> s@ == decode_utf8(bytes@),
        s@.len() <= bytes@.len(),
        ascii_part(s@) == ascii_text(bytes@),
        bytes@.len() > 0 ==> s@.len() > 0 && (is_ascii(s@.last()) <==> bytes@.last() < 128),
{
    String::from_utf8_lossy(bytes).into_owned()
}

/// The `Debug` form of a list of words.
pub uninterp spec fn debug_words(words: Seq<Seq<char>>) -> Seq<char>;

/// std's `Debug` formatting of a `Vec<String>`: quoted words in brackets.
#[verifier::external_body]
pub(crate) fn debug_text(words: &Vec<String>) -> (s: String)
    ensures
        s@ == debug_words(words.deep_view()),
{
    format!("{words:?}")
}

/// The SHA-256 digest of `bytes`.
pub uninterp spec fn sha256(bytes: Seq<u8>) -> Seq<u8>;

/// `sha2::Sha256::digest`: the 32 bytes of the SHA-256 digest of `bytes`.
#[verifier::external_body]
pub(crate) fn sha256_digest(bytes: &[u8]) -> (d: Vec<u8>)
    ensures
        d@ == sha256(bytes@),
        d@.len() == 32,
{
    sha2::Sha256::digest(bytes).to_vec()
}

/// What becomes of one line between an old and a new text.
#[derive(Clone, Copy, Debug, PartialEq, Eq, Structural)]
pub enum LineChange {
    Kept,
    Removed,
    Added,
}

/// The length of the first line of a non-empty `s`, its ending with it: a line ends after a
/// line feed, after a carriage return and line feed, or after a carriage return alone.
pub open spec fn piece_len(s: Seq<char>) -> nat
    decreases s.len(),
{
    if s.len() <= 1 || s[0] == '\n' {
        1
    } else if s[0] == '\r' {
        if s[1] == '\n' {
            2
        } else {
            1
        }
    } else {
        1 + piece_len(s.skip(1))
    }
}

/// How many such lines `s` has.
pub open spec fn pieces(s: Seq<char>) -> nat
    decreases s.len(),
{
    if s.len() == 0 {
        0
    } else if piece_len(s) >= s.len() {
        1
    } else {
        1 + pieces(s.skip(piece_len(s) as int))
    }
}

/// How many of `changes` are `tag`.
pub open spec fn tagged(changes: Seq<LineChange>, tag: LineChange) -> nat
    decreases changes.len(),
{
    if changes.len() == 0 {
        0
    } else {
        tagged(changes.drop_last(), tag) + if changes.last() == tag {
            1nat
        } else {
            0nat
        }
    }
}

/// The line changes that the line diff finds between `old` and `new`.
pub uninterp spec fn line_changes(old: Seq<char>, new: Seq<char>) -> Seq<LineChange>;

/// `similar::TextDiff::from_lines` and the tags of its `iter_all_changes`: an edit script from
/// the lines of `old` to the lines of `new`. Each old line is kept or removed, and each new
/// line is kept or added; between a text and itself every line is kept. The distinct lines are
/// numbered in 32 bits. The two texts hold fewer than 2^32 of them where they have no more lines
/// together, and also where neither has more characters: fewer than 2^22 distinct lines have under
/// three characters, and every other line takes three.
#[verifier::external_body]
pub(crate) fn diff_lines(old: &str, new: &str) -> (changes: Vec<LineChange>)
    requires
        pieces(old@) + pieces(new@) <= u32::MAX || (old@.len() <= u32::MAX && new@.len()
            <= u32::MAX),
    ensures
        changes@ == line_changes(old@, new@),
        tagged(changes@, LineChange::Kept) + tagged(changes@, LineChange::Removed) == pieces(old@),
        tagged(changes@, LineChange::Kept) + tagged(changes@, LineChange::Added) == pieces(new@),
        old@ == new@ ==> tagged(changes@, LineChange::Removed) == 0,
{
    similar::TextDiff::from_lines(old, new)
        .iter_all_changes()
        .map(|c| match c.tag() {
            similar::ChangeTag::Equal => LineChange::Kept,
            similar::ChangeTag::Delete => LineChange::Removed,
            similar::ChangeTag::Insert => LineChange::Added,
        })
        .collect()
}

/// One character inside a JSON string.
pub open spec fn json_char(c: char) -> Seq<char> {
    let n = c as u32;
    if c == '"' {
        seq!['\\', '"']
    } else if c == '\\' {
        seq!['\\', '\\']
    } else if n == 0x8 {
        seq!['\\', 'b']
    } else if n == 0x9 {
        seq!['\\', 't']
    } else if n == 0xA {
        seq!['\\', 'n']
    } else if n == 0xC {
        seq!['\\', 'f']
    } else if n == 0xD {
        seq!['\\', 'r']
    } else if n < 0x20 {
        seq!['\\', 'u', '0', '0'] + crate::text::hex(seq![n as u8])
    } else {
        seq![c]
    }
}

/// The characters of `s` as they stand between the quotes of a JSON string.
pub open spec fn json_chars(s: Seq<char>) -> Seq<char>
    decreases s.len(),
{
    if s.len() == 0 {
        seq![]
    } else {
        json_char(s[0]) + json_chars(s.skip(1))
    }
}

/// `s` as a JSON string.
pub open spec fn json_string(s: Seq<char>) -> Seq<char> {
    seq!['"'] + json_chars(s) + seq!['"']
}

/// `serde_json::to_string` of a text: quoted, with the quote, the backslash and the control
/// characters below the space escaped. A text always serialises.
#[verifier::external_body]
pub(crate) fn json_text(s: &str) -> (json: String)
    ensures
        json@ == json_string(s@),
{
    serde_json::to_string(s).expect("a string serializes")
}

/// `Arc::clone` of shared bytes: another handle on the same bytes.
#[verifier::external_body]
pub(crate) fn share(bytes: &Arc<Vec<u8>>) -> (r: Arc<Vec<u8>>)
    ensures
        r == *bytes,
{
    Arc::clone(bytes)
}

/// `dirs::state_dir`: the bytes of the path of the user's state directory, where the platform has
/// one. It comes from the environment, so that nothing is said of it.
#[verifier::external_body]
pub(crate) fn state_dir() -> (dir: Option<Vec<u8>>) {
    match dirs::state_dir() {
        Some(path) => Some(path.into_os_string().into_encoded_bytes()),
        None => None,
    }
}

/// `dirs::data_local_dir`: the bytes of the path of the user's local data directory, where there is
/// one. It comes from the environment, so that nothing is said of it.
#[verifier::external_body]
pub(crate) fn data_local_dir() -> (dir: Option<Vec<u8>>) {
    match dirs::data_local_dir() {
        Some(path) => Some(path.into_os_string().into_encoded_bytes()),
        None => None,
    }
}

} // verus!
