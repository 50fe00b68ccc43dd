//! Paths as texts. A path of the system is bytes, and need not be UTF-8; its text keeps every byte, so
//! that the path can be told from it again.

use vstd::prelude::*;
use vstd::string::*;
use vstd::utf8::*;

use crate::counts;
use crate::outside;
use crate::text;

verus! {

broadcast use {vstd::string::group_string_axioms, vstd::utf8::group_utf8_lib};

/// One byte of a path that is not UTF-8: an ASCII byte as it stands, any other behind a NUL, which no
/// path holds.
pub open spec fn escaped_byte(b: u8) -> Seq<char> {
    if 0 < b < 128 {
        seq![b as char]
    } else {
        seq!['\0', b as char]
    }
}

/// The bytes of a path that is not UTF-8, each escaped.
pub open spec fn escaped(bytes: Seq<u8>) -> Seq<char>
    decreases bytes.len(),
{
    if bytes.len() == 0 {
        seq![]
    } else {
        escaped(bytes.drop_last()) + escaped_byte(bytes.last())
    }
}

/// The text of a path: its characters where it is UTF-8, else its bytes, each escaped.
pub open spec fn text_of_path(path: Seq<u8>) -> Seq<char> {
    if valid_utf8(path) && !path.contains(0u8) {
        decode_utf8(path)
    } else {
        escaped(path)
    }
}

/// The path that a text tells: a character behind a NUL is a byte, and any other character stands for
/// itself.
pub open spec fn path_of_text(s: Seq<char>) -> Seq<u8>
    decreases s.len(),
{
    if s.len() == 0 {
        seq![]
    } else if s[0] == '\0' && s.len() > 1 && (s[1] as u32) < 256 {
        seq![(s[1] as u32) as u8] + path_of_text(s.skip(2))
    } else {
        encode_scalar(s[0] as u32) + path_of_text(s.skip(1))
    }
}

/// The text of a path.
pub fn path_text(path: &[u8]) -> (s: String)
    ensures
        s@ == text_of_path(path@),
{
    let plain = outside::lossy_text(path);
    if text::same_bytes(plain.as_str().as_bytes(), path) && !counts::holds_nul(path) {
        return plain;
    }
    let mut s = String::new();
    let mut i: usize = 0;
    assert(path@.take(0) =~= seq![]);
    while i < path.len()
        invariant
            i <= path.len(),
            s@ == escaped(path@.take(i as int)),
        decreases path.len() - i,
    {
        let b = path[i];
        assert(path@.take(i + 1).drop_last() =~= path@.take(i as int));
        if b == 0 || b >= 128 {
            s.push('\0');
        }
        s.push(b as char);
        i = i + 1;
        assert(s@ =~= escaped(path@.take(i as int)));
    }
    assert(path@.take(i as int) =~= path@);
    s
}

/// The path that a text tells.
pub fn path_bytes(s: &str) -> (path: Vec<u8>)
    ensures
        path@ == path_of_text(s@),
{
    let v = text::chars_of(s);
    let mut path: Vec<u8> = Vec::new();
    let mut i: usize = 0;
    assert(s@.skip(0) =~= s@);
    while i < v.len()
        invariant
            v@ == s@,
            i <= v.len(),
            path@ + path_of_text(s@.skip(i as int)) == path_of_text(s@),
        decreases v.len() - i,
    {
        let ghost rest = s@.skip(i as int);
        let ghost done = path@;
        if v[i] == '\0' && i + 1 < v.len() && (v[i + 1] as u32) < 256 {
            path.push((v[i + 1] as u32) as u8);
            assert(rest.skip(2) =~= s@.skip(i + 2));
            assert(done + (seq![(v@[i + 1] as u32) as u8] + path_of_text(rest.skip(2))) =~= path@
                + path_of_text(s@.skip(i + 2)));
            i = i + 2;
        } else {
            let mut one = String::new();
            one.push(v[i]);
            let mut bytes = vstd::slice::slice_to_vec(one.as_str().as_bytes());
            proof {
                assert(one@ =~= seq![v@[i as int]]);
                assert(one@.drop_first() =~= seq![]);
                reveal_with_fuel(encode_utf8, 2);
                assert(bytes@ =~= encode_scalar(v@[i as int] as u32));
                assert(rest.skip(1) =~= s@.skip(i + 1));
            }
            path.append(&mut bytes);
            assert(done + (encode_scalar(rest[0] as u32) + path_of_text(rest.skip(1))) =~= path@
                + path_of_text(s@.skip(i + 1)));
            i = i + 1;
        }
    }
    assert(path@ =~= path_of_text(s@));
    path
}

/// A text without a NUL tells its own UTF-8.
proof fn lemma_plain(s: Seq<char>)
    requires
        !s.contains('\0'),
    ensures
        path_of_text(s) == encode_utf8(s),
    decreases s.len(),
{
    if s.len() > 0 {
        assert(s[0] != '\0');
        assert(s.skip(1) =~= s.drop_first());
        assert forall|i: int| 0 <= i < s.skip(1).len() implies s.skip(1)[i] != '\0' by {
            assert(s[i + 1] != '\0');
        }
        lemma_plain(s.skip(1));
    }
}

proof fn lemma_encode_parts(x: Seq<char>, y: Seq<char>)
    ensures
        encode_utf8(x + y) == encode_utf8(x) + encode_utf8(y),
    decreases x.len(),
{
    if x.len() == 0 {
        assert(x + y =~= y);
        assert(encode_utf8(x) + encode_utf8(y) =~= encode_utf8(y));
    } else {
        assert((x + y).drop_first() =~= x.drop_first() + y);
        lemma_encode_parts(x.drop_first(), y);
        assert(encode_utf8(x + y) =~= encode_utf8(x) + encode_utf8(y));
    }
}

/// A NUL is one byte.
proof fn lemma_nul(s: Seq<char>)
    ensures
        s.contains('\0') ==> encode_utf8(s).contains(0u8),
    decreases s.len(),
{
    if s.len() > 0 && s.contains('\0') {
        let head = encode_scalar(s[0] as u32);
        let tail = encode_utf8(s.drop_first());
        if s[0] == '\0' {
            assert(0u32 & 0x7F == 0u32) by (bit_vector);
            assert(head[0] == 0);
            assert((head + tail)[0] == 0);
        } else {
            let i = s.index_of('\0');
            assert(s.drop_first()[i - 1] == '\0');
            lemma_nul(s.drop_first());
            let j = tail.index_of(0u8);
            assert((head + tail)[head.len() + j] == 0);
        }
    }
}

/// Escaped bytes tell the bytes, whatever follows them.
proof fn lemma_escaped_tail(bytes: Seq<u8>, rest: Seq<char>)
    ensures
        path_of_text(escaped(bytes) + rest) == bytes + path_of_text(rest),
    decreases bytes.len(),
{
    if bytes.len() == 0 {
        assert(escaped(bytes) + rest =~= rest);
        assert(bytes + path_of_text(rest) =~= path_of_text(rest));
    } else {
        let b = bytes.last();
        let s = escaped_byte(b) + rest;
        lemma_escaped_tail(bytes.drop_last(), s);
        assert(escaped(bytes) + rest =~= escaped(bytes.drop_last()) + s);
        if 0 < b < 128 {
            assert(s.skip(1) =~= rest);
            assert(s[0] == b as char);
            assert(b as u32 & 0x7F == b as u32) by (bit_vector)
                requires
                    b < 128,
            ;
            assert(encode_scalar(s[0] as u32) =~= seq![b]);
        } else {
            assert(s.skip(2) =~= rest);
            assert(s[0] == '\0' && s[1] == b as char);
        }
        assert(path_of_text(s) == seq![b] + path_of_text(rest));
        assert(bytes.drop_last() + (seq![b] + path_of_text(rest)) =~= bytes + path_of_text(rest));
    }
}

/// The text of a path keeps the path: it tells the same bytes again, and with a name behind it, the
/// path with that name behind it. A path that is UTF-8 is its own text.
pub proof fn law_path_text_keeps_the_path(path: Seq<u8>, rest: Seq<char>)
    requires
        !rest.contains('\0'),
    ensures
        path_of_text(text_of_path(path)) == path,
        path_of_text(text_of_path(path) + rest) == path + encode_utf8(rest),
        valid_utf8(path) && !path.contains(0u8) ==> text_of_path(path) == decode_utf8(path),
{
    lemma_keeps(path, rest);
    let none = Seq::<char>::empty();
    lemma_keeps(path, none);
    assert(text_of_path(path) + none =~= text_of_path(path));
    assert(path + encode_utf8(none) =~= path);
}

proof fn lemma_keeps(path: Seq<u8>, rest: Seq<char>)
    requires
        !rest.contains('\0'),
    ensures
        path_of_text(text_of_path(path) + rest) == path + encode_utf8(rest),
{
    if valid_utf8(path) && !path.contains(0u8) {
        let s = decode_utf8(path);
        decode_utf8_encode_utf8(path);
        lemma_nul(s);
        assert forall|i: int| 0 <= i < (s + rest).len() implies (s + rest)[i] != '\0' by {
            if i < s.len() {
                assert(s[i] != '\0');
            } else {
                assert(rest[i - s.len()] != '\0');
            }
        }
        lemma_plain(s + rest);
        lemma_encode_parts(s, rest);
    } else {
        lemma_escaped_tail(path, rest);
        lemma_plain(rest);
    }
}

} // verus!
