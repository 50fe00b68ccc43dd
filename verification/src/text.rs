//! Text primitives over `str`, specified on sequences of characters.

use vstd::prelude::*;
use vstd::string::*;
use vstd::utf8::*;

verus! {

broadcast use vstd::string::group_string_axioms;

/// `String::push` appends one character.
pub assume_specification[ String::push ](s: &mut String, ch: char)
    ensures
        final(s)@ == old(s)@.push(ch),
;

// --- characters -------------------------------------------------------------

/// The Unicode `White_Space` property.
pub open spec fn is_white(c: char) -> bool {
    let n = c as u32;
    ||| 0x9 <= n <= 0xD
    ||| n == 0x20
    ||| n == 0x85
    ||| n == 0xA0
    ||| n == 0x1680
    ||| 0x2000 <= n <= 0x200A
    ||| n == 0x2028
    ||| n == 0x2029
    ||| n == 0x202F
    ||| n == 0x205F
    ||| n == 0x3000
}

fn white(c: char) -> (b: bool)
    ensures
        b == is_white(c),
{
    let n: u32 = c as u32;
    (0x9 <= n && n <= 0xD) || n == 0x20 || n == 0x85 || n == 0xA0 || n == 0x1680 || (0x2000 <= n
        && n <= 0x200A) || n == 0x2028 || n == 0x2029 || n == 0x202F || n == 0x205F || n == 0x3000
}

pub open spec fn is_digit(c: char) -> bool {
    '0' <= c <= '9'
}

pub open spec fn is_hex_digit(c: char) -> bool {
    is_digit(c) || 'a' <= c <= 'f' || 'A' <= c <= 'F'
}

pub open spec fn all_digits(s: Seq<char>) -> bool {
    forall|i: int| 0 <= i < s.len() ==> is_digit(#[trigger] s[i])
}

/// Whether a character is a digit of a lower-case hexadecimal spelling.
pub open spec fn is_lower_hex(c: char) -> bool {
    is_digit(c) || 'a' <= c <= 'f'
}

pub open spec fn all_lower_hex(s: Seq<char>) -> bool {
    forall|i: int| 0 <= i < s.len() ==> is_lower_hex(#[trigger] s[i])
}

pub open spec fn all_hex(s: Seq<char>) -> bool {
    forall|i: int| 0 <= i < s.len() ==> is_hex_digit(#[trigger] s[i])
}

// --- moving between strings and characters ----------------------------------

/// The characters of `s`.
pub fn chars_of(s: &str) -> (v: Vec<char>)
    ensures
        v@ == s@,
{
    let mut v: Vec<char> = Vec::new();
    for c in it: s.chars()
        invariant
            it.seq() == s@,
            v@ == s@.take(it.index() as int),
    {
        v.push(c);
        assert(s@.take(it.index() + 1) =~= s@.take(it.index() as int).push(c));
    }
    assert(s@.take(s@.len() as int) =~= s@);
    v
}

/// The text of `v[from..to]`.
pub fn slice_text(v: &Vec<char>, from: usize, to: usize) -> (s: String)
    requires
        from <= to <= v.len(),
    ensures
        s@ == v@.subrange(from as int, to as int),
{
    let mut s = String::new();
    let mut i: usize = from;
    while i < to
        invariant
            from <= i <= to <= v.len(),
            s@ == v@.subrange(from as int, i as int),
        decreases to - i,
    {
        s.push(v[i]);
        i = i + 1;
        assert(v@.subrange(from as int, i as int) =~= v@.subrange(from as int, i - 1).push(
            v@[i - 1],
        ));
    }
    s
}

/// Whether every character of `s` is an ASCII digit.
pub fn only_digits(s: &str) -> (b: bool)
    ensures
        b == all_digits(s@),
{
    let v = chars_of(s);
    let mut i: usize = 0;
    while i < v.len()
        invariant
            v@ == s@,
            i <= v.len(),
            forall|j: int| 0 <= j < i ==> is_digit(#[trigger] s@[j]),
        decreases v.len() - i,
    {
        if !('0' <= v[i] && v[i] <= '9') {
            assert(!is_digit(s@[i as int]));
            return false;
        }
        i = i + 1;
    }
    true
}

/// Whether every character of `s` is an ASCII hexadecimal digit.
pub fn only_hex(s: &str) -> (b: bool)
    ensures
        b == all_hex(s@),
{
    let v = chars_of(s);
    let mut i: usize = 0;
    while i < v.len()
        invariant
            v@ == s@,
            i <= v.len(),
            forall|j: int| 0 <= j < i ==> is_hex_digit(#[trigger] s@[j]),
        decreases v.len() - i,
    {
        let c = v[i];
        if !(('0' <= c && c <= '9') || ('a' <= c && c <= 'f') || ('A' <= c && c <= 'F')) {
            assert(!is_hex_digit(s@[i as int]));
            return false;
        }
        i = i + 1;
    }
    true
}

/// Whether the two contents are the same.
pub fn same_bytes(x: &[u8], y: &[u8]) -> (r: bool)
    ensures
        r == (x@ == y@),
{
    if x.len() != y.len() {
        return false;
    }
    let mut i: usize = 0;
    while i < x.len()
        invariant
            x.len() == y.len(),
            i <= x.len(),
            forall|j: int| 0 <= j < i ==> x@[j] == y@[j],
        decreases x.len() - i,
    {
        if x[i] != y[i] {
            return false;
        }
        i = i + 1;
    }
    assert(x@ =~= y@);
    true
}

/// Whether the two texts are the same.
pub fn same(a: &str, b: &str) -> (r: bool)
    ensures
        r == (a@ == b@),
{
    proof {
        encode_utf8_decode_utf8(a@);
        encode_utf8_decode_utf8(b@);
    }
    same_bytes(a.as_bytes(), b.as_bytes())
}

// --- trimming ----------------------------------------------------------------

/// `s` without its leading white space.
pub open spec fn trim_start(s: Seq<char>) -> Seq<char>
    decreases s.len(),
{
    if s.len() > 0 && is_white(s[0]) {
        trim_start(s.skip(1))
    } else {
        s
    }
}

/// `s` without its trailing white space.
pub open spec fn trim_end(s: Seq<char>) -> Seq<char>
    decreases s.len(),
{
    if s.len() > 0 && is_white(s.last()) {
        trim_end(s.drop_last())
    } else {
        s
    }
}

/// `s` without the white space at either end.
pub open spec fn trimmed(s: Seq<char>) -> Seq<char> {
    trim_end(trim_start(s))
}

/// `s` without the white space at either end.
pub fn trim(s: &str) -> (r: String)
    ensures
        r@ == trimmed(s@),
{
    let v = chars_of(s);
    let mut from: usize = 0;
    assert(v@.skip(0) =~= v@);
    while from < v.len() && white(v[from])
        invariant
            from <= v.len(),
            trim_start(v@) == trim_start(v@.skip(from as int)),
        decreases v.len() - from,
    {
        assert(v@.skip(from as int).skip(1) =~= v@.skip(from + 1));
        from = from + 1;
    }
    let ghost t = v@.skip(from as int);
    assert(trim_start(v@) == t);
    let mut to: usize = v.len();
    assert(t.take(t.len() as int) =~= t);
    while from < to && white(v[to - 1])
        invariant
            from <= to <= v.len(),
            t == v@.skip(from as int),
            trim_end(t) == trim_end(t.take(to - from)),
        decreases to,
    {
        assert(t.take(to - from).drop_last() =~= t.take(to - from - 1));
        to = to - 1;
    }
    assert(t.take(to - from) =~= v@.subrange(from as int, to as int));
    slice_text(&v, from, to)
}

// --- lines -------------------------------------------------------------------

/// The offset of the first line feed of `s`, or its length.
pub open spec fn line_end(s: Seq<char>) -> nat
    decreases s.len(),
{
    if s.len() == 0 || s[0] == '\n' {
        0
    } else {
        1 + line_end(s.skip(1))
    }
}

/// `line` without one trailing carriage return.
pub open spec fn without_cr(line: Seq<char>) -> Seq<char> {
    if line.len() > 0 && line.last() == '\r' {
        line.drop_last()
    } else {
        line
    }
}

/// The lines of `s`: each ends at a line feed, with or without a carriage return before
/// it; the last line needs no ending.
pub open spec fn lines(s: Seq<char>) -> Seq<Seq<char>>
    decreases s.len(),
{
    let end = line_end(s) as int;
    if s.len() == 0 {
        seq![]
    } else if end >= s.len() {
        seq![s]
    } else {
        seq![without_cr(s.take(end))] + lines(s.skip(end + 1))
    }
}

/// The lines of two texts one behind the other, where the first ends in a line feed.
pub proof fn lemma_lines_joined(s: Seq<char>, t: Seq<char>)
    requires
        s.len() == 0 || s.last() == '\n',
    ensures
        lines(s + t) == lines(s) + lines(t),
    decreases s.len(),
{
    if s.len() == 0 {
        assert(s + t =~= t);
        assert(lines(s) + lines(t) =~= lines(t));
    } else {
        let end = line_end(s) as int;
        lemma_line_end(s);
        lemma_line_end(s + t);
        let both = line_end(s + t) as int;
        assert((s + t)[s.len() - 1] == '\n');
        if end >= s.len() {
            assert(s[s.len() - 1] != '\n');
        }
        if both < end {
            assert((s + t)[both] == s[both]);
        } else if end < both {
            assert((s + t)[end] == s[end]);
        }
        assert((s + t).take(end) =~= s.take(end));
        let rest = s.skip(end + 1);
        assert((s + t).skip(end + 1) =~= rest + t);
        lemma_lines_joined(rest, t);
        assert(lines(s + t) =~= lines(s) + lines(t));
    }
}

pub proof fn lemma_line_end(s: Seq<char>)
    ensures
        line_end(s) <= s.len(),
        line_end(s) < s.len() ==> s[line_end(s) as int] == '\n',
        forall|i: int| 0 <= i < line_end(s) ==> #[trigger] s[i] != '\n',
    decreases s.len(),
{
    if s.len() != 0 && s[0] != '\n' {
        lemma_line_end(s.skip(1));
        assert forall|i: int| 0 <= i < line_end(s) implies #[trigger] s[i] != '\n' by {
            if i > 0 {
                assert(s[i] == s.skip(1)[i - 1]);
            }
        }
    }
}

proof fn lemma_line_end_is(s: Seq<char>, n: int)
    requires
        0 <= n <= s.len(),
        n < s.len() ==> s[n] == '\n',
        forall|i: int| 0 <= i < n ==> #[trigger] s[i] != '\n',
    ensures
        line_end(s) == n,
{
    lemma_line_end(s);
    let m = line_end(s) as int;
    if m < n {
        assert(s[m] != '\n');
    }
    if n < m {
        assert(s[n] != '\n');
    }
}

/// The lines of `s`.
pub fn split_lines(s: &str) -> (out: Vec<String>)
    ensures
        out.deep_view() == lines(s@),
{
    let v = chars_of(s);
    let mut out: Vec<String> = Vec::new();
    let mut start: usize = 0;
    assert(v@.skip(0) =~= v@);
    assert(out.deep_view() + lines(v@) =~= lines(v@));
    while start < v.len()
        invariant
            start <= v.len(),
            out.deep_view() + lines(v@.skip(start as int)) == lines(v@),
        decreases v.len() - start,
    {
        let ghost rest = v@.skip(start as int);
        let ghost before_push = out.deep_view();
        let mut end: usize = start;
        while end < v.len() && v[end] != '\n'
            invariant
                start <= end <= v.len(),
                forall|i: int| start <= i < end ==> v@[i] != '\n',
            decreases v.len() - end,
        {
            end = end + 1;
        }
        proof {
            lemma_line_end_is(rest, end - start);
        }
        if end == v.len() {
            out.push(slice_text(&v, start, end));
            assert(v@.subrange(start as int, end as int) =~= rest);
            assert(out.deep_view() =~= before_push.push(rest));
            assert(v@.skip(end as int) =~= Seq::<char>::empty());
            assert(out.deep_view() + lines(v@.skip(end as int)) =~= before_push + lines(rest));
            start = end;
        } else {
            let stop: usize = if end > start && v[end - 1] == '\r' {
                end - 1
            } else {
                end
            };
            out.push(slice_text(&v, start, stop));
            proof {
                let line = rest.take(end - start);
                assert(line =~= v@.subrange(start as int, end as int));
                assert(without_cr(line) =~= v@.subrange(start as int, stop as int));
                assert(out.deep_view() =~= before_push.push(without_cr(line)));
                assert(rest.skip(end - start + 1) =~= v@.skip(end + 1));
                assert(out.deep_view() + lines(v@.skip(end + 1)) =~= before_push + lines(rest));
            }
            start = end + 1;
        }
    }
    assert(v@.skip(start as int) =~= Seq::<char>::empty());
    assert(out.deep_view() + lines(v@.skip(start as int)) =~= out.deep_view());
    out
}

// --- prefixes and parts --------------------------------------------------------

/// What follows `prefix` in `s`, where `s` starts with it.
pub open spec fn after_prefix(s: Seq<char>, prefix: Seq<char>) -> Option<Seq<char>> {
    if prefix.is_prefix_of(s) {
        Some(s.skip(prefix.len() as int))
    } else {
        None
    }
}

fn prefix_at(v: &Vec<char>, at: usize, part: &Vec<char>) -> (b: bool)
    requires
        at <= v.len(),
    ensures
        b == (at + part.len() <= v.len() && v@.subrange(at as int, at + part.len()) == part@),
{
    if part.len() > v.len() - at {
        return false;
    }
    let mut i: usize = 0;
    while i < part.len()
        invariant
            at + part.len() <= v.len(),
            i <= part.len(),
            forall|j: int| 0 <= j < i ==> v@[at + j] == #[trigger] part@[j],
        decreases part.len() - i,
    {
        if v[at + i] != part[i] {
            assert(v@.subrange(at as int, at + part.len())[i as int] != part@[i as int]);
            return false;
        }
        i = i + 1;
    }
    assert(v@.subrange(at as int, at + part.len()) =~= part@);
    true
}

/// Whether `s` starts with `prefix`.
pub fn has_prefix(s: &str, prefix: &str) -> (b: bool)
    ensures
        b == prefix@.is_prefix_of(s@),
{
    let v = chars_of(s);
    let p = chars_of(prefix);
    let b = prefix_at(&v, 0, &p);
    assert(prefix@.is_prefix_of(s@) ==> s@.subrange(0, prefix@.len() as int) =~= prefix@);
    b
}

/// What follows `prefix` in `s`, where `s` starts with it.
pub fn strip(s: &str, prefix: &str) -> (r: Option<String>)
    ensures
        r.deep_view() == after_prefix(s@, prefix@),
{
    let v = chars_of(s);
    let p = chars_of(prefix);
    if has_prefix(s, prefix) {
        let rest = slice_text(&v, p.len(), v.len());
        assert(rest@ =~= s@.skip(prefix@.len() as int));
        Some(rest)
    } else {
        None
    }
}

/// Whether `part` occurs somewhere in `s`.
pub open spec fn has_part(s: Seq<char>, part: Seq<char>) -> bool {
    exists|i: int|
        0 <= i && i + part.len() <= s.len() && #[trigger] s.subrange(i, i + part.len()) == part
}

/// Whether `part` occurs somewhere in `s`.
pub fn contains(s: &str, part: &str) -> (b: bool)
    ensures
        b == has_part(s@, part@),
{
    let v = chars_of(s);
    let p = chars_of(part);
    if p.len() > v.len() {
        return false;
    }
    let mut i: usize = 0;
    while i <= v.len() - p.len()
        invariant
            v@ == s@,
            p@ == part@,
            p.len() <= v.len(),
            i <= v.len() - p.len() + 1,
            forall|j: int|
                0 <= j < i ==> #[trigger] s@.subrange(j, j + part@.len()) != part@,
        decreases v.len() - p.len() + 1 - i,
    {
        if prefix_at(&v, i, &p) {
            return true;
        }
        if i == v.len() - p.len() {
            return false;
        }
        i = i + 1;
    }
    false
}

/// The two sides of the first `sep` of `s`.
pub open spec fn cut(s: Seq<char>, sep: char) -> Option<(Seq<char>, Seq<char>)>
    decreases s.len(),
{
    if s.len() == 0 {
        None
    } else if s[0] == sep {
        Some((seq![], s.skip(1)))
    } else {
        match cut(s.skip(1), sep) {
            Some((left, right)) => Some((seq![s[0]] + left, right)),
            None => None,
        }
    }
}

proof fn lemma_cut(s: Seq<char>, sep: char, n: int)
    requires
        0 <= n <= s.len(),
        n < s.len() ==> s[n] == sep,
        forall|i: int| 0 <= i < n ==> #[trigger] s[i] != sep,
    ensures
        n < s.len() ==> cut(s, sep) == Some((s.take(n), s.skip(n + 1))),
        n == s.len() ==> cut(s, sep) is None,
    decreases s.len(),
{
    if n > 0 {
        assert(s[0] != sep);
        assert forall|i: int| 0 <= i < n - 1 implies #[trigger] s.skip(1)[i] != sep by {
            assert(s.skip(1)[i] == s[i + 1]);
        }
        lemma_cut(s.skip(1), sep, n - 1);
        if n < s.len() {
            assert(seq![s[0]] + s.skip(1).take(n - 1) =~= s.take(n));
            assert(s.skip(1).skip(n) =~= s.skip(n + 1));
        }
    } else if s.len() > 0 {
        assert(s.take(0) =~= seq![]);
    }
}

/// The two sides of the first `sep` of `s`.
pub fn split_at_first(s: &str, sep: char) -> (r: Option<(String, String)>)
    ensures
        r.deep_view() == cut(s@, sep),
{
    let v = chars_of(s);
    let mut n: usize = 0;
    while n < v.len() && v[n] != sep
        invariant
            n <= v.len(),
            forall|i: int| 0 <= i < n ==> #[trigger] v@[i] != sep,
        decreases v.len() - n,
    {
        n = n + 1;
    }
    proof {
        lemma_cut(v@, sep, n as int);
    }
    if n == v.len() {
        return None;
    }
    let left = slice_text(&v, 0, n);
    let right = slice_text(&v, n + 1, v.len());
    assert(v@.subrange(0, n as int) =~= v@.take(n as int));
    assert(v@.subrange(n + 1, v.len() as int) =~= v@.skip(n + 1));
    Some((left, right))
}

// --- order -------------------------------------------------------------------

/// Lexicographic order by code point, the order of `str`.
pub open spec fn before(a: Seq<char>, b: Seq<char>) -> bool
    decreases a.len(),
{
    if b.len() == 0 {
        false
    } else if a.len() == 0 {
        true
    } else if a[0] != b[0] {
        a[0] < b[0]
    } else {
        before(a.skip(1), b.skip(1))
    }
}

/// `before` is irreflexive.
pub proof fn lemma_before_irreflexive(a: Seq<char>)
    ensures
        !before(a, a),
    decreases a.len(),
{
    if a.len() > 0 {
        lemma_before_irreflexive(a.skip(1));
    }
}

/// `before` is transitive.
pub proof fn lemma_before_transitive(a: Seq<char>, b: Seq<char>, c: Seq<char>)
    requires
        before(a, b),
        before(b, c),
    ensures
        before(a, c),
    decreases a.len(),
{
    if a.len() > 0 && a[0] == b[0] && b[0] == c[0] {
        lemma_before_transitive(a.skip(1), b.skip(1), c.skip(1));
    }
}

/// Of two different texts one is before the other.
pub proof fn lemma_before_total(a: Seq<char>, b: Seq<char>)
    ensures
        a == b || before(a, b) || before(b, a),
    decreases a.len(),
{
    if a.len() == 0 {
        assert(b.len() == 0 ==> a =~= b);
    } else if b.len() > 0 && a[0] == b[0] {
        lemma_before_total(a.skip(1), b.skip(1));
        if a.skip(1) == b.skip(1) {
            assert(a =~= seq![a[0]] + a.skip(1));
            assert(b =~= seq![b[0]] + b.skip(1));
        }
    }
}

/// Whether `a` is before `b`.
pub fn precedes(a: &str, b: &str) -> (r: bool)
    ensures
        r == before(a@, b@),
{
    let x = chars_of(a);
    let y = chars_of(b);
    let mut i: usize = 0;
    assert(x@.skip(0) =~= x@);
    assert(y@.skip(0) =~= y@);
    while i < x.len() && i < y.len() && x[i] == y[i]
        invariant
            i <= x.len(),
            i <= y.len(),
            before(x@, y@) == before(x@.skip(i as int), y@.skip(i as int)),
        decreases x.len() - i,
    {
        assert(x@.skip(i as int).skip(1) =~= x@.skip(i + 1));
        assert(y@.skip(i as int).skip(1) =~= y@.skip(i + 1));
        i = i + 1;
    }
    if i >= y.len() {
        false
    } else if i >= x.len() {
        true
    } else {
        x[i] < y[i]
    }
}

// --- hexadecimal ---------------------------------------------------------------

/// The lower-case digit of `n`, for `n` below sixteen.
pub open spec fn hex_digit(n: int) -> char {
    if n < 10 {
        ('0' as u32 + n) as char
    } else {
        ('a' as u32 + n - 10) as char
    }
}

/// Two lower-case digits for each byte.
pub open spec fn hex(bytes: Seq<u8>) -> Seq<char> {
    Seq::new(
        2 * bytes.len(),
        |i: int|
            if i % 2 == 0 {
                hex_digit(bytes[i / 2] as int / 16)
            } else {
                hex_digit(bytes[i / 2] as int % 16)
            },
    )
}

fn digit_char(n: u8) -> (c: char)
    requires
        n < 16,
    ensures
        c == hex_digit(n as int),
{
    if n < 10 {
        (48 + n) as char
    } else {
        (87 + n) as char
    }
}

/// Two lower-case digits for each byte.
pub fn hex_text(bytes: &[u8]) -> (s: String)
    ensures
        s@ == hex(bytes@),
{
    let mut s = String::new();
    let mut i: usize = 0;
    while i < bytes.len()
        invariant
            i <= bytes.len(),
            s@ =~= hex(bytes@.take(i as int)),
        decreases bytes.len() - i,
    {
        let b = bytes[i];
        s.push(digit_char(b / 16));
        s.push(digit_char(b % 16));
        i = i + 1;
        assert(s@ =~= hex(bytes@.take(i as int)));
    }
    assert(bytes@.take(bytes@.len() as int) =~= bytes@);
    s
}

/// A hexadecimal spelling is made of lower-case hexadecimal digits, and bytes with the same spelling
/// are the same bytes.
pub proof fn lemma_hex(a: Seq<u8>, b: Seq<u8>)
    ensures
        all_lower_hex(hex(a)),
        all_hex(hex(a)),
        hex(a) == hex(b) ==> a == b,
{
    assert forall|i: int| 0 <= i < hex(a).len() implies is_lower_hex(#[trigger] hex(a)[i]) by {
        lemma_hex_digit(a[i / 2] as int / 16, 0);
        lemma_hex_digit(a[i / 2] as int % 16, 0);
    }
    if hex(a) == hex(b) {
        assert(hex(a).len() == hex(b).len());
        assert forall|i: int| 0 <= i < a.len() implies a[i] == b[i] by {
            assert(hex(a)[2 * i] == hex(b)[2 * i]);
            assert(hex(a)[2 * i + 1] == hex(b)[2 * i + 1]);
            assert((2 * i) / 2 == i && (2 * i + 1) / 2 == i);
            lemma_hex_digit(a[i] as int / 16, b[i] as int / 16);
            lemma_hex_digit(a[i] as int % 16, b[i] as int % 16);
        }
        assert(a =~= b);
    }
}

proof fn lemma_hex_digit(m: int, n: int)
    requires
        0 <= m < 16,
        0 <= n < 16,
    ensures
        is_lower_hex(hex_digit(m)),
        hex_digit(m) == hex_digit(n) ==> m == n,
{
}

// --- what the readings of a text are ----------------------------------------------------------

proof fn lemma_trim_start(s: Seq<char>)
    ensures
        exists|i: int|
            0 <= i <= s.len() && trim_start(s) == #[trigger] s.skip(i) && (forall|k: int|
                0 <= k < i ==> is_white(#[trigger] s[k])),
        trim_start(s).len() > 0 ==> !is_white(trim_start(s)[0]),
    decreases s.len(),
{
    if s.len() > 0 && is_white(s[0]) {
        lemma_trim_start(s.skip(1));
        let t = s.skip(1);
        let i = choose|i: int|
            0 <= i <= t.len() && trim_start(t) == #[trigger] t.skip(i) && (forall|k: int|
                0 <= k < i ==> is_white(#[trigger] t[k]));
        assert(t.skip(i) =~= s.skip(i + 1));
        assert forall|k: int| 0 <= k < i + 1 implies is_white(#[trigger] s[k]) by {
            if k > 0 {
                assert(s[k] == t[k - 1]);
            }
        }
    } else {
        assert(s.skip(0) =~= s);
    }
}

proof fn lemma_trim_end(s: Seq<char>)
    ensures
        exists|j: int|
            0 <= j <= s.len() && trim_end(s) == #[trigger] s.take(j) && (forall|k: int|
                j <= k < s.len() ==> is_white(#[trigger] s[k])),
        trim_end(s).len() > 0 ==> !is_white(trim_end(s).last()),
    decreases s.len(),
{
    if s.len() > 0 && is_white(s.last()) {
        lemma_trim_end(s.drop_last());
        let t = s.drop_last();
        let j = choose|j: int|
            0 <= j <= t.len() && trim_end(t) == #[trigger] t.take(j) && (forall|k: int|
                j <= k < t.len() ==> is_white(#[trigger] t[k]));
        assert(t.take(j) =~= s.take(j));
        assert forall|k: int| j <= k < s.len() implies is_white(#[trigger] s[k]) by {
            if k < t.len() {
                assert(s[k] == t[k]);
            }
        }
    } else {
        assert(s.take(s.len() as int) =~= s);
    }
}

/// A trimmed text is the part of a text between the white space at its ends: what was cut off is all
/// white, and what is left neither starts nor ends so.
pub proof fn law_trimmed_is_the_text_between_white_space(s: Seq<char>)
    ensures
        exists|i: int, j: int|
            0 <= i <= j <= s.len() && trimmed(s) == #[trigger] s.subrange(i, j) && (forall|k: int|
                0 <= k < i || j <= k < s.len() ==> is_white(#[trigger] s[k])),
        trimmed(s).len() > 0 ==> !is_white(trimmed(s)[0]) && !is_white(trimmed(s).last()),
{
    lemma_trim_start(s);
    let t = trim_start(s);
    lemma_trim_end(t);
    let i = choose|i: int|
        0 <= i <= s.len() && t == #[trigger] s.skip(i) && (forall|k: int|
            0 <= k < i ==> is_white(#[trigger] s[k]));
    let j = choose|j: int|
        0 <= j <= t.len() && trim_end(t) == #[trigger] t.take(j) && (forall|k: int|
            j <= k < t.len() ==> is_white(#[trigger] t[k]));
    assert(t.take(j) =~= s.subrange(i, i + j));
    assert forall|k: int| 0 <= k < i || i + j <= k < s.len() implies is_white(#[trigger] s[k]) by {
        if k >= i {
            assert(s[k] == t[k - i]);
        }
    }
    if trimmed(s).len() > 0 {
        assert(trimmed(s)[0] == t[0]);
    }
}

/// Of the ASCII characters, the space and the five control characters from the tab on are white and
/// no other; past ASCII, exactly the space separators and the line breaks are.
pub proof fn law_white_space(c: char)
    ensures
        (c as u32) < 128 ==> (is_white(c) <==> c == ' ' || c == '\t' || c == '\n' || c == '\r' || c as u32
            == 11 || c as u32 == 12),
        (c as u32) >= 128 ==> (is_white(c) <==> seq![
            0x85u32,
            0xA0,
            0x1680,
            0x2000,
            0x2001,
            0x2002,
            0x2003,
            0x2004,
            0x2005,
            0x2006,
            0x2007,
            0x2008,
            0x2009,
            0x200A,
            0x2028,
            0x2029,
            0x202F,
            0x205F,
            0x3000,
        ].contains(c as u32)),
{
    let n = c as u32;
    vstd::utf8::char_u32_cast(c, n);
    vstd::utf8::char_u32_cast(' ', 32);
    vstd::utf8::char_u32_cast('\t', 9);
    vstd::utf8::char_u32_cast('\n', 10);
    vstd::utf8::char_u32_cast('\r', 13);
    let all = seq![
        0x85u32,
        0xA0,
        0x1680,
        0x2000,
        0x2001,
        0x2002,
        0x2003,
        0x2004,
        0x2005,
        0x2006,
        0x2007,
        0x2008,
        0x2009,
        0x200A,
        0x2028,
        0x2029,
        0x202F,
        0x205F,
        0x3000,
    ];
    if n >= 128 && is_white(c) {
        assert(all[0] == 0x85 && all[1] == 0xA0 && all[2] == 0x1680);
        if 0x2000 <= n <= 0x200A {
            assert(all[3 + (n - 0x2000)] == n);
        }
        assert(all[14] == 0x2028 && all[15] == 0x2029 && all[16] == 0x202F && all[17] == 0x205F
            && all[18] == 0x3000);
    }
}

/// The lines of a text: a text without a line feed is one line, and none where it is empty; and a line
/// that a line feed ends is the first one, without a carriage return before it, and the lines of
/// what follows are the others.
pub proof fn law_lines_end_at_line_feeds(line: Seq<char>, rest: Seq<char>)
    requires
        !line.contains('\n'),
    ensures
        lines(line) == (if line.len() == 0 {
            Seq::<Seq<char>>::empty()
        } else {
            seq![line]
        }),
        lines(line + seq!['\n'] + rest) == seq![
            if line.len() > 0 && line.last() == '\r' {
                line.drop_last()
            } else {
                line
            },
        ] + lines(rest),
{
    lemma_line_end(line);
    let n = line.len() as int;
    if line_end(line) < n {
        assert(line.contains(line[line_end(line) as int]));
    }
    let s = line + seq!['\n'] + rest;
    lemma_line_end(s);
    assert(s[n] == '\n');
    let end = line_end(s) as int;
    if end < n {
        assert(s[end] == line[end]);
        assert(line.contains(line[end]));
    }
    assert(end == n);
    assert(s.take(n) =~= line);
    assert(s.skip(n + 1) =~= rest);
}

/// A cut is at the first separator, and there is one exactly where the separator occurs.
pub proof fn law_cut_is_at_the_first_separator(s: Seq<char>, sep: char)
    ensures
        cut(s, sep) is Some <==> s.contains(sep),
        cut(s, sep) matches Some((left, right)) ==> s == left + seq![sep] + right && !left.contains(
            sep,
        ),
    decreases s.len(),
{
    if s.len() > 0 {
        if s[0] == sep {
            assert(s =~= Seq::<char>::empty() + seq![sep] + s.skip(1));
        } else {
            let t = s.skip(1);
            law_cut_is_at_the_first_separator(t, sep);
            if s.contains(sep) {
                let i = s.index_of(sep);
                assert(t[i - 1] == sep);
            }
            if t.contains(sep) {
                let i = t.index_of(sep);
                assert(s[i + 1] == sep);
            }
            if let Some((left, right)) = cut(t, sep) {
                let whole = seq![s[0]] + left;
                assert(s =~= seq![s[0]] + t);
                assert(s =~= whole + seq![sep] + right);
                if whole.contains(sep) {
                    let i = whole.index_of(sep);
                    assert(left[i - 1] == sep);
                    assert(left.contains(sep));
                }
            }
        }
    }
}

/// Texts stand in the order of their first difference: a text is before another that it starts, and
/// before one that has the greater character where the two part.
pub proof fn law_order_is_by_the_first_difference(a: Seq<char>, b: Seq<char>, k: int)
    requires
        0 <= k <= a.len(),
        k < b.len(),
        a.take(k) == b.take(k),
        k < a.len() ==> a[k] != b[k],
    ensures
        before(a, b) <==> k == a.len() || a[k] < b[k],
        before(b, a) <==> k < a.len() && b[k] < a[k],
    decreases k,
{
    if k > 0 {
        assert(a[0] == a.take(k)[0] && b[0] == b.take(k)[0]);
        assert(a.skip(1).take(k - 1) =~= a.take(k).skip(1));
        assert(b.skip(1).take(k - 1) =~= b.take(k).skip(1));
        law_order_is_by_the_first_difference(a.skip(1), b.skip(1), k - 1);
    }
}

/// A hexadecimal spelling has two digits for each byte, the high one first, and its digits are those
/// of the sixteen in order.
pub proof fn law_hex_spells_each_byte(bytes: Seq<u8>, i: int)
    requires
        0 <= i < bytes.len(),
    ensures
        hex(bytes).len() == 2 * bytes.len(),
        hex(bytes)[2 * i] == "0123456789abcdef"@[bytes[i] as int / 16],
        hex(bytes)[2 * i + 1] == "0123456789abcdef"@[bytes[i] as int % 16],
{
    reveal_strlit("0123456789abcdef");
    assert((2 * i) / 2 == i && (2 * i + 1) / 2 == i);
    assert((2 * i) % 2 == 0 && (2 * i + 1) % 2 == 1);
    lemma_digit_at(bytes[i] as int / 16);
    lemma_digit_at(bytes[i] as int % 16);
}

proof fn lemma_digit_at(n: int)
    requires
        0 <= n < 16,
    ensures
        hex_digit(n) == "0123456789abcdef"@[n],
{
    reveal_strlit("0123456789abcdef");
}

/// A prefix and what follows it make up the text; a part stands somewhere in it.
pub proof fn law_prefix_and_part(part: Seq<char>, before_it: Seq<char>, rest: Seq<char>, s: Seq<char>)
    ensures
        after_prefix(part + rest, part) == Some(rest),
        after_prefix(s, part) matches Some(r) ==> s == part + r,
        has_part(before_it + part + rest, part),
        has_part(s, part) ==> exists|x: Seq<char>, y: Seq<char>| s == #[trigger] (x + part + y),
{
    assert(part =~= (part + rest).take(part.len() as int));
    assert((part + rest).skip(part.len() as int) =~= rest);
    if let Some(r) = after_prefix(s, part) {
        assert(s =~= part + r);
    }
    let whole = before_it + part + rest;
    let i = before_it.len() as int;
    assert(whole.subrange(i, i + part.len()) =~= part);
    if has_part(s, part) {
        let i = choose|i: int|
            0 <= i && i + part.len() <= s.len() && #[trigger] s.subrange(i, i + part.len()) == part;
        assert(s =~= s.take(i) + part + s.skip(i + part.len()));
    }
}

/// Digits and hexadecimal digits are the ASCII ones.
pub proof fn law_digits(c: char)
    ensures
        is_digit(c) <==> "0123456789"@.contains(c),
        is_hex_digit(c) <==> "0123456789abcdefABCDEF"@.contains(c),
{
    reveal_strlit("0123456789");
    reveal_strlit("0123456789abcdefABCDEF");
    let d = "0123456789"@;
    let h = "0123456789abcdefABCDEF"@;
    if is_digit(c) {
        let i = c as u32 - '0' as u32;
        vstd::utf8::char_u32_cast(c, c as u32);
        vstd::utf8::char_u32_cast(d[i], d[i] as u32);
        assert(d[i] == c);
        assert(h[i] == d[i]);
    } else if 'a' <= c <= 'f' {
        let i = c as u32 - 'a' as u32;
        vstd::utf8::char_u32_cast(c, c as u32);
        vstd::utf8::char_u32_cast(h[10 + i], h[10 + i] as u32);
        assert(h[10 + i] == c);
    } else if 'A' <= c <= 'F' {
        let i = c as u32 - 'A' as u32;
        vstd::utf8::char_u32_cast(c, c as u32);
        vstd::utf8::char_u32_cast(h[16 + i], h[16 + i] as u32);
        assert(h[16 + i] == c);
    }
}

} // verus!
