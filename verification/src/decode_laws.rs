//! What holds of decoding: text without a mount path stays as it is, all
//! whitespace stays where it is in the order of the text, line feeds are
//! neither added nor removed, and each line is decoded by itself.

use vstd::prelude::*;
use vstd::utf8::{
    decode_utf8, decode_utf8_encode_utf8, encode_scalar, encode_utf8, encode_utf8_decode_utf8,
    encode_utf8_valid_utf8, valid_utf8, valid_utf8_concat,
};
use crate::decode::{
    body_end, decoded, decoded_from, decoded_text, is_ascii_space, lemma_body_end,
    lemma_decoded_from_valid,
    lemma_next_mount, mount_at, next_mount, rewritten,
};

verus! {

/// Decoding leaves a text alone in which no mount path begins.
pub proof fn text_without_mount_path_is_unchanged(t: Seq<u8>)
    requires
        forall|i: int| 0 <= i < t.len() ==> !mount_at(t, i),
    ensures
        decoded(t) == t,
{
    lemma_next_mount(t, 0);
}

/// Whether `/mnt/`, a letter and `/` stand at index `i` of the text `s`.
pub open spec fn mount_at_text(s: Seq<char>, i: int) -> bool {
    &&& 0 <= i
    &&& i + 7 <= s.len()
    &&& s[i] == '/'
    &&& s[i + 1] == 'm'
    &&& s[i + 2] == 'n'
    &&& s[i + 3] == 't'
    &&& s[i + 4] == '/'
    &&& (('a' <= s[i + 5] && s[i + 5] <= 'z') || ('A' <= s[i + 5] && s[i + 5] <= 'Z'))
    &&& s[i + 6] == '/'
}

/// Whether no byte of `e` but the first is an ASCII byte.
spec fn high_after_first(e: Seq<u8>) -> bool {
    forall|k: int| 0 <= k < e.len() && #[trigger] e[k] < 0x80 ==> k == 0
}

/// The first byte of a character is an ASCII byte only where the character
/// is that ASCII character.
proof fn lemma_first_byte(s: Seq<char>)
    requires
        s.len() > 0,
    ensures
        encode_utf8(s) == encode_scalar(s[0] as u32) + encode_utf8(s.drop_first()),
        encode_scalar(s[0] as u32).len() >= 1,
        encode_scalar(s[0] as u32)[0] < 0x80 ==> encode_scalar(s[0] as u32).len() == 1
            && s[0] as u32 == encode_scalar(s[0] as u32)[0],
        high_after_first(encode_scalar(s[0] as u32)),
{
    let v = s[0] as u32;
    assert(v <= 0x7f ==> (v & 0x7f) as u8 == v) by (bit_vector);
    assert(forall|x: u8| #![auto] (0xC0u8 | x) >= 0x80) by (bit_vector);
    assert(forall|x: u8| #![auto] (0xE0u8 | x) >= 0x80) by (bit_vector);
    assert(forall|x: u8| #![auto] (0xF0u8 | x) >= 0x80) by (bit_vector);
    assert(forall|x: u8| #![auto] (0x80u8 | x) >= 0x80) by (bit_vector);
}

/// Where an ASCII byte stands at the start of the bytes of a text, the text
/// begins with that character, and the bytes after it are the bytes of the
/// rest of the text.
proof fn lemma_ascii_head(s: Seq<char>, b: u8)
    requires
        encode_utf8(s).len() > 0,
        encode_utf8(s)[0] == b,
        b < 0x80,
    ensures
        s.len() > 0,
        s[0] == b as char,
        encode_utf8(s).subrange(1, encode_utf8(s).len() as int) == encode_utf8(s.drop_first()),
{
    lemma_first_byte(s);
    vstd::utf8::char_u32_cast(s[0], s[0] as u32);
}

/// A mount path at the start of the bytes of a text is a mount path at the
/// start of the text.
proof fn lemma_mount_at_start(s: Seq<char>)
    requires
        mount_at(encode_utf8(s), 0),
    ensures
        mount_at_text(s, 0),
{
    let b0 = encode_utf8(s);
    lemma_ascii_head(s, b0[0]);
    let s1 = s.drop_first();
    let b1 = encode_utf8(s1);
    lemma_ascii_head(s1, b1[0]);
    let s2 = s1.drop_first();
    let b2 = encode_utf8(s2);
    lemma_ascii_head(s2, b2[0]);
    let s3 = s2.drop_first();
    let b3 = encode_utf8(s3);
    lemma_ascii_head(s3, b3[0]);
    let s4 = s3.drop_first();
    let b4 = encode_utf8(s4);
    lemma_ascii_head(s4, b4[0]);
    let s5 = s4.drop_first();
    let b5 = encode_utf8(s5);
    lemma_ascii_head(s5, b5[0]);
    let s6 = s5.drop_first();
    let b6 = encode_utf8(s6);
    lemma_ascii_head(s6, b6[0]);
}

/// A mount path in the bytes of a text is a mount path in the text.
proof fn lemma_mount_in_text(s: Seq<char>, i: int)
    requires
        mount_at(encode_utf8(s), i),
    ensures
        exists|j: int| mount_at_text(s, j),
    decreases s.len(),
{
    if s.len() == 0 {
    } else if i == 0 {
        lemma_mount_at_start(s);
    } else {
        lemma_first_byte(s);
        let e = encode_scalar(s[0] as u32);
        let rest = s.drop_first();
        let k = i - e.len();
        lemma_mount_in_text(rest, k);
        let j = choose|j: int| mount_at_text(rest, j);
        assert(mount_at_text(s, j + 1));
    }
}

/// Decoding leaves a string alone in which no mount path begins.
pub proof fn string_without_mount_path_is_unchanged(s: Seq<char>)
    requires
        forall|j: int| 0 <= j < s.len() ==> !mount_at_text(s, j),
    ensures
        decoded_text(s) == s,
{
    let b = encode_utf8(s);
    assert forall|i: int| 0 <= i < b.len() implies !mount_at(b, i) by {
        if mount_at(b, i) {
            lemma_mount_in_text(s, i);
        }
    }
    text_without_mount_path_is_unchanged(b);
    encode_utf8_decode_utf8(s);
}

/// How many line feeds `t` holds.
pub open spec fn newlines(t: Seq<u8>) -> nat
    decreases t.len(),
{
    if t.len() == 0 {
        0
    } else if t.last() == 0x0a {
        newlines(t.drop_last()) + 1
    } else {
        newlines(t.drop_last())
    }
}

/// The line feeds of a text in two pieces are those of the pieces.
pub proof fn lemma_newlines_concat(a: Seq<u8>, b: Seq<u8>)
    ensures
        newlines(a + b) == newlines(a) + newlines(b),
    decreases b.len(),
{
    if b.len() == 0 {
    } else {
        assert((a + b).drop_last() == a + b.drop_last());
        lemma_newlines_concat(a, b.drop_last());
    }
}

/// The line feeds of a stretch of text cut in two are those of its parts.
proof fn lemma_newlines_split(t: Seq<u8>, a: int, b: int, c: int)
    requires
        0 <= a <= b <= c <= t.len(),
    ensures
        newlines(t.subrange(a, c)) == newlines(t.subrange(a, b)) + newlines(t.subrange(b, c)),
{
    assert(t.subrange(a, c) == t.subrange(a, b) + t.subrange(b, c));
    lemma_newlines_concat(t.subrange(a, b), t.subrange(b, c));
}

/// A text without a line feed holds none.
proof fn lemma_newlines_none(t: Seq<u8>)
    requires
        forall|i: int| 0 <= i < t.len() ==> t[i] != 0x0a,
    ensures
        newlines(t) == 0,
    decreases t.len(),
{
    if t.len() > 0 {
        lemma_newlines_none(t.drop_last());
    }
}

/// Rewriting a mount path neither adds nor removes a line feed.
proof fn lemma_newlines_rewritten(t: Seq<u8>, s: int, e: int)
    requires
        mount_at(t, s),
        s + 7 <= e <= t.len(),
    ensures
        newlines(rewritten(t, s, e)) == newlines(t.subrange(s, e)),
{
    lemma_newlines_split(t, s, s + 6, e);
    lemma_newlines_none(t.subrange(s, s + 6));
    lemma_newlines_none(seq![t[s + 5], 0x3au8]);
    lemma_newlines_concat(seq![t[s + 5], 0x3au8], t.subrange(s + 6, e));
}

/// Decoding from `from` on keeps the line feeds from `from` on.
proof fn lemma_newlines_decoded_from(t: Seq<u8>, from: int)
    requires
        0 <= from <= t.len(),
    ensures
        newlines(decoded_from(t, from)) == newlines(t.subrange(from, t.len() as int)),
    decreases t.len() - from,
{
    lemma_next_mount(t, from);
    let s = next_mount(t, from);
    if from >= t.len() {
    } else if s >= t.len() {
    } else {
        lemma_body_end(t, s + 7);
        let e = body_end(t, s + 7);
        lemma_newlines_decoded_from(t, e);
        lemma_newlines_rewritten(t, s, e);
        lemma_newlines_concat(t.subrange(from, s), rewritten(t, s, e));
        lemma_newlines_concat(t.subrange(from, s) + rewritten(t, s, e), decoded_from(t, e));
        lemma_newlines_split(t, from, s, t.len() as int);
        lemma_newlines_split(t, s, e, t.len() as int);
    }
}

/// Decoding keeps the number of line feeds.
pub proof fn decoding_keeps_line_count(t: Seq<u8>)
    ensures
        newlines(decoded(t)) == newlines(t),
{
    lemma_newlines_decoded_from(t, 0);
    assert(t.subrange(0, t.len() as int) == t);
}

/// Where no mount path begins between `from` and `to`, decoding copies that
/// stretch.
proof fn lemma_decoded_from_skip(t: Seq<u8>, from: int, to: int)
    requires
        0 <= from <= to <= t.len(),
        forall|i: int| from <= i < to ==> !mount_at(t, i),
    ensures
        next_mount(t, from) == next_mount(t, to),
        decoded_from(t, from) == t.subrange(from, to) + decoded_from(t, to),
    decreases to - from,
{
    if from < to {
        lemma_decoded_from_skip(t, from + 1, to);
        lemma_next_mount(t, to);
        let s = next_mount(t, to);
        if to >= t.len() {
        } else if s >= t.len() {
        }
    }
}

/// In a text cut in two by a whitespace byte, the end of a run of other
/// bytes in the first part is where it is in the first part alone.
proof fn lemma_body_end_left(t: Seq<u8>, a: Seq<u8>, w: u8, b: Seq<u8>, k: int)
    requires
        t == a + seq![w] + b,
        is_ascii_space(w),
        0 <= k <= a.len(),
    ensures
        body_end(t, k) == body_end(a, k),
    decreases a.len() - k,
{
    if k < a.len() {
        if !is_ascii_space(a[k]) {
            lemma_body_end_left(t, a, w, b, k + 1);
        }
    }
}

/// In a text cut in two by a byte, the end of a run in the second part is
/// where it is in the second part alone.
proof fn lemma_body_end_right(t: Seq<u8>, a: Seq<u8>, w: u8, b: Seq<u8>, j: int)
    requires
        t == a + seq![w] + b,
        0 <= j <= b.len(),
    ensures
        body_end(t, a.len() + 1 + j) == a.len() + 1 + body_end(b, j),
    decreases b.len() - j,
{
    if j < b.len() {
        if !is_ascii_space(b[j]) {
            lemma_body_end_right(t, a, w, b, j + 1);
        }
    }
}

/// In a text cut in two by a whitespace byte, a mount path begins in the
/// first part where one begins in the first part alone.
proof fn lemma_mount_at_left(t: Seq<u8>, a: Seq<u8>, w: u8, b: Seq<u8>, i: int)
    requires
        t == a + seq![w] + b,
        is_ascii_space(w),
        0 <= i <= a.len(),
    ensures
        mount_at(t, i) == mount_at(a, i),
{
}

/// In a text cut in two by a byte, the next mount path of the second part
/// is where it is in the second part alone.
proof fn lemma_next_mount_right(t: Seq<u8>, a: Seq<u8>, w: u8, b: Seq<u8>, j: int)
    requires
        t == a + seq![w] + b,
        0 <= j <= b.len(),
    ensures
        next_mount(t, a.len() + 1 + j) == a.len() + 1 + next_mount(b, j),
    decreases b.len() - j,
{
    if j < b.len() {
        if !mount_at(b, j) {
            lemma_next_mount_right(t, a, w, b, j + 1);
        }
    }
}

/// In a text cut in two by a byte, the second part is decoded as it is
/// alone.
proof fn lemma_decoded_from_right(t: Seq<u8>, a: Seq<u8>, w: u8, b: Seq<u8>, j: int)
    requires
        t == a + seq![w] + b,
        0 <= j <= b.len(),
    ensures
        decoded_from(t, a.len() + 1 + j) == decoded_from(b, j),
    decreases b.len() - j,
{
    lemma_next_mount_right(t, a, w, b, j);
    lemma_next_mount(b, j);
    let s = next_mount(b, j);
    if j >= b.len() {
    } else if s >= b.len() {
    } else {
        lemma_body_end(b, s + 7);
        lemma_body_end_right(t, a, w, b, s + 7);
        let e = body_end(b, s + 7);
        lemma_decoded_from_right(t, a, w, b, e);
    }
}

/// In a text cut in two by a whitespace byte, the first part is decoded as
/// it is alone, the byte stays, and the second part is decoded as it is
/// alone.
proof fn lemma_decoded_from_left(t: Seq<u8>, a: Seq<u8>, w: u8, b: Seq<u8>, i: int)
    requires
        t == a + seq![w] + b,
        is_ascii_space(w),
        0 <= i <= a.len(),
    ensures
        decoded_from(t, i) == decoded_from(a, i) + seq![w] + decoded(b),
    decreases a.len() - i,
{
    let na = a.len() as int;
    lemma_next_mount(a, i);
    let s = next_mount(a, i);
    if s >= na {
        assert forall|k: int| i <= k < na + 1 implies !mount_at(t, k) by {
            lemma_mount_at_left(t, a, w, b, k);
        }
        lemma_decoded_from_skip(t, i, na + 1);
        lemma_decoded_from_right(t, a, w, b, 0);
    } else {
        assert forall|k: int| i <= k < s implies !mount_at(t, k) by {
            lemma_mount_at_left(t, a, w, b, k);
        }
        lemma_decoded_from_skip(t, i, s);
        lemma_body_end(a, s + 7);
        lemma_body_end_left(t, a, w, b, s + 7);
        let e = body_end(a, s + 7);
        lemma_decoded_from_left(t, a, w, b, e);
    }
}

/// Decoding works on each line by itself: a text in two parts with a
/// whitespace byte between them, such as a line feed, is decoded by decoding
/// the parts, and the byte between them stays.
pub proof fn decoding_is_line_by_line(a: Seq<u8>, w: u8, b: Seq<u8>)
    requires
        is_ascii_space(w),
    ensures
        decoded(a + seq![w] + b) == decoded(a) + seq![w] + decoded(b),
{
    lemma_decoded_from_left(a + seq![w] + b, a, w, b, 0);
}

/// How many line feeds the text `s` holds.
pub open spec fn line_feeds(s: Seq<char>) -> nat
    decreases s.len(),
{
    if s.len() == 0 {
        0
    } else if s.last() == '\n' {
        line_feeds(s.drop_last()) + 1
    } else {
        line_feeds(s.drop_last())
    }
}

/// The bytes of a text in two pieces are the bytes of the pieces.
proof fn lemma_encode_concat(a: Seq<char>, b: Seq<char>)
    ensures
        encode_utf8(a + b) == encode_utf8(a) + encode_utf8(b),
    decreases a.len(),
{
    if a.len() == 0 {
    } else {
        assert((a + b).drop_first() == a.drop_first() + b);
        lemma_encode_concat(a.drop_first(), b);
    }
}

/// Valid UTF-8 in two valid pieces encodes the texts of the pieces.
proof fn lemma_decode_concat(x: Seq<u8>, y: Seq<u8>)
    requires
        valid_utf8(x),
        valid_utf8(y),
    ensures
        decode_utf8(x + y) == decode_utf8(x) + decode_utf8(y),
{
    decode_utf8_encode_utf8(x);
    decode_utf8_encode_utf8(y);
    lemma_encode_concat(decode_utf8(x), decode_utf8(y));
    encode_utf8_decode_utf8(decode_utf8(x) + decode_utf8(y));
}

/// The bytes of one character.
proof fn lemma_encode_one(c: char)
    ensures
        encode_utf8(seq![c]) == encode_scalar(c as u32),
{
    assert(seq![c].drop_first() == Seq::<char>::empty());
    assert(encode_utf8(seq![c]) == encode_scalar(c as u32) + encode_utf8(Seq::<char>::empty()));
}

/// Only the line feed has a line feed among its bytes.
proof fn lemma_newlines_scalar(c: char)
    ensures
        c == '\n' ==> newlines(encode_scalar(c as u32)) == 1,
        c != '\n' ==> newlines(encode_scalar(c as u32)) == 0,
{
    let v = c as u32;
    let e = encode_scalar(v);
    assert(v <= 0x7f ==> (v & 0x7f) as u8 == v) by (bit_vector);
    assert(forall|x: u8| #![auto] (0xC0u8 | x) >= 0x80) by (bit_vector);
    assert(forall|x: u8| #![auto] (0xE0u8 | x) >= 0x80) by (bit_vector);
    assert(forall|x: u8| #![auto] (0xF0u8 | x) >= 0x80) by (bit_vector);
    assert(forall|x: u8| #![auto] (0x80u8 | x) >= 0x80) by (bit_vector);
    if v <= 0x7f {
        assert(newlines(e.drop_last()) == 0);
    } else {
        lemma_newlines_none(e);
    }
}

/// A text holds as many line feeds as its bytes do.
proof fn lemma_newlines_encode(s: Seq<char>)
    ensures
        newlines(encode_utf8(s)) == line_feeds(s),
    decreases s.len(),
{
    if s.len() > 0 {
        let init = s.drop_last();
        assert(s == init + seq![s.last()]);
        lemma_encode_concat(init, seq![s.last()]);
        lemma_encode_one(s.last());
        lemma_newlines_scalar(s.last());
        lemma_newlines_concat(encode_utf8(init), encode_scalar(s.last() as u32));
        lemma_newlines_encode(init);
    }
}

/// Decoding a string keeps the number of its line feeds.
pub proof fn decoding_keeps_line_feeds(s: Seq<char>)
    ensures
        line_feeds(decoded_text(s)) == line_feeds(s),
{
    let b = encode_utf8(s);
    encode_utf8_valid_utf8(s);
    lemma_decoded_from_valid(b, 0);
    decode_utf8_encode_utf8(decoded(b));
    lemma_newlines_encode(decoded_text(s));
    lemma_newlines_encode(s);
    decoding_keeps_line_count(b);
}

/// Decoding works on each line of a string by itself: a string in two parts
/// with an ASCII whitespace character between them, such as a line feed, is
/// decoded by decoding the parts, and the character between them stays.
pub proof fn decoding_text_is_line_by_line(a: Seq<char>, w: char, b: Seq<char>)
    requires
        w as u32 <= 0x7f,
        is_ascii_space(w as u8),
    ensures
        decoded_text(a + seq![w] + b) == decoded_text(a) + seq![w] + decoded_text(b),
{
    let ea = encode_utf8(a);
    let eb = encode_utf8(b);
    let v = w as u32;
    lemma_encode_concat(a + seq![w], b);
    lemma_encode_concat(a, seq![w]);
    lemma_encode_one(w);
    assert((v & 0x7f) as u8 == v) by (bit_vector)
        requires
            v <= 0x7f,
    ;
    decoding_is_line_by_line(ea, w as u8, eb);
    encode_utf8_valid_utf8(a);
    encode_utf8_valid_utf8(b);
    encode_utf8_valid_utf8(seq![w]);
    lemma_decoded_from_valid(ea, 0);
    lemma_decoded_from_valid(eb, 0);
    valid_utf8_concat(decoded(ea), seq![w as u8]);
    lemma_decode_concat(decoded(ea), seq![w as u8]);
    lemma_decode_concat(decoded(ea) + seq![w as u8], decoded(eb));
    encode_utf8_decode_utf8(seq![w]);
}

/// The whitespace bytes of `t`, in order.
pub open spec fn blanks(t: Seq<u8>) -> Seq<u8>
    decreases t.len(),
{
    if t.len() == 0 {
        Seq::empty()
    } else if is_ascii_space(t.last()) {
        blanks(t.drop_last()).push(t.last())
    } else {
        blanks(t.drop_last())
    }
}

/// The whitespace of a text in two pieces is that of the pieces.
proof fn lemma_blanks_concat(a: Seq<u8>, b: Seq<u8>)
    ensures
        blanks(a + b) == blanks(a) + blanks(b),
    decreases b.len(),
{
    if b.len() == 0 {
    } else {
        assert((a + b).drop_last() == a + b.drop_last());
        lemma_blanks_concat(a, b.drop_last());
    }
}

/// The whitespace of a stretch of text cut in two is that of its parts.
proof fn lemma_blanks_split(t: Seq<u8>, a: int, b: int, c: int)
    requires
        0 <= a <= b <= c <= t.len(),
    ensures
        blanks(t.subrange(a, c)) == blanks(t.subrange(a, b)) + blanks(t.subrange(b, c)),
{
    assert(t.subrange(a, c) == t.subrange(a, b) + t.subrange(b, c));
    lemma_blanks_concat(t.subrange(a, b), t.subrange(b, c));
}

/// A text without whitespace holds none.
proof fn lemma_blanks_none(t: Seq<u8>)
    requires
        forall|i: int| 0 <= i < t.len() ==> !is_ascii_space(t[i]),
    ensures
        blanks(t) == Seq::<u8>::empty(),
    decreases t.len(),
{
    if t.len() > 0 {
        lemma_blanks_none(t.drop_last());
    }
}

/// A mount path holds no whitespace, and neither does its Windows form.
proof fn lemma_blanks_rewritten(t: Seq<u8>, s: int)
    requires
        mount_at(t, s),
    ensures
        blanks(rewritten(t, s, body_end(t, s + 7))) == Seq::<u8>::empty(),
        blanks(t.subrange(s, body_end(t, s + 7))) == Seq::<u8>::empty(),
{
    lemma_body_end(t, s + 7);
    let e = body_end(t, s + 7);
    let r = rewritten(t, s, e);
    assert forall|i: int| 0 <= i < r.len() implies !is_ascii_space(r[i]) by {}
    lemma_blanks_none(r);
    let m = t.subrange(s, e);
    assert forall|i: int| 0 <= i < m.len() implies !is_ascii_space(m[i]) by {}
    lemma_blanks_none(m);
}

/// Decoding from `from` on keeps the whitespace from `from` on.
proof fn lemma_blanks_decoded_from(t: Seq<u8>, from: int)
    requires
        0 <= from <= t.len(),
    ensures
        blanks(decoded_from(t, from)) == blanks(t.subrange(from, t.len() as int)),
    decreases t.len() - from,
{
    lemma_next_mount(t, from);
    let s = next_mount(t, from);
    if from >= t.len() {
    } else if s >= t.len() {
    } else {
        lemma_body_end(t, s + 7);
        let e = body_end(t, s + 7);
        lemma_blanks_decoded_from(t, e);
        lemma_blanks_rewritten(t, s);
        lemma_blanks_concat(t.subrange(from, s), rewritten(t, s, e));
        lemma_blanks_concat(t.subrange(from, s) + rewritten(t, s, e), decoded_from(t, e));
        lemma_blanks_split(t, from, s, t.len() as int);
        lemma_blanks_split(t, s, e, t.len() as int);
    }
}

/// Decoding keeps all whitespace, in its order: what it rewrites holds none.
pub proof fn decoding_keeps_whitespace(t: Seq<u8>)
    ensures
        blanks(decoded(t)) == blanks(t),
{
    lemma_blanks_decoded_from(t, 0);
    assert(t.subrange(0, t.len() as int) == t);
}

/// Whether `c` is one of the six ASCII whitespace characters.
pub open spec fn is_ascii_space_char(c: char) -> bool {
    c == '\t' || c == '\n' || c == '\u{b}' || c == '\u{c}' || c == '\r' || c == ' '
}

/// The ASCII whitespace characters of the text `s`, in order.
pub open spec fn blank_chars(s: Seq<char>) -> Seq<char>
    decreases s.len(),
{
    if s.len() == 0 {
        Seq::empty()
    } else if is_ascii_space_char(s.last()) {
        blank_chars(s.drop_last()).push(s.last())
    } else {
        blank_chars(s.drop_last())
    }
}

/// Only an ASCII whitespace character has whitespace among its bytes, and
/// it is its own single byte.
proof fn lemma_blanks_scalar(c: char)
    ensures
        is_ascii_space_char(c) ==> blanks(encode_scalar(c as u32)) == encode_scalar(c as u32),
        !is_ascii_space_char(c) ==> blanks(encode_scalar(c as u32)) == Seq::<u8>::empty(),
{
    let v = c as u32;
    let e = encode_scalar(v);
    assert(v <= 0x7f ==> (v & 0x7f) as u8 == v) by (bit_vector);
    assert(forall|x: u8| #![auto] (0xC0u8 | x) >= 0x80) by (bit_vector);
    assert(forall|x: u8| #![auto] (0xE0u8 | x) >= 0x80) by (bit_vector);
    assert(forall|x: u8| #![auto] (0xF0u8 | x) >= 0x80) by (bit_vector);
    assert(forall|x: u8| #![auto] (0x80u8 | x) >= 0x80) by (bit_vector);
    if v <= 0x7f {
        assert(blanks(e.drop_last()) == Seq::<u8>::empty());
    } else {
        lemma_blanks_none(e);
    }
}

/// The whitespace among the bytes of a text is the bytes of its whitespace.
proof fn lemma_blanks_encode(s: Seq<char>)
    ensures
        blanks(encode_utf8(s)) == encode_utf8(blank_chars(s)),
    decreases s.len(),
{
    if s.len() > 0 {
        let init = s.drop_last();
        let c = s.last();
        assert(s == init + seq![c]);
        lemma_encode_concat(init, seq![c]);
        lemma_encode_one(c);
        lemma_blanks_scalar(c);
        lemma_blanks_concat(encode_utf8(init), encode_scalar(c as u32));
        lemma_blanks_encode(init);
        if is_ascii_space_char(c) {
            assert(blank_chars(s) == blank_chars(init) + seq![c]);
            lemma_encode_concat(blank_chars(init), seq![c]);
        }
    }
}

/// Decoding a string keeps all its ASCII whitespace, in its order.
pub proof fn decoding_text_keeps_whitespace(s: Seq<char>)
    ensures
        blank_chars(decoded_text(s)) == blank_chars(s),
{
    let b = encode_utf8(s);
    encode_utf8_valid_utf8(s);
    lemma_decoded_from_valid(b, 0);
    decode_utf8_encode_utf8(decoded(b));
    lemma_blanks_encode(decoded_text(s));
    lemma_blanks_encode(s);
    decoding_keeps_whitespace(b);
    encode_utf8_decode_utf8(blank_chars(decoded_text(s)));
    encode_utf8_decode_utf8(blank_chars(s));
}

} // verus!
