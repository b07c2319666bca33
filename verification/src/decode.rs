//! From mount paths back to Windows paths, in any text.
//!
//! A mount path in a text is `/mnt/`, one ASCII letter and `/`, together
//! with the bytes that follow up to the next ASCII whitespace. Decoding
//! rewrites `/mnt/x/rest` to `x:/rest` and leaves every other byte alone. A
//! path with a space in it is therefore rewritten only up to the space.

use vstd::prelude::*;
use vstd::utf8::{
    decode_utf8, decode_utf8_encode_utf8, encode_utf8, encode_utf8_valid_utf8,
    is_ascii_chars_encode_utf8, is_char_boundary_iff_not_is_continuation_byte,
    is_char_boundary_start_end_of_seq, is_continuation_byte, valid_utf8, valid_utf8_concat,
    valid_utf8_split,
};
use crate::pattern::{find_mount_paths, MOUNT_PATH_PATTERN};

verus! {

/// Tab, line feed, vertical tab, form feed, carriage return and space.
pub open spec fn is_ascii_space(b: u8) -> bool {
    b == 9 || b == 10 || b == 11 || b == 12 || b == 13 || b == 32
}

/// The ASCII letters.
pub open spec fn is_ascii_letter(b: u8) -> bool {
    (0x41 <= b && b <= 0x5a) || (0x61 <= b && b <= 0x7a)
}

/// Whether `/mnt/`, a letter and `/` stand at index `i` of `t`.
pub open spec fn mount_at(t: Seq<u8>, i: int) -> bool {
    &&& 0 <= i
    &&& i + 7 <= t.len()
    &&& t[i] == 0x2f
    &&& t[i + 1] == 0x6d
    &&& t[i + 2] == 0x6e
    &&& t[i + 3] == 0x74
    &&& t[i + 4] == 0x2f
    &&& is_ascii_letter(t[i + 5])
    &&& t[i + 6] == 0x2f
}

/// The first index at or after `from` where a mount path begins, or the
/// length of `t` where there is none.
pub open spec fn next_mount(t: Seq<u8>, from: int) -> int
    decreases t.len() - from,
{
    if from >= t.len() {
        t.len() as int
    } else if mount_at(t, from) {
        from
    } else {
        next_mount(t, from + 1)
    }
}

/// The first index at or after `from` that holds whitespace, or the length
/// of `t` where there is none.
pub open spec fn body_end(t: Seq<u8>, from: int) -> int
    decreases t.len() - from,
{
    if from >= t.len() {
        t.len() as int
    } else if is_ascii_space(t[from]) {
        from
    } else {
        body_end(t, from + 1)
    }
}

/// No mount path begins between `from` and the first place at or after
/// `from` where one begins.
pub proof fn lemma_next_mount(t: Seq<u8>, from: int)
    requires
        0 <= from,
    ensures
        next_mount(t, from) <= t.len(),
        from <= t.len() ==> from <= next_mount(t, from),
        next_mount(t, from) < t.len() ==> mount_at(t, next_mount(t, from)),
        forall|i: int| from <= i < next_mount(t, from) ==> !mount_at(t, i),
        next_mount(t, from) == t.len() ==> forall|i: int| from <= i ==> !mount_at(t, i),
    decreases t.len() - from,
{
    if from >= t.len() {
    } else if mount_at(t, from) {
    } else {
        lemma_next_mount(t, from + 1);
    }
}

/// No whitespace stands between `from` and the first place at or after
/// `from` where some stands.
pub proof fn lemma_body_end(t: Seq<u8>, from: int)
    requires
        0 <= from <= t.len(),
    ensures
        from <= body_end(t, from) <= t.len(),
        body_end(t, from) < t.len() ==> is_ascii_space(t[body_end(t, from)]),
        forall|i: int| from <= i < body_end(t, from) ==> !is_ascii_space(t[i]),
    decreases t.len() - from,
{
    if from >= t.len() {
    } else if is_ascii_space(t[from]) {
    } else {
        lemma_body_end(t, from + 1);
    }
}

/// The mount paths of `t` from index `from` on: the start and the end of
/// each, in order. A mount path begins at the first place at or after the
/// end of the one before where one can begin.
pub open spec fn mount_spans(t: Seq<u8>, from: int) -> Seq<(usize, usize)>
    decreases t.len() - from,
    via mount_spans_decreases
{
    let s = next_mount(t, from);
    if from < 0 || s >= t.len() {
        Seq::empty()
    } else {
        let e = body_end(t, s + 7);
        seq![(s as usize, e as usize)] + mount_spans(t, e)
    }
}

#[via_fn]
proof fn mount_spans_decreases(t: Seq<u8>, from: int) {
    if from >= 0 {
        lemma_next_mount(t, from);
        let s = next_mount(t, from);
        if s < t.len() {
            lemma_body_end(t, s + 7);
        }
    }
}

/// The mount paths from `from` on are the first of them and the mount paths
/// from its end on.
pub proof fn lemma_mount_spans_step(t: Seq<u8>, from: int)
    requires
        0 <= from <= t.len(),
    ensures
        from <= next_mount(t, from) <= t.len(),
        next_mount(t, from) == t.len() ==> mount_spans(t, from).len() == 0,
        next_mount(t, from) < t.len() ==> {
            let s = next_mount(t, from);
            let e = body_end(t, s + 7);
            &&& mount_at(t, s)
            &&& s + 7 <= e <= t.len()
            &&& mount_spans(t, from).len() > 0
            &&& mount_spans(t, from)[0] == (s as usize, e as usize)
            &&& mount_spans(t, from).skip(1) == mount_spans(t, e)
        },
{
    lemma_next_mount(t, from);
    let s = next_mount(t, from);
    if s < t.len() {
        lemma_body_end(t, s + 7);
    }
}

/// The Windows form of the mount path that takes `t[s..e]`: the drive
/// letter, a colon, and the path from its first `/` on.
pub open spec fn rewritten(t: Seq<u8>, s: int, e: int) -> Seq<u8> {
    seq![t[s + 5], 0x3au8] + t.subrange(s + 6, e)
}

/// `t` from index `from` on, with every mount path rewritten.
pub open spec fn decoded_from(t: Seq<u8>, from: int) -> Seq<u8>
    decreases t.len() - from,
    via decoded_from_decreases
{
    let s = next_mount(t, from);
    if from < 0 || from >= t.len() {
        Seq::empty()
    } else if s >= t.len() {
        t.subrange(from, t.len() as int)
    } else {
        let e = body_end(t, s + 7);
        t.subrange(from, s) + rewritten(t, s, e) + decoded_from(t, e)
    }
}

#[via_fn]
proof fn decoded_from_decreases(t: Seq<u8>, from: int) {
    if from >= 0 {
        lemma_next_mount(t, from);
        let s = next_mount(t, from);
        if s < t.len() {
            lemma_body_end(t, s + 7);
        }
    }
}

/// `t` with every mount path rewritten.
pub open spec fn decoded(t: Seq<u8>) -> Seq<u8> {
    decoded_from(t, 0)
}

/// Appends `text[from..to]` to `out`.
fn copy_range(out: &mut Vec<u8>, text: &[u8], from: usize, to: usize)
    requires
        from <= to <= text@.len(),
    ensures
        final(out)@ == old(out)@ + text@.subrange(from as int, to as int),
{
    let mut i: usize = from;
    while i < to
        invariant
            from <= i <= to <= text@.len(),
            out@ == old(out)@ + text@.subrange(from as int, i as int),
        decreases to - i,
    {
        out.push(text[i]);
        i += 1;
    }
}

/// Appends the Windows form of the mount path `text[s..e]` to `out`.
fn copy_rewritten(out: &mut Vec<u8>, text: &[u8], s: usize, e: usize)
    requires
        s + 7 <= e <= text@.len(),
    ensures
        final(out)@ == old(out)@ + rewritten(text@, s as int, e as int),
{
    out.push(text[s + 5]);
    out.push(0x3a);
    copy_range(out, text, s + 6, e);
}

/// Rewrites every mount path in `text` to its Windows form and copies every
/// other byte.
pub fn decode_mount_paths(text: &[u8]) -> (out: Vec<u8>)
    ensures
        out@ == decoded(text@),
{
    let spans = find_mount_paths(MOUNT_PATH_PATTERN, text);
    let n = text.len();
    let mut out: Vec<u8> = Vec::new();
    let mut pos: usize = 0;
    let mut k: usize = 0;
    while k < spans.len()
        invariant
            k <= spans.len(),
            pos <= text@.len() == n,
            spans@.skip(k as int) == mount_spans(text@, pos as int),
            out@ + decoded_from(text@, pos as int) == decoded(text@),
        decreases spans.len() - k,
    {
        let (s, e) = spans[k];
        proof {
            lemma_mount_spans_step(text@, pos as int);
        }
        copy_range(&mut out, text, pos, s);
        copy_rewritten(&mut out, text, s, e);
        pos = e;
        k += 1;
    }
    copy_range(&mut out, text, pos, n);
    out
}

/// Whether a character may begin at index `i` of `t`: `i` is the end of
/// `t`, or the byte there does not continue a character.
pub open spec fn begins_char(t: Seq<u8>, i: int) -> bool {
    0 <= i <= t.len() && (i < t.len() ==> !is_continuation_byte(t[i]))
}

/// A piece of valid UTF-8 that is cut where characters begin is valid UTF-8.
proof fn lemma_piece_valid(t: Seq<u8>, a: int, b: int)
    requires
        valid_utf8(t),
        a <= b,
        begins_char(t, a),
        begins_char(t, b),
    ensures
        valid_utf8(t.subrange(a, b)),
{
    if b < t.len() {
        is_char_boundary_iff_not_is_continuation_byte(t, b);
    } else {
        is_char_boundary_start_end_of_seq(t);
    }
    valid_utf8_split(t, b);
    let p = t.subrange(0, b);
    if a < b {
        is_char_boundary_iff_not_is_continuation_byte(p, a);
    } else {
        is_char_boundary_start_end_of_seq(p);
    }
    valid_utf8_split(p, a);
    assert(p.subrange(a, p.len() as int) == t.subrange(a, b));
}

/// Two ASCII bytes are valid UTF-8.
proof fn lemma_ascii_pair_valid(x: u8, y: u8)
    requires
        x < 0x80,
        y < 0x80,
    ensures
        valid_utf8(seq![x, y]),
{
    let chars = seq![x as char, y as char];
    is_ascii_chars_encode_utf8(chars);
    encode_utf8_valid_utf8(chars);
    assert(encode_utf8(chars) == seq![x, y]);
}

/// The Windows form of a mount path in valid UTF-8 is valid UTF-8.
proof fn lemma_rewritten_valid(t: Seq<u8>, s: int)
    requires
        valid_utf8(t),
        mount_at(t, s),
    ensures
        valid_utf8(rewritten(t, s, body_end(t, s + 7))),
        begins_char(t, s),
        begins_char(t, body_end(t, s + 7)),
        s + 7 <= body_end(t, s + 7) <= t.len(),
{
    lemma_body_end(t, s + 7);
    let e = body_end(t, s + 7);
    lemma_ascii_pair_valid(t[s + 5], 0x3au8);
    lemma_piece_valid(t, s + 6, e);
    valid_utf8_concat(seq![t[s + 5], 0x3au8], t.subrange(s + 6, e));
}

/// Decoding keeps valid UTF-8 valid.
pub proof fn lemma_decoded_from_valid(t: Seq<u8>, from: int)
    requires
        valid_utf8(t),
        begins_char(t, from),
    ensures
        valid_utf8(decoded_from(t, from)),
    decreases t.len() - from,
{
    lemma_next_mount(t, from);
    let s = next_mount(t, from);
    if from >= t.len() {
    } else if s >= t.len() {
        lemma_piece_valid(t, from, t.len() as int);
    } else {
        let e = body_end(t, s + 7);
        lemma_rewritten_valid(t, s);
        lemma_piece_valid(t, from, s);
        lemma_decoded_from_valid(t, e);
        valid_utf8_concat(t.subrange(from, s), rewritten(t, s, e));
        valid_utf8_concat(t.subrange(from, s) + rewritten(t, s, e), decoded_from(t, e));
    }
}

/// The text whose bytes are those of `s` with every mount path rewritten.
pub open spec fn decoded_text(s: Seq<char>) -> Seq<char> {
    decode_utf8(decoded(encode_utf8(s)))
}

/// Rewrites every mount path in an argument to its Windows form.
pub fn translate_path_to_win(unix_path: String) -> (out: String)
    ensures
        out@ == decoded_text(unix_path@),
        encode_utf8(out@) == decoded(encode_utf8(unix_path@)),
{
    translate_path_to_win_output(unix_path)
}

/// Rewrites every mount path in a piece of output to its Windows form.
pub fn translate_path_to_win_output(line: String) -> (out: String)
    ensures
        out@ == decoded_text(line@),
        encode_utf8(out@) == decoded(encode_utf8(line@)),
{
    let bytes = decode_mount_paths(line.as_str().as_bytes());
    proof {
        encode_utf8_valid_utf8(line@);
        lemma_decoded_from_valid(encode_utf8(line@), 0);
        decode_utf8_encode_utf8(bytes@);
    }
    match String::from_utf8(bytes) {
        Ok(s) => s,
        Err(_) => line,
    }
}

} // verus!
