//! Decoding a mount path and encoding the result again.

use vstd::prelude::*;
use vstd::utf8::{encode_utf8, encode_utf8_decode_utf8, is_ascii_chars_encode_utf8};
use crate::decode::{decoded, decoded_from, decoded_text, lemma_body_end};
use crate::encode::{mount_point, mount_root, translated};
use crate::encode_laws::{is_plain_from, plain_absolute_path_translation};
use crate::winpath::is_drive_letter;

verus! {

/// Whether `m` is a mount path in its plainest form: `/mnt/`, a drive
/// letter, and one or more segments of safe characters, none of them `.`,
/// with a `/` before each.
pub open spec fn is_plain_mount_path(m: Seq<char>) -> bool {
    &&& m.len() > 7
    &&& m.subrange(0, 5) == mount_root()
    &&& is_drive_letter(m[5])
    &&& m[6] == '/'
    &&& is_plain_from(m, 7, false)
    &&& forall|i: int| 7 <= i < m.len() ==> #[trigger] m[i] != '\\'
}

/// The Windows form of a plain mount path: the drive letter, a colon, and
/// the path from the `/` after the letter on.
pub open spec fn windows_form(m: Seq<char>) -> Seq<char> {
    seq![m[5], ':'] + m.subrange(6, m.len() as int)
}

/// Decoding a plain mount path gives its Windows form.
pub proof fn plain_mount_path_decoding(m: Seq<char>)
    requires
        is_plain_mount_path(m),
    ensures
        decoded_text(m) == windows_form(m),
{
    let b = encode_utf8(m);
    let n = m.len() as int;
    is_ascii_chars_encode_utf8(m);
    lemma_body_end(b, 7);
    assert(decoded_from(b, n) == Seq::<u8>::empty());
    let w = windows_form(m);
    is_ascii_chars_encode_utf8(w);
    assert(encode_utf8(w) == decoded(b));
    encode_utf8_decode_utf8(w);
}

/// Decoding a plain mount path and translating the result gives the mount
/// path again, with its drive letter in lower case.
pub proof fn decode_then_encode(m: Seq<char>, exists: bool)
    requires
        is_plain_mount_path(m),
    ensures
        translated(decoded_text(m), exists) == mount_point(m[5] as u8) + m.subrange(
            6,
            m.len() as int,
        ),
        ('a' <= m[5] && m[5] <= 'z') ==> translated(decoded_text(m), exists) == m,
{
    plain_mount_path_decoding(m);
    let w = windows_form(m);
    plain_absolute_path_translation(w, exists);
}

/// A plain mount path that names nothing on the Windows side is left alone
/// by translation, however often it is translated: it is no absolute
/// Windows path.
pub proof fn mount_path_is_left_alone(m: Seq<char>)
    requires
        is_plain_mount_path(m),
    ensures
        translated(m, false) == m,
        translated(translated(m, false), false) == translated(m, false),
{
}

} // verus!
