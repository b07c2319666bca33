//! What holds of encoding: the name of a long option is kept, escaping
//! touches only what stands outside the safe set, every space of a path
//! comes out with one backslash before it, and a plain absolute path becomes
//! the mount point of its drive and its own segments.

use vstd::prelude::*;
use crate::encode::{
    encoded_path, escaped, is_long_option, is_safe_char, joined, mount_point,
    option_name, option_value, parts_of, translated, value_start,
};
use crate::text::lemma_first_index;
use crate::winpath::{
    body_start, components, has_other_prefix, has_root_component, has_verbatim_disk, is_absolute,
    is_separator, starts_with_current_dir,
    is_verbatim, lemma_segment_end_bounds, named_segments, prefix_len, prefix_of, segment_end,
    segments_from, separates, Component,
};

verus! {

/// An argument whose value is no absolute path and names nothing that exists
/// stays as it is.
pub proof fn other_argument_is_unchanged(arg: Seq<char>)
    requires
        !is_absolute(option_value(arg)),
    ensures
        translated(arg, false) == arg,
{
}

/// Translating a long option never changes its name: the translation
/// begins with the argument's own text up to and including the first `=`.
pub proof fn option_name_is_kept(arg: Seq<char>, exists: bool)
    requires
        is_long_option(arg),
    ensures
        0 < value_start(arg) <= arg.len(),
        arg[value_start(arg) - 1] == '=',
        forall|i: int| 0 <= i < value_start(arg) - 1 ==> arg[i] != '=',
        value_start(arg) <= translated(arg, exists).len(),
        translated(arg, exists).subrange(0, value_start(arg)) == arg.subrange(
            0,
            value_start(arg),
        ),
{
    lemma_first_index(arg, '=', 0);
}

/// The translation of a long option is its name and the translation of its
/// value, where the value does not look like a long option itself.
pub proof fn long_option_value_is_translated(arg: Seq<char>, exists: bool)
    requires
        is_long_option(arg),
        !is_long_option(option_value(arg)),
    ensures
        translated(arg, exists) == option_name(arg) + translated(option_value(arg), exists),
{
    lemma_first_index(arg, '=', 0);
    let value = option_value(arg);
    assert(option_value(value) == value);
    assert(option_name(value) + encoded_path(value) == encoded_path(value));
    assert(option_name(arg) + value == arg);
}

/// Escaping goes character by character: the escaped form of a text in two
/// pieces is the escaped forms of the pieces, one after the other.
pub proof fn escaped_distributes(a: Seq<char>, b: Seq<char>)
    ensures
        escaped(a + b) == escaped(a) + escaped(b),
    decreases b.len(),
{
    if b.len() == 0 {
    } else {
        assert((a + b).drop_last() == a + b.drop_last());
        escaped_distributes(a, b.drop_last());
    }
}

/// Escaping leaves text of safe characters as it is.
pub proof fn safe_text_is_unchanged(s: Seq<char>)
    requires
        forall|i: int| 0 <= i < s.len() ==> is_safe_char(s[i]),
    ensures
        escaped(s) == s,
    decreases s.len(),
{
    if s.len() > 0 {
        safe_text_is_unchanged(s.drop_last());
    }
}

/// Escaping puts a backslash in front of a space, wherever in a segment the
/// space stands, and what it does to the text around the space does not
/// depend on the space.
pub proof fn space_is_escaped(before: Seq<char>, after: Seq<char>)
    ensures
        escaped(before + seq![' '] + after) == escaped(before) + seq!['\\', ' '] + escaped(after),
{
    escaped_distributes(before + seq![' '], after);
    escaped_distributes(before, seq![' ']);
    assert(escaped(seq![' ']) == seq!['\\', ' ']) by {
        reveal_with_fuel(escaped, 2);
    }
}

/// Escaping keeps a safe character as it is, wherever in a segment it stands.
pub proof fn safe_character_is_kept(before: Seq<char>, c: char, after: Seq<char>)
    requires
        is_safe_char(c),
    ensures
        escaped(before + seq![c] + after) == escaped(before) + seq![c] + escaped(after),
{
    escaped_distributes(before + seq![c], after);
    escaped_distributes(before, seq![c]);
    safe_text_is_unchanged(seq![c]);
}

/// `s` with every separator written as `/`.
pub open spec fn with_slashes(s: Seq<char>) -> Seq<char> {
    s.map_values(
        |c: char|
            if is_separator(c) {
                '/'
            } else {
                c
            },
    )
}

/// Whether `p` from index `from` on is a run of segments in their plainest
/// form: it begins and ends with a segment, one separator stands between
/// each two, every segment is made of safe characters, and none is a `.`
/// that does not count.
pub open spec fn is_plain_from(p: Seq<char>, from: int, verbatim: bool) -> bool {
    &&& 0 <= from < p.len()
    &&& !separates(p[from], verbatim)
    &&& !separates(p.last(), verbatim)
    &&& forall|i: int|
        from <= i < p.len() ==> is_safe_char(#[trigger] p[i]) || separates(p[i], verbatim)
    &&& forall|i: int|
        from <= i < p.len() - 1 ==> !(separates(#[trigger] p[i], verbatim) && separates(
            p[i + 1],
            verbatim,
        ))
    &&& verbatim || forall|i: int|
        from <= i < p.len() && #[trigger] p[i] == '.' ==> (i > from && !is_separator(p[i - 1]))
            || (i + 1 < p.len() && !is_separator(p[i + 1]))
}

/// Joining a first part with the parts after it.
proof fn lemma_joined_prepend(a: Seq<char>, rest: Seq<Seq<char>>)
    ensures
        rest.len() == 0 ==> joined(seq![a] + rest) == a,
        rest.len() > 0 ==> joined(seq![a] + rest) == a + seq!['/'] + joined(rest),
    decreases rest.len(),
{
    let all = seq![a] + rest;
    if rest.len() == 0 {
    } else if rest.len() == 1 {
        assert(all.drop_last() == seq![a]);
        assert(joined(seq![a]) == a);
    } else {
        assert(all.drop_last() == seq![a] + rest.drop_last());
        lemma_joined_prepend(a, rest.drop_last());
    }
}

/// The parts of components that end in a run of segments are the parts of
/// what stands before the run, then the escaped segments.
proof fn lemma_parts_of_segments(head: Seq<Component>, segs: Seq<Seq<char>>)
    ensures
        parts_of(head + segs.map_values(|s: Seq<char>| Component::Segment(s))) == parts_of(head)
            + segs.map_values(|s: Seq<char>| escaped(s)),
    decreases segs.len(),
{
    let f = |s: Seq<char>| Component::Segment(s);
    let all = head + segs.map_values(f);
    if segs.len() == 0 {
    } else {
        assert(all.drop_last() == head + segs.drop_last().map_values(f));
        lemma_parts_of_segments(head, segs.drop_last());
    }
}

/// The segments of a plain run, escaped and joined, are the run itself with
/// its separators written as `/`.
proof fn lemma_plain_segments(p: Seq<char>, from: int, verbatim: bool)
    requires
        is_plain_from(p, from, verbatim),
    ensures
        segments_from(p, from, verbatim).len() > 0,
        joined(segments_from(p, from, verbatim).map_values(|s: Seq<char>| escaped(s)))
            == with_slashes(p.subrange(from, p.len() as int)),
    decreases p.len() - from,
{
    let g = |s: Seq<char>| escaped(s);
    let n = p.len() as int;
    lemma_segment_end_bounds(p, from, verbatim);
    let end = segment_end(p, from, verbatim);
    let piece = p.subrange(from, end);
    safe_text_is_unchanged(piece);
    if end == n {
    } else {
        lemma_plain_segments(p, end + 1, verbatim);
        let rest = segments_from(p, end + 1, verbatim);
        assert((seq![piece] + rest).map_values(g) == seq![escaped(piece)] + rest.map_values(g));
        lemma_joined_prepend(escaped(piece), rest.map_values(g));
    }
}

/// The drive letter of a path that begins with one, as written.
pub open spec fn drive_of(p: Seq<char>) -> u8 {
    if has_verbatim_disk(p) {
        p[4] as u8
    } else {
        p[0] as u8
    }
}

/// An absolute path with a drive letter is translated to the mount point of
/// the drive and the segments of the path, each escaped, with a `/` between
/// each two of these.
pub proof fn absolute_path_translation(p: Seq<char>, exists: bool)
    requires
        is_absolute(p),
        !has_other_prefix(p),
    ensures
        translated(p, exists) == joined(
            seq![mount_point(drive_of(p))] + named_segments(p).map_values(
                |s: Seq<char>| escaped(s),
            ),
        ),
{
    let f = |s: Seq<char>| Component::Segment(s);
    let d = drive_of(p);
    assert(option_value(p) == p);
    let x = prefix_of(p)->0;
    let segs = named_segments(p);
    let head = if has_root_component(p) {
        seq![Component::Prefix(x), Component::Root]
    } else {
        seq![Component::Prefix(x)]
    };
    assert(components(p) == head + segs.map_values(f));
    lemma_parts_of_segments(head, segs);
    assert(parts_of(head) == seq![mount_point(d)]) by {
        reveal_with_fuel(parts_of, 3);
    }
}

/// An absolute path with a drive letter whose segments are plain is
/// translated to the mount point of the drive, a `/`, and the rest of the
/// path with its separators written as `/`.
pub proof fn plain_absolute_path_translation(p: Seq<char>, exists: bool)
    requires
        is_absolute(p),
        !has_other_prefix(p),
        is_plain_from(p, prefix_len(p) + 1, is_verbatim(p)),
    ensures
        translated(p, exists) == mount_point(drive_of(p)) + seq!['/'] + with_slashes(
            p.subrange(prefix_len(p) + 1, p.len() as int),
        ),
{
    let g = |s: Seq<char>| escaped(s);
    let n = prefix_len(p);
    let v = is_verbatim(p);
    absolute_path_translation(p, exists);
    let segs = segments_from(p, n + 1, v);
    lemma_plain_segments(p, n + 1, v);
    lemma_joined_prepend(mount_point(drive_of(p)), segs.map_values(g));
}

/// How many spaces `s` holds.
pub open spec fn spaces(s: Seq<char>) -> nat
    decreases s.len(),
{
    if s.len() == 0 {
        0
    } else if s.last() == ' ' {
        spaces(s.drop_last()) + 1
    } else {
        spaces(s.drop_last())
    }
}

/// How many times a backslash with a space right after it stands in `s`.
pub open spec fn escaped_spaces(s: Seq<char>) -> nat
    decreases s.len(),
{
    if s.len() < 2 {
        0
    } else if s[s.len() - 2] == '\\' && s.last() == ' ' {
        escaped_spaces(s.drop_last()) + 1
    } else {
        escaped_spaces(s.drop_last())
    }
}

/// Whether a backslash stands right before every space of `s`.
pub open spec fn spaces_are_escaped(s: Seq<char>) -> bool {
    forall|i: int| 0 <= i < s.len() && #[trigger] s[i] == ' ' ==> i > 0 && s[i - 1] == '\\'
}

/// How many spaces the parts hold together.
pub open spec fn spaces_in(parts: Seq<Seq<char>>) -> nat
    decreases parts.len(),
{
    if parts.len() == 0 {
        0
    } else {
        spaces_in(parts.drop_last()) + spaces(parts.last())
    }
}

/// The spaces of a text in two pieces are those of the pieces.
proof fn lemma_spaces_concat(a: Seq<char>, b: Seq<char>)
    ensures
        spaces(a + b) == spaces(a) + spaces(b),
    decreases b.len(),
{
    if b.len() == 0 {
    } else {
        assert((a + b).drop_last() == a + b.drop_last());
        lemma_spaces_concat(a, b.drop_last());
    }
}

/// A text without a space holds none.
proof fn lemma_spaces_none(s: Seq<char>)
    requires
        forall|i: int| 0 <= i < s.len() ==> s[i] != ' ',
    ensures
        spaces(s) == 0,
    decreases s.len(),
{
    if s.len() > 0 {
        lemma_spaces_none(s.drop_last());
    }
}

/// Where a backslash stands before every space, there are as many
/// backslashes with a space after them as there are spaces.
proof fn lemma_escaped_spaces_count(s: Seq<char>)
    requires
        spaces_are_escaped(s),
    ensures
        escaped_spaces(s) == spaces(s),
    decreases s.len(),
{
    if s.len() > 0 {
        let init = s.drop_last();
        assert forall|i: int| 0 <= i < init.len() && #[trigger] init[i] == ' ' implies i > 0
            && init[i - 1] == '\\' by {}
        lemma_escaped_spaces_count(init);
    }
}

/// Escaping keeps every space and puts a backslash before it.
proof fn lemma_escaped_keeps_spaces(s: Seq<char>)
    ensures
        spaces(escaped(s)) == spaces(s),
        spaces_are_escaped(escaped(s)),
    decreases s.len(),
{
    if s.len() > 0 {
        let init = escaped(s.drop_last());
        lemma_escaped_keeps_spaces(s.drop_last());
        let out = escaped(s);
        if is_safe_char(s.last()) {
            assert(out.drop_last() == init);
            assert forall|i: int| 0 <= i < out.len() && #[trigger] out[i] == ' ' implies i > 0
                && out[i - 1] == '\\' by {}
        } else {
            let mid = init.push('\\');
            assert(out.drop_last() == mid);
            assert(mid.drop_last() == init);
            assert(spaces(mid) == spaces(init));
            assert forall|i: int| 0 <= i < out.len() && #[trigger] out[i] == ' ' implies i > 0
                && out[i - 1] == '\\' by {}
        }
    }
}

/// Escaping each part keeps the spaces of the parts.
proof fn lemma_escaped_parts(segs: Seq<Seq<char>>)
    ensures
        spaces_in(segs.map_values(|s: Seq<char>| escaped(s))) == spaces_in(segs),
    decreases segs.len(),
{
    let g = |s: Seq<char>| escaped(s);
    if segs.len() > 0 {
        lemma_escaped_parts(segs.drop_last());
        assert(segs.map_values(g).drop_last() == segs.drop_last().map_values(g));
        lemma_escaped_keeps_spaces(segs.last());
    }
}

/// Joining parts in which every space is escaped gives a text in which
/// every space is escaped, with the spaces of the parts.
proof fn lemma_joined_spaces(parts: Seq<Seq<char>>)
    requires
        forall|k: int| 0 <= k < parts.len() ==> spaces_are_escaped(#[trigger] parts[k]),
    ensures
        spaces_are_escaped(joined(parts)),
        spaces(joined(parts)) == spaces_in(parts),
    decreases parts.len(),
{
    if parts.len() == 1 {
        assert(spaces_in(parts.drop_last()) == 0);
    } else if parts.len() > 1 {
        let init = joined(parts.drop_last());
        let last = parts.last();
        assert forall|k: int| 0 <= k < parts.drop_last().len() implies spaces_are_escaped(
            #[trigger] parts.drop_last()[k],
        ) by {}
        lemma_joined_spaces(parts.drop_last());
        let out = joined(parts);
        lemma_spaces_concat(init.push('/'), last);
        assert(init.push('/').drop_last() == init);
        assert forall|i: int| 0 <= i < out.len() && #[trigger] out[i] == ' ' implies i > 0
            && out[i - 1] == '\\' by {}
    }
}

/// The spaces of a first part and the parts after it.
proof fn lemma_spaces_in_prepend(a: Seq<char>, rest: Seq<Seq<char>>)
    ensures
        spaces_in(seq![a] + rest) == spaces(a) + spaces_in(rest),
    decreases rest.len(),
{
    let all = seq![a] + rest;
    if rest.len() == 0 {
        assert(spaces_in(all.drop_last()) == 0);
    } else {
        assert(all.drop_last() == seq![a] + rest.drop_last());
        lemma_spaces_in_prepend(a, rest.drop_last());
    }
}

/// The segments from `from` on hold the spaces of the text from `from` on.
proof fn lemma_segments_spaces(p: Seq<char>, from: int, verbatim: bool)
    requires
        0 <= from <= p.len(),
    ensures
        spaces_in(segments_from(p, from, verbatim)) == spaces(p.subrange(from, p.len() as int)),
    decreases p.len() - from,
{
    let n = p.len() as int;
    if from >= n {
    } else {
        lemma_segment_end_bounds(p, from, verbatim);
        let end = segment_end(p, from, verbatim);
        let piece = p.subrange(from, end);
        if piece == seq!['.'] {
            lemma_spaces_none(piece);
        }
        if end < n {
            let rest = segments_from(p, end + 1, verbatim);
            lemma_segments_spaces(p, end + 1, verbatim);
            lemma_spaces_in_prepend(piece, rest);
            let sep = p.subrange(end, end + 1);
            lemma_spaces_none(sep);
            assert(p.subrange(from, n) == piece + sep + p.subrange(end + 1, n));
            lemma_spaces_concat(piece + sep, p.subrange(end + 1, n));
            lemma_spaces_concat(piece, sep);
        } else {
            lemma_spaces_in_prepend(piece, Seq::empty());
        }
    }
}

/// The mount path that stands for a path holds the spaces of the path, and
/// a backslash stands right before each of them: there are as many
/// backslashes with a space after them as the path has spaces.
pub proof fn every_space_is_escaped(p: Seq<char>)
    requires
        !has_other_prefix(p),
    ensures
        spaces_are_escaped(encoded_path(p)),
        spaces(encoded_path(p)) == spaces(p),
        escaped_spaces(encoded_path(p)) == spaces(p),
{
    let g = |s: Seq<char>| escaped(s);
    let n = p.len() as int;
    let start = body_start(p);
    let segs = named_segments(p);
    let body = segments_from(p, start, is_verbatim(p));
    let prefix = match prefix_of(p) {
        Some(x) => seq![Component::Prefix(x)],
        None => Seq::empty(),
    };
    let root = if has_root_component(p) {
        seq![Component::Root]
    } else {
        Seq::empty()
    };
    let head = prefix + root;
    lemma_parts_of_segments(head, segs);
    let first = parts_of(head);
    assert(first.len() <= 1 && (first.len() == 1 ==> prefix_of(p) is Some && first[0]
        == mount_point(drive_of(p)))) by {
        reveal_with_fuel(parts_of, 3);
    }
    let parts = first + segs.map_values(g);
    lemma_escaped_parts(segs);
    let point = mount_point(drive_of(p));
    if first.len() == 1 {
        assert forall|i: int| 0 <= i < point.len() implies point[i] != ' ' by {}
        lemma_spaces_none(point);
        assert(first == seq![point]);
        lemma_spaces_in_prepend(point, segs.map_values(g));
    }
    assert forall|k: int| 0 <= k < parts.len() implies spaces_are_escaped(
        #[trigger] parts[k],
    ) by {
        if k >= first.len() {
            lemma_escaped_keeps_spaces(segs[k - first.len()]);
        }
    }
    lemma_joined_spaces(parts);
    lemma_escaped_spaces_count(encoded_path(p));
    lemma_segments_spaces(p, start, is_verbatim(p));
    if starts_with_current_dir(p) {
        lemma_spaces_none(seq!['.']);
        lemma_spaces_in_prepend(seq!['.'], body);
    }
    let lead = p.subrange(0, start);
    assert forall|i: int| 0 <= i < lead.len() implies lead[i] != ' ' by {}
    lemma_spaces_none(lead);
    assert(p == lead + p.subrange(start, n));
    lemma_spaces_concat(lead, p.subrange(start, n));
}

/// A path that is translated as a whole holds as many spaces as its
/// translation, and in the translation a backslash stands right before each
/// of them.
pub proof fn spaces_of_translated_path(arg: Seq<char>, exists: bool)
    requires
        !is_long_option(arg),
        !has_other_prefix(arg),
        is_absolute(arg) || exists,
    ensures
        spaces_are_escaped(translated(arg, exists)),
        spaces(translated(arg, exists)) == spaces(arg),
        escaped_spaces(translated(arg, exists)) == spaces(arg),
{
    assert(option_value(arg) == arg);
    every_space_is_escaped(arg);
}

} // verus!
