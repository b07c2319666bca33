//! Windows path syntax: prefixes, roots and named segments.
//!
//! A path is read as an optional prefix, an optional root and a run of
//! segments. Two prefix forms carry a drive letter: `X:` and the verbatim
//! `\\?\X:`. Three carry none: any other verbatim path (one that begins
//! with `\\?\`), a device (two separators, `.` and a separator) and a
//! network share (two separators, a server and a share, neither of them
//! empty). A path that begins with two separators and has none of these
//! forms has no prefix; it has a root, like any path that begins with a
//! separator.
//!
//! Outside verbatim paths both `\` and `/` separate segments, and a segment
//! `.` is dropped, except at the very start of a path without prefix and
//! root. In a verbatim path only `\` separates, and every non-empty segment
//! counts.

use vstd::prelude::*;
use crate::text::substring;

verus! {

/// The prefix of a Windows path.
#[derive(Clone, Copy, Debug, PartialEq, Eq, Structural)]
pub enum PathPrefix {
    /// `X:`, with the drive letter as written.
    Disk(u8),
    /// `\\?\X:`, with the drive letter as written.
    VerbatimDisk(u8),
    /// A prefix without a drive letter.
    Other,
}

impl PathPrefix {
    /// The drive letter that the prefix carries, as written.
    pub open spec fn drive(self) -> Option<u8> {
        match self {
            PathPrefix::Disk(d) => Some(d),
            PathPrefix::VerbatimDisk(d) => Some(d),
            PathPrefix::Other => None,
        }
    }

    /// The drive letter, if there is one, is an ASCII character.
    pub open spec fn is_ascii(self) -> bool {
        self.drive() matches Some(d) ==> d < 0x80
    }
}

/// One part of a decomposed path, as contracts speak of it.
pub enum Component {
    /// The prefix of the path.
    Prefix(PathPrefix),
    /// The root: the separator after the prefix, or the root that the prefix
    /// implies.
    Root,
    /// A named segment.
    Segment(Seq<char>),
}

/// One part of a decomposed path.
#[derive(Debug)]
pub enum PathComponent {
    /// The prefix of the path.
    Prefix(PathPrefix),
    /// The root: the separator after the prefix, or the root that the prefix
    /// implies.
    Root,
    /// A named segment.
    Segment(String),
}

impl View for PathComponent {
    type V = Component;

    open spec fn view(&self) -> Component {
        match self {
            PathComponent::Prefix(p) => Component::Prefix(*p),
            PathComponent::Root => Component::Root,
            PathComponent::Segment(s) => Component::Segment(s@),
        }
    }
}

/// Whether `c` is `\` or `/`.
pub open spec fn is_separator(c: char) -> bool {
    c == '\\' || c == '/'
}

/// Whether `c` is an ASCII letter.
pub open spec fn is_drive_letter(c: char) -> bool {
    ('a' <= c && c <= 'z') || ('A' <= c && c <= 'Z')
}

/// Whether `p` begins with two separators.
pub open spec fn starts_with_two_separators(p: Seq<char>) -> bool {
    p.len() >= 2 && is_separator(p[0]) && is_separator(p[1])
}

/// Whether `p` is a verbatim path: it begins with `\\?\`, written with
/// backslashes.
pub open spec fn is_verbatim(p: Seq<char>) -> bool {
    p.len() >= 4 && p[0] == '\\' && p[1] == '\\' && p[2] == '?' && p[3] == '\\'
}

/// Whether `p` begins with `\\?\X:` and that prefix ends the path or is
/// followed by a separator.
pub open spec fn has_verbatim_disk(p: Seq<char>) -> bool {
    &&& is_verbatim(p)
    &&& p.len() >= 6
    &&& is_drive_letter(p[4])
    &&& p[5] == ':'
    &&& (p.len() == 6 || is_separator(p[6]))
}

/// Whether `p` begins with `\\?\UNC` and a separator: a verbatim network
/// share.
pub open spec fn has_verbatim_share(p: Seq<char>) -> bool {
    is_verbatim(p) && p.len() >= 8 && p[4] == 'U' && p[5] == 'N' && p[6] == 'C' && is_separator(
        p[7],
    )
}

/// Whether `p` begins with two separators, `.` and a separator: a device.
pub open spec fn has_device(p: Seq<char>) -> bool {
    starts_with_two_separators(p) && p.len() >= 4 && p[2] == '.' && is_separator(p[3])
}

/// Whether `p` begins with two separators, a server and a share, neither of
/// them empty: a network share.
pub open spec fn has_share(p: Seq<char>) -> bool {
    let server_end = segment_end(p, 2, false);
    let share_end = segment_end(p, server_end + 1, false);
    &&& starts_with_two_separators(p)
    &&& !is_verbatim(p)
    &&& !has_device(p)
    &&& 2 < server_end < p.len()
    &&& share_end > server_end + 1
}

/// Whether `p` begins with `X:`.
pub open spec fn has_disk(p: Seq<char>) -> bool {
    p.len() >= 2 && is_drive_letter(p[0]) && p[1] == ':'
}

/// Whether `p` has a prefix that carries no drive letter: it is a verbatim
/// path without a drive, a device or a network share.
pub open spec fn has_other_prefix(p: Seq<char>) -> bool {
    (is_verbatim(p) && !has_verbatim_disk(p)) || has_device(p) || has_share(p)
}

/// The prefix of `p`, if it has one.
pub open spec fn prefix_of(p: Seq<char>) -> Option<PathPrefix> {
    if has_verbatim_disk(p) {
        Some(PathPrefix::VerbatimDisk(p[4] as u8))
    } else if has_other_prefix(p) {
        Some(PathPrefix::Other)
    } else if has_disk(p) {
        Some(PathPrefix::Disk(p[0] as u8))
    } else {
        None
    }
}

/// Where a name and, if one follows it, a second name end that begin at
/// `from`: after the second name where it is not empty, else after the
/// first.
pub open spec fn two_names_end(p: Seq<char>, from: int, verbatim: bool) -> int {
    let first = segment_end(p, from, verbatim);
    let second = segment_end(p, first + 1, verbatim);
    if first < p.len() && second > first + 1 {
        second
    } else {
        first
    }
}

/// How many characters of `p` the prefix takes.
pub open spec fn prefix_len(p: Seq<char>) -> int {
    if has_verbatim_disk(p) {
        6
    } else if has_verbatim_share(p) {
        two_names_end(p, 8, true)
    } else if is_verbatim(p) {
        segment_end(p, 4, true)
    } else if has_device(p) {
        segment_end(p, 4, false)
    } else if has_share(p) {
        two_names_end(p, 2, false)
    } else if has_disk(p) {
        2
    } else {
        0
    }
}

/// Whether `c` separates segments.
pub open spec fn separates(c: char, verbatim: bool) -> bool {
    c == '\\' || (!verbatim && c == '/')
}

/// Whether a separator stands right after the prefix of `p`.
pub open spec fn has_physical_root(p: Seq<char>) -> bool {
    p.len() > prefix_len(p) && is_separator(p[prefix_len(p)])
}

/// Whether `p` has a root: a separator right after the prefix, or a prefix
/// that implies one. Every prefix but `X:` implies a root.
pub open spec fn has_root(p: Seq<char>) -> bool {
    has_physical_root(p) || has_verbatim_disk(p) || has_other_prefix(p)
}

/// Whether the root of `p` counts as a component: a separator stands after
/// the prefix, or the path has a root and is not verbatim.
pub open spec fn has_root_component(p: Seq<char>) -> bool {
    has_physical_root(p) || (has_root(p) && !is_verbatim(p))
}

/// Whether `p` is absolute: it has a prefix and a root.
pub open spec fn is_absolute(p: Seq<char>) -> bool {
    prefix_of(p) is Some && has_root(p)
}

/// Where the segments of `p` begin: after the prefix and the separator
/// that follows it.
pub open spec fn body_start(p: Seq<char>) -> int {
    if has_physical_root(p) {
        prefix_len(p) + 1
    } else {
        prefix_len(p)
    }
}

/// The end of the segment that begins at `from`: the index of the next
/// separator, or the length of `s`.
pub open spec fn segment_end(s: Seq<char>, from: int, verbatim: bool) -> int
    decreases s.len() - from,
{
    if from >= s.len() || separates(s[from], verbatim) {
        from
    } else {
        segment_end(s, from + 1, verbatim)
    }
}

/// Whether the piece of text between two separators counts as a segment.
pub open spec fn is_kept(piece: Seq<char>, verbatim: bool) -> bool {
    piece.len() > 0 && (verbatim || piece != seq!['.'])
}

/// The segments of `s` that begin at or after `from`.
pub open spec fn segments_from(s: Seq<char>, from: int, verbatim: bool) -> Seq<Seq<char>>
    decreases s.len() - from,
    via segments_from_decreases
{
    if from >= s.len() || from < 0 {
        Seq::empty()
    } else {
        let end = segment_end(s, from, verbatim);
        let piece = s.subrange(from, end);
        let rest = if end < s.len() {
            segments_from(s, end + 1, verbatim)
        } else {
            Seq::empty()
        };
        if is_kept(piece, verbatim) {
            seq![piece] + rest
        } else {
            rest
        }
    }
}

#[via_fn]
proof fn segments_from_decreases(s: Seq<char>, from: int, verbatim: bool) {
    if 0 <= from < s.len() {
        lemma_segment_end_bounds(s, from, verbatim);
    }
}

/// A segment lies within the text, holds no separator, and ends at one or at
/// the end of the text.
pub proof fn lemma_segment_end_bounds(s: Seq<char>, from: int, verbatim: bool)
    requires
        0 <= from <= s.len(),
    ensures
        from <= segment_end(s, from, verbatim) <= s.len(),
        segment_end(s, from, verbatim) < s.len() ==> separates(
            s[segment_end(s, from, verbatim)],
            verbatim,
        ),
        forall|i: int| from <= i < segment_end(s, from, verbatim) ==> !separates(s[i], verbatim),
    decreases s.len() - from,
{
    if from >= s.len() || separates(s[from], verbatim) {
    } else {
        lemma_segment_end_bounds(s, from + 1, verbatim);
    }
}

/// Whether `p` begins with a segment `.` that counts: it has neither prefix
/// nor root, and begins with `.` alone or with `.` and a separator.
pub open spec fn starts_with_current_dir(p: Seq<char>) -> bool {
    &&& prefix_of(p) is None
    &&& p.len() > 0
    &&& p[0] == '.'
    &&& (p.len() == 1 || is_separator(p[1]))
}

/// The named segments of `p`, in order.
pub open spec fn named_segments(p: Seq<char>) -> Seq<Seq<char>> {
    let lead = if starts_with_current_dir(p) {
        seq![seq!['.']]
    } else {
        Seq::empty()
    };
    lead + segments_from(p, body_start(p), is_verbatim(p))
}

/// The components of `p`: the prefix if there is one, the root if it
/// counts, then the named segments.
pub open spec fn components(p: Seq<char>) -> Seq<Component> {
    let prefix = match prefix_of(p) {
        Some(x) => seq![Component::Prefix(x)],
        None => Seq::empty(),
    };
    let root = if has_root_component(p) {
        seq![Component::Root]
    } else {
        Seq::empty()
    };
    prefix + root + named_segments(p).map_values(|s: Seq<char>| Component::Segment(s))
}

/// The views of a run of components.
pub open spec fn component_views(v: Seq<PathComponent>) -> Seq<Component> {
    v.map_values(|c: PathComponent| c@)
}

/// Whether `c` is `\` or `/`.
pub fn separator(c: char) -> (b: bool)
    ensures
        b == is_separator(c),
{
    c == '\\' || c == '/'
}

/// Whether `c` is an ASCII letter.
pub fn drive_letter(c: char) -> (b: bool)
    ensures
        b == is_drive_letter(c),
{
    ('a' <= c && c <= 'z') || ('A' <= c && c <= 'Z')
}

/// Whether `c` separates segments.
fn separating(c: char, verbatim: bool) -> (b: bool)
    ensures
        b == separates(c, verbatim),
{
    c == '\\' || (!verbatim && c == '/')
}

/// The end of the segment that begins at `from`.
fn scan_segment(p: &[char], from: usize, verbatim: bool) -> (end: usize)
    requires
        from <= p@.len(),
    ensures
        end == segment_end(p@, from as int, verbatim),
        from <= end <= p@.len(),
{
    let mut end: usize = from;
    while end < p.len() && !separating(p[end], verbatim)
        invariant
            from <= end <= p.len(),
            segment_end(p@, from as int, verbatim) == segment_end(p@, end as int, verbatim),
        decreases p.len() - end,
    {
        end += 1;
    }
    end
}

/// Where a name and, if one follows it, a second name end.
fn scan_two_names(p: &[char], from: usize, verbatim: bool) -> (end: usize)
    requires
        from <= p@.len(),
    ensures
        end == two_names_end(p@, from as int, verbatim),
        from <= end <= p@.len(),
{
    let first = scan_segment(p, from, verbatim);
    if first < p.len() {
        let second = scan_segment(p, first + 1, verbatim);
        if second > first + 1 {
            return second;
        }
    }
    first
}

/// Whether `p` is a verbatim path.
fn verbatim_path(p: &[char]) -> (b: bool)
    ensures
        b == is_verbatim(p@),
{
    p.len() >= 4 && p[0] == '\\' && p[1] == '\\' && p[2] == '?' && p[3] == '\\'
}

/// Whether `p` begins with a verbatim drive prefix.
fn verbatim_disk(p: &[char]) -> (b: bool)
    ensures
        b == has_verbatim_disk(p@),
{
    verbatim_path(p) && p.len() >= 6 && drive_letter(p[4]) && p[5] == ':' && (p.len() == 6
        || separator(p[6]))
}

/// Whether `p` begins with the prefix of a verbatim network share.
fn verbatim_share(p: &[char]) -> (b: bool)
    ensures
        b == has_verbatim_share(p@),
{
    verbatim_path(p) && p.len() >= 8 && p[4] == 'U' && p[5] == 'N' && p[6] == 'C' && separator(
        p[7],
    )
}

/// Whether `p` begins with the prefix of a device.
fn device(p: &[char]) -> (b: bool)
    ensures
        b == has_device(p@),
{
    p.len() >= 4 && separator(p[0]) && separator(p[1]) && p[2] == '.' && separator(p[3])
}

/// Whether `p` begins with the prefix of a network share.
fn share(p: &[char]) -> (b: bool)
    ensures
        b == has_share(p@),
{
    if p.len() >= 2 && separator(p[0]) && separator(p[1]) && !verbatim_path(p) && !device(p) {
        let server_end = scan_segment(p, 2, false);
        if 2 < server_end && server_end < p.len() {
            let share_end = scan_segment(p, server_end + 1, false);
            share_end > server_end + 1
        } else {
            false
        }
    } else {
        false
    }
}

/// Whether `p` begins with `X:`.
fn disk(p: &[char]) -> (b: bool)
    ensures
        b == has_disk(p@),
{
    p.len() >= 2 && drive_letter(p[0]) && p[1] == ':'
}

/// The prefix that `p` begins with.
pub fn path_prefix(p: &[char]) -> (prefix: Option<PathPrefix>)
    ensures
        prefix == prefix_of(p@),
{
    if verbatim_disk(p) {
        Some(PathPrefix::VerbatimDisk(p[4] as u8))
    } else if verbatim_path(p) || device(p) || share(p) {
        Some(PathPrefix::Other)
    } else if disk(p) {
        Some(PathPrefix::Disk(p[0] as u8))
    } else {
        None
    }
}

/// How many characters of `p` the prefix takes.
fn prefix_length(p: &[char]) -> (n: usize)
    ensures
        n == prefix_len(p@),
        n <= p@.len(),
{
    if verbatim_disk(p) {
        6
    } else if verbatim_share(p) {
        scan_two_names(p, 8, true)
    } else if verbatim_path(p) {
        scan_segment(p, 4, true)
    } else if device(p) {
        scan_segment(p, 4, false)
    } else if share(p) {
        scan_two_names(p, 2, false)
    } else if disk(p) {
        2
    } else {
        0
    }
}

/// Whether `p` has a root.
pub fn path_has_root(p: &[char]) -> (b: bool)
    ensures
        b == has_root(p@),
{
    let n = prefix_length(p);
    (n < p.len() && separator(p[n])) || match path_prefix(p) {
        Some(PathPrefix::Disk(_)) => false,
        Some(_) => true,
        None => false,
    }
}

/// Whether `p` is an absolute path.
pub fn path_is_absolute(p: &[char]) -> (b: bool)
    ensures
        b == is_absolute(p@),
{
    path_prefix(p).is_some() && path_has_root(p)
}

/// Decomposes `p` into its components.
pub fn decompose(p: &[char]) -> (out: Vec<PathComponent>)
    ensures
        component_views(out@) == components(p@),
{
    let mut out: Vec<PathComponent> = Vec::new();
    let prefix = path_prefix(p);
    match prefix {
        Some(x) => out.push(PathComponent::Prefix(x)),
        None => {},
    }
    let verbatim = verbatim_path(p);
    let n = prefix_length(p);
    let physical = n < p.len() && separator(p[n]);
    if physical || (path_has_root(p) && !verbatim) {
        out.push(PathComponent::Root);
    }
    if prefix.is_none() && p.len() > 0 && p[0] == '.' && (p.len() == 1 || separator(p[1])) {
        out.push(PathComponent::Segment(substring(p, 0, 1)));
        assert(p@.subrange(0, 1) == seq!['.']);
    }
    let mut from: usize = if physical {
        n + 1
    } else {
        n
    };
    assert(components(p@) == component_views(out@) + segments_from(
        p@,
        from as int,
        verbatim,
    ).map_values(|s: Seq<char>| Component::Segment(s)));
    while from < p.len()
        invariant
            from <= p.len(),
            component_views(out@) + segments_from(p@, from as int, verbatim).map_values(
                |s: Seq<char>| Component::Segment(s),
            ) == components(p@),
        decreases p.len() - from,
    {
        let end = scan_segment(p, from, verbatim);
        let ghost before = component_views(out@);
        let ghost piece = p@.subrange(from as int, end as int);
        let ghost rest = if end < p.len() {
            segments_from(p@, end + 1, verbatim)
        } else {
            Seq::empty()
        };
        let kept = end > from && (verbatim || !(end == from + 1 && p[from] == '.'));
        proof {
            if piece == seq!['.'] {
                assert(piece.len() == 1);
                assert(piece[0] == '.');
            }
            if end == from + 1 && p[from as int] == '.' {
                assert(piece =~= seq!['.']);
            }
            assert(kept == is_kept(piece, verbatim));
        }
        if kept {
            out.push(PathComponent::Segment(substring(p, from, end)));
            proof {
                let f = |s: Seq<char>| Component::Segment(s);
                assert(component_views(out@) == before.push(Component::Segment(piece)));
                assert((seq![piece] + rest).map_values(f) == seq![Component::Segment(piece)]
                    + rest.map_values(f));
            }
        }
        from = if end < p.len() {
            end + 1
        } else {
            end
        };
    }
    out
}

} // verus!
