//! From Windows paths and arguments to mount paths.

use vstd::prelude::*;
use crate::pattern::{replace_unsafe, ESCAPE_PATTERN, ESCAPE_REPLACEMENT};
use crate::text::{first_index, owned_text, substring, to_chars};
use crate::winpath::{
    component_views, components, decompose, has_other_prefix, is_absolute, path_is_absolute,
    path_prefix, prefix_of, Component, PathComponent, PathPrefix,
};

verus! {

/// The lower-case form of an ASCII character.
pub open spec fn lowercase(b: u8) -> u8 {
    if 'A' as u8 <= b && b <= 'Z' as u8 {
        (b + 32) as u8
    } else {
        b
    }
}

/// `/mnt/`
pub open spec fn mount_root() -> Seq<char> {
    seq!['/', 'm', 'n', 't', '/']
}

/// The mount point of drive `d`: `/mnt/` and the lower-case drive letter.
pub open spec fn mount_point(d: u8) -> Seq<char> {
    mount_root().push(lowercase(d) as char)
}

/// The lower-case drive letter of a prefix, as text of one character.
pub open spec fn drive_letter_of(pc: PathPrefix) -> Option<Seq<char>> {
    match pc.drive() {
        Some(d) => Some(seq![lowercase(d) as char]),
        None => None,
    }
}

/// The lower-case drive letter of a prefix, as text.
pub fn get_drive_letter(pc: &PathPrefix) -> (letter: Option<String>)
    requires
        pc.is_ascii(),
    ensures
        owned_text(letter) == drive_letter_of(*pc),
{
    let drive = match pc {
        PathPrefix::VerbatimDisk(d) => Some(*d),
        PathPrefix::Disk(d) => Some(*d),
        PathPrefix::Other => None,
    };
    match drive {
        Some(d) => {
            let lower: u8 = if 65 <= d && d <= 90 {
                d + 32
            } else {
                d
            };
            let mut s = String::new();
            s.push(lower as char);
            Some(s)
        },
        None => None,
    }
}

/// The mount point for a drive: `/mnt/` followed by `drive`.
pub fn get_prefix_for_drive(drive: String) -> (prefix: String)
    ensures
        prefix@ == mount_root() + drive@,
{
    let mut prefix = String::new();
    prefix.push('/');
    prefix.push('m');
    prefix.push('n');
    prefix.push('t');
    prefix.push('/');
    prefix.append(drive.as_str());
    prefix
}

/// The characters that stay as they are in a mount path: ASCII letters and
/// digits, and `,._+@%/-`.
pub open spec fn is_safe_char(c: char) -> bool {
    ||| ('a' <= c && c <= 'z')
    ||| ('A' <= c && c <= 'Z')
    ||| ('0' <= c && c <= '9')
    ||| c == ','
    ||| c == '.'
    ||| c == '_'
    ||| c == '+'
    ||| c == '@'
    ||| c == '%'
    ||| c == '/'
    ||| c == '-'
}

/// `s` with a backslash in front of every character outside the safe set.
pub open spec fn escaped(s: Seq<char>) -> Seq<char>
    decreases s.len(),
{
    if s.len() == 0 {
        s
    } else if is_safe_char(s.last()) {
        escaped(s.drop_last()).push(s.last())
    } else {
        escaped(s.drop_last()).push('\\').push(s.last())
    }
}

/// Whether `arg` has the shape `--name=value`: it begins with `--` and holds
/// a `=`.
pub open spec fn is_long_option(arg: Seq<char>) -> bool {
    arg.len() >= 2 && arg[0] == '-' && arg[1] == '-' && first_index(arg, '=', 0) < arg.len()
}

/// Where the value of `arg` begins: after the first `=` of a long option,
/// else at the start.
pub open spec fn value_start(arg: Seq<char>) -> int {
    if is_long_option(arg) {
        first_index(arg, '=', 0) + 1
    } else {
        0
    }
}

/// The part of `arg` up to and including the `=` of a long option; empty for
/// any other argument.
pub open spec fn option_name(arg: Seq<char>) -> Seq<char> {
    arg.subrange(0, value_start(arg))
}

/// The part of `arg` that may be a path.
pub open spec fn option_value(arg: Seq<char>) -> Seq<char> {
    arg.subrange(value_start(arg), arg.len() as int)
}

/// What a component contributes to the mount path: a prefix its mount point,
/// the root nothing, a segment its escaped text.
pub open spec fn part_of(c: Component) -> Option<Seq<char>> {
    match c {
        Component::Prefix(x) => match x.drive() {
            Some(d) => Some(mount_point(d)),
            None => None,
        },
        Component::Root => None,
        Component::Segment(s) => Some(escaped(s)),
    }
}

/// The contributions of a run of components, in order.
pub open spec fn parts_of(cs: Seq<Component>) -> Seq<Seq<char>>
    decreases cs.len(),
{
    if cs.len() == 0 {
        Seq::empty()
    } else {
        match part_of(cs.last()) {
            Some(t) => parts_of(cs.drop_last()).push(t),
            None => parts_of(cs.drop_last()),
        }
    }
}

/// The parts with a `/` between each two.
pub open spec fn joined(parts: Seq<Seq<char>>) -> Seq<char>
    decreases parts.len(),
{
    if parts.len() == 0 {
        Seq::empty()
    } else if parts.len() == 1 {
        parts[0]
    } else {
        joined(parts.drop_last()).push('/') + parts.last()
    }
}

/// The mount path that stands for the Windows path `p`.
pub open spec fn encoded_path(p: Seq<char>) -> Seq<char> {
    joined(parts_of(components(p)))
}

/// The translation of one argument. The value of the argument is translated
/// where it is an absolute path or names something that exists; the name of
/// a long option stays in front of it. Any other argument stays as it is.
pub open spec fn translated(arg: Seq<char>, exists: bool) -> Seq<char> {
    if is_absolute(option_value(arg)) || exists {
        option_name(arg) + encoded_path(option_value(arg))
    } else {
        arg
    }
}

/// Where the value of the argument begins.
fn find_value_start(arg: &[char]) -> (k: usize)
    ensures
        k == value_start(arg@),
        k <= arg@.len(),
{
    if arg.len() >= 2 && arg[0] == '-' && arg[1] == '-' {
        let mut i: usize = 0;
        while i < arg.len() && arg[i] != '='
            invariant
                i <= arg.len(),
                first_index(arg@, '=', 0) == first_index(arg@, '=', i as int),
            decreases arg.len() - i,
        {
            i += 1;
        }
        if i < arg.len() {
            i + 1
        } else {
            0
        }
    } else {
        0
    }
}

/// The part of the argument that may be a path: what follows the first `=`
/// of a long option, else the whole argument.
pub fn argument_value(argument: &str) -> (value: String)
    ensures
        value@ == option_value(argument@),
{
    let chars = to_chars(argument);
    let k = find_value_start(chars.as_slice());
    substring(chars.as_slice(), k, chars.len())
}

/// Whether the value of the argument has a prefix that carries no drive
/// letter. Such an argument cannot be translated.
pub fn has_unsupported_prefix(argument: &str) -> (b: bool)
    ensures
        b == has_other_prefix(option_value(argument@)),
{
    let chars = to_chars(argument);
    let k = find_value_start(chars.as_slice());
    let value = vstd::slice::slice_subrange(chars.as_slice(), k, chars.len());
    match path_prefix(value) {
        Some(PathPrefix::Other) => true,
        _ => false,
    }
}

/// Whether the value of the argument is an absolute Windows path.
pub fn is_absolute_argument(argument: &str) -> (b: bool)
    ensures
        b == is_absolute(option_value(argument@)),
{
    let chars = to_chars(argument);
    let k = find_value_start(chars.as_slice());
    let value = vstd::slice::slice_subrange(chars.as_slice(), k, chars.len());
    path_is_absolute(value)
}

/// Escapes a path segment: a backslash goes in front of every character
/// outside the safe set.
pub fn escape_segment(segment: &str) -> (out: String)
    ensures
        out@ == escaped(segment@),
{
    replace_unsafe(ESCAPE_PATTERN, ESCAPE_REPLACEMENT, segment)
}

/// Appends the mount path that stands for `path` to `out`.
fn append_encoded(out: &mut String, path: &[char])
    requires
        !has_other_prefix(path@),
    ensures
        final(out)@ == old(out)@ + encoded_path(path@),
{
    let comps = decompose(path);
    let ghost cs = components(path@);
    let mut first = true;
    let mut i: usize = 0;
    while i < comps.len()
        invariant
            i <= comps.len(),
            component_views(comps@) == cs,
            cs == components(path@),
            !has_other_prefix(path@),
            first == (parts_of(cs.take(i as int)).len() == 0),
            out@ == old(out)@ + joined(parts_of(cs.take(i as int))),
        decreases comps.len() - i,
    {
        assert(cs.take(i + 1).drop_last() == cs.take(i as int));
        let ghost before = parts_of(cs.take(i as int));
        let part: Option<String> = match &comps[i] {
            PathComponent::Prefix(x) => {
                proof {
                    lemma_prefix_component(path@, i as int);
                }
                match get_drive_letter(x) {
                    Some(letter) => Some(get_prefix_for_drive(letter)),
                    None => None,
                }
            },
            PathComponent::Root => None,
            PathComponent::Segment(s) => Some(escape_segment(s.as_str())),
        };
        match part {
            Some(t) => {
                if !first {
                    out.push('/');
                }
                out.append(t.as_str());
                first = false;
                proof {
                    let after = before.push(t@);
                    assert(after.drop_last() == before);
                }
            },
            None => {},
        }
        i += 1;
    }
    assert(cs.take(comps.len() as int) == cs);
}

/// The mount path that stands for a Windows path.
pub fn encode_path(path: &str) -> (out: String)
    requires
        !has_other_prefix(path@),
    ensures
        out@ == encoded_path(path@),
{
    let chars = to_chars(path);
    let mut out = String::new();
    append_encoded(&mut out, chars.as_slice());
    out
}

/// Translates one command-line argument to the form that the subsystem
/// reads. `exists` says whether the value of the argument names something
/// on disk.
pub fn translate_path_to_unix(argument: String, exists: bool) -> (out: String)
    requires
        !has_other_prefix(option_value(argument@)),
    ensures
        out@ == translated(argument@, exists),
{
    let chars = to_chars(argument.as_str());
    let k = find_value_start(chars.as_slice());
    let value = vstd::slice::slice_subrange(chars.as_slice(), k, chars.len());
    if !(path_is_absolute(value) || exists) {
        return argument;
    }
    let mut out = substring(chars.as_slice(), 0, k);
    append_encoded(&mut out, value);
    out
}

/// A prefix component of a path is the prefix of the path, and a drive
/// letter that a path begins with is an ASCII letter.
proof fn lemma_prefix_component(p: Seq<char>, i: int)
    requires
        0 <= i < components(p).len(),
        components(p)[i] is Prefix,
    ensures
        prefix_of(p) == Some(components(p)[i]->Prefix_0),
        !has_other_prefix(p) ==> components(p)[i]->Prefix_0.is_ascii()
            && components(p)[i]->Prefix_0.drive() is Some,
{
}

} // verus!
