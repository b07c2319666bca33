//! The table of drives and mount points, and the lines it is read from and
//! written to.
//!
//! The subsystem lists its mounts one to a line; a line that begins with a
//! drive letter, `:`, whitespace, `on` and whitespace names the mount point
//! of that drive. The table is kept in a file with one line to a drive: the
//! lower-case drive letter, a space and the mount point.

use vstd::prelude::*;
use crate::pattern::{capture_mount_line, MOUNT_LINE_PATTERN};
use crate::text::{
    blank_end, first_index, lowercased, pair_text, same_text, substring, to_chars,
    to_lowercase_ascii, word_end,
};
use crate::winpath::has_disk;

verus! {

/// Whether `on` stands at index `i` of `s`.
pub open spec fn on_at(s: Seq<char>, i: int) -> bool {
    0 <= i && i + 2 <= s.len() && s[i] == 'o' && s[i + 1] == 'n'
}

/// The drive letter and the mount point that a line of the mount list
/// names, where it names any: the line begins with a drive letter and `:`;
/// after one or more whitespace characters comes `on`; after one or more
/// whitespace characters again comes the mount point, which reaches to the
/// next whitespace character or to the end of the line.
pub open spec fn mount_line_fields(s: Seq<char>) -> Option<(Seq<char>, Seq<char>)> {
    let word = blank_end(s, 2);
    let path = blank_end(s, word + 2);
    let end = word_end(s, path);
    if has_disk(s) && word > 2 && on_at(s, word) && path > word + 2 && end > path {
        Some((s.subrange(0, 1), s.subrange(path, end)))
    } else {
        None
    }
}

/// What a line of the mount list adds to the table: the drive letter in
/// lower case and the mount point.
pub open spec fn mount_line_entry(s: Seq<char>) -> Option<(Seq<char>, Seq<char>)> {
    match mount_line_fields(s) {
        Some((drive, path)) => Some((lowercased(drive), path)),
        None => None,
    }
}

/// The line that keeps an entry in the file: the drive, a space, the mount
/// point and a line feed.
pub open spec fn entry_line(drive: Seq<char>, path: Seq<char>) -> Seq<char> {
    (drive.push(' ') + path).push('\n')
}

/// The line that shows an entry to the user: the drive, ` <-> ` and the
/// mount point.
pub open spec fn entry_display(drive: Seq<char>, path: Seq<char>) -> Seq<char> {
    drive + seq![' ', '<', '-', '>', ' '] + path
}

/// The entry that a line of the file holds: what stands before its first
/// space and what stands after it. A line without a space holds none.
pub open spec fn file_line_entry(s: Seq<char>) -> Option<(Seq<char>, Seq<char>)> {
    let k = first_index(s, ' ', 0);
    if k < s.len() {
        Some((s.subrange(0, k), s.subrange(k + 1, s.len() as int)))
    } else {
        None
    }
}

/// Reads one line of the mount list.
pub fn parse_mount_line(line: &str) -> (entry: Option<(String, String)>)
    ensures
        pair_text(entry) == mount_line_entry(line@),
{
    match capture_mount_line(MOUNT_LINE_PATTERN, line) {
        Some((drive, path)) => Some((to_lowercase_ascii(drive.as_str()), path)),
        None => None,
    }
}

/// Writes one entry as a line of the file.
pub fn format_entry_line(drive: &str, path: &str) -> (line: String)
    ensures
        line@ == entry_line(drive@, path@),
{
    let mut line = String::new();
    line.append(drive);
    line.push(' ');
    line.append(path);
    line.push('\n');
    line
}

/// Writes one entry as it is shown to the user.
pub fn format_entry_display(drive: &str, path: &str) -> (line: String)
    ensures
        line@ == entry_display(drive@, path@),
{
    let mut line = String::new();
    line.append(drive);
    line.push(' ');
    line.push('<');
    line.push('-');
    line.push('>');
    line.push(' ');
    line.append(path);
    line
}

/// Reads one line of the file.
pub fn parse_file_line(line: &str) -> (entry: Option<(String, String)>)
    ensures
        pair_text(entry) == file_line_entry(line@),
{
    let chars = to_chars(line);
    let mut k: usize = 0;
    while k < chars.len() && chars[k] != ' '
        invariant
            k <= chars.len(),
            first_index(chars@, ' ', 0) == first_index(chars@, ' ', k as int),
        decreases chars.len() - k,
    {
        k += 1;
    }
    if k < chars.len() {
        Some((substring(chars.as_slice(), 0, k), substring(chars.as_slice(), k + 1, chars.len())))
    } else {
        None
    }
}

/// The views of a list of entries.
pub open spec fn entry_views(es: Seq<(String, String)>) -> Seq<(Seq<char>, Seq<char>)> {
    es.map_values(|e: (String, String)| (e.0@, e.1@))
}

/// The table that a list of entries stands for; a later entry for a drive
/// replaces an earlier one.
pub open spec fn table_of(es: Seq<(Seq<char>, Seq<char>)>) -> Map<Seq<char>, Seq<char>>
    decreases es.len(),
{
    if es.len() == 0 {
        Map::empty()
    } else {
        table_of(es.drop_last()).insert(es.last().0, es.last().1)
    }
}

/// Whether no drive has two entries.
pub open spec fn distinct_drives(es: Seq<(Seq<char>, Seq<char>)>) -> bool {
    forall|i: int, j: int| 0 <= i < j < es.len() ==> es[i].0 != es[j].0
}

/// The first index of `es` that holds an entry for `drive`, or the length of
/// `es`.
pub open spec fn entry_index(es: Seq<(Seq<char>, Seq<char>)>, drive: Seq<char>) -> int
    decreases es.len(),
{
    if es.len() == 0 {
        0
    } else if es[0].0 == drive {
        0
    } else {
        1 + entry_index(es.drop_first(), drive)
    }
}

/// The list with `path` as the mount point of `drive`: in the place of the
/// entry that `drive` has, or at the end where it has none.
pub open spec fn with_entry(
    es: Seq<(Seq<char>, Seq<char>)>,
    drive: Seq<char>,
    path: Seq<char>,
) -> Seq<(Seq<char>, Seq<char>)> {
    let j = entry_index(es, drive);
    if j < es.len() {
        es.update(j, (drive, path))
    } else {
        es.push((drive, path))
    }
}

/// The index of the first entry for `drive` is the one before which no entry
/// is for `drive`.
proof fn lemma_entry_index(es: Seq<(Seq<char>, Seq<char>)>, drive: Seq<char>, j: int)
    requires
        0 <= j <= es.len(),
        forall|i: int| 0 <= i < j ==> es[i].0 != drive,
        j < es.len() ==> es[j].0 == drive,
    ensures
        entry_index(es, drive) == j,
    decreases es.len(),
{
    if es.len() > 0 && j > 0 {
        let rest = es.drop_first();
        lemma_entry_index(rest, drive, j - 1);
    }
}

/// The list that comes of setting the entries of `es` one after the other,
/// beginning with the empty list.
pub open spec fn listed(es: Seq<(Seq<char>, Seq<char>)>) -> Seq<(Seq<char>, Seq<char>)>
    decreases es.len(),
{
    if es.len() == 0 {
        Seq::empty()
    } else {
        with_entry(listed(es.drop_last()), es.last().0, es.last().1)
    }
}

/// The entries that the lines of a file hold, in order.
pub open spec fn file_entries(lines: Seq<String>) -> Seq<(Seq<char>, Seq<char>)> {
    lines.map_values(|l: String| file_line_entry(l@)->0)
}

/// Whether every line holds an entry.
pub open spec fn all_entries(lines: Seq<String>) -> bool {
    forall|i: int| 0 <= i < lines.len() ==> file_line_entry(#[trigger] lines[i]@) is Some
}

/// The table holds a drive where the list holds an entry for it.
proof fn lemma_table_domain(es: Seq<(Seq<char>, Seq<char>)>, k: Seq<char>)
    ensures
        table_of(es).dom().contains(k) <==> exists|i: int| 0 <= i < es.len() && es[i].0 == k,
    decreases es.len(),
{
    if es.len() > 0 {
        let init = es.drop_last();
        lemma_table_domain(init, k);
        if exists|i: int| 0 <= i < es.len() && es[i].0 == k {
            let i = choose|i: int| 0 <= i < es.len() && es[i].0 == k;
            if i < es.len() - 1 {
                assert(init[i].0 == k);
            }
        }
    }
}

/// Where no drive has two entries, the table gives each drive the mount
/// point of its entry.
proof fn lemma_table_value(es: Seq<(Seq<char>, Seq<char>)>, j: int)
    requires
        distinct_drives(es),
        0 <= j < es.len(),
    ensures
        table_of(es).dom().contains(es[j].0),
        table_of(es)[es[j].0] == es[j].1,
    decreases es.len(),
{
    if j < es.len() - 1 {
        let init = es.drop_last();
        lemma_table_value(init, j);
    }
}

/// Where no drive has two entries, a new mount point in the place of an
/// entry sets the mount point of its drive in the table.
proof fn lemma_table_update(es: Seq<(Seq<char>, Seq<char>)>, j: int, path: Seq<char>)
    requires
        distinct_drives(es),
        0 <= j < es.len(),
    ensures
        table_of(es.update(j, (es[j].0, path))) == table_of(es).insert(es[j].0, path),
        distinct_drives(es.update(j, (es[j].0, path))),
    decreases es.len(),
{
    let drive = es[j].0;
    let after = es.update(j, (drive, path));
    let init = es.drop_last();
    if j == es.len() - 1 {
        assert(after.drop_last() == init);
    } else {
        lemma_table_update(init, j, path);
        assert(after.drop_last() == init.update(j, (drive, path)));
    }
}

/// The table of drives and mount points.
pub struct DriveMap {
    entries: Vec<(String, String)>,
}

impl DriveMap {
    /// The entries of the table, in the order in which their drives first
    /// came in.
    pub closed spec fn listing(&self) -> Seq<(Seq<char>, Seq<char>)> {
        entry_views(self.entries@)
    }

    /// No drive has two entries.
    pub open spec fn wf(&self) -> bool {
        distinct_drives(self.listing())
    }

    /// The mount point of each drive that has one.
    pub open spec fn view(&self) -> Map<Seq<char>, Seq<char>> {
        table_of(self.listing())
    }

    /// The empty table.
    pub fn new() -> (table: DriveMap)
        ensures
            table.wf(),
            table.listing().len() == 0,
            table@ == Map::<Seq<char>, Seq<char>>::empty(),
    {
        DriveMap { entries: Vec::new() }
    }

    /// Where the entry of `drive` stands in the listing.
    fn position(&self, drive: &str) -> (at: Option<usize>)
        ensures
            at is Some ==> at->0 < self.listing().len() && self.listing()[at->0 as int].0 == drive@
                && at->0 == entry_index(self.listing(), drive@),
            at is None ==> self.listing().len() == entry_index(self.listing(), drive@),
            at is None ==> forall|i: int|
                0 <= i < self.listing().len() ==> self.listing()[i].0 != drive@,
    {
        let mut i: usize = 0;
        while i < self.entries.len()
            invariant
                i <= self.entries.len(),
                forall|k: int| 0 <= k < i ==> self.listing()[k].0 != drive@,
            decreases self.entries.len() - i,
        {
            if same_text(self.entries[i].0.as_str(), drive) {
                proof {
                    lemma_entry_index(self.listing(), drive@, i as int);
                }
                return Some(i);
            }
            i += 1;
        }
        proof {
            lemma_entry_index(self.listing(), drive@, i as int);
        }
        None
    }

    /// Sets the mount point of a drive.
    pub fn insert(&mut self, drive: String, path: String)
        requires
            old(self).wf(),
        ensures
            final(self).wf(),
            final(self)@ == old(self)@.insert(drive@, path@),
            final(self).listing() == with_entry(old(self).listing(), drive@, path@),
    {
        let ghost before = self.listing();
        match self.position(drive.as_str()) {
            Some(j) => {
                proof {
                    lemma_table_update(before, j as int, path@);
                }
                self.entries.set(j, (drive, path));
                assert(self.listing() == before.update(j as int, (drive@, path@)));
            },
            None => {
                self.entries.push((drive, path));
                assert(self.listing() == before.push((drive@, path@)));
                assert(self.listing().drop_last() == before);
            },
        }
    }

    /// The mount point of a drive, where it has one.
    pub fn get(&self, drive: &str) -> (path: Option<&String>)
        requires
            self.wf(),
        ensures
            path is Some <==> self@.dom().contains(drive@),
            path is Some ==> path->0@ == self@[drive@],
    {
        proof {
            lemma_table_domain(self.listing(), drive@);
        }
        match self.position(drive) {
            Some(j) => {
                proof {
                    lemma_table_value(self.listing(), j as int);
                }
                Some(&self.entries[j].1)
            },
            None => None,
        }
    }

    /// The entries of the table, one to a drive.
    pub fn entries(&self) -> (es: &Vec<(String, String)>)
        ensures
            entry_views(es@) == self.listing(),
    {
        &self.entries
    }
}

/// Builds the table from the lines of the file; a later line for a drive
/// replaces an earlier one.
pub fn build_drive_to_path_mapping(lines: &Vec<String>) -> (table: DriveMap)
    requires
        all_entries(lines@),
    ensures
        table.wf(),
        table@ == table_of(file_entries(lines@)),
        table.listing() == listed(file_entries(lines@)),
{
    let mut table = DriveMap::new();
    let mut i: usize = 0;
    while i < lines.len()
        invariant
            i <= lines.len(),
            all_entries(lines@),
            table.wf(),
            table@ == table_of(file_entries(lines@.take(i as int))),
            table.listing() == listed(file_entries(lines@.take(i as int))),
        decreases lines.len() - i,
    {
        proof {
            let now = file_entries(lines@.take(i + 1));
            assert(now.drop_last() == file_entries(lines@.take(i as int)));
        }
        match parse_file_line(lines[i].as_str()) {
            Some((drive, path)) => {
                table.insert(drive, path);
            },
            None => {},
        }
        i += 1;
    }
    assert(lines@.take(lines.len() as int) == lines@);
    table
}

} // verus!
