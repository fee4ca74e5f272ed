//! Desktop-entry files.
//!
//! An entry file is line-oriented text of `Key=Value` pairs. Of its keys the
//! launcher reads `Name`, `Icon`, `Exec`, `Type`, `NoDisplay` and `Hidden`.
//! A file describes a launchable application, or it is dropped as a whole: no
//! partial record leaves this module.

use crate::text::{
    chars_of, has_prefix, lines, rows_of, slice_chars, split_lines, starts_with, string_of,
};
use vstd::prelude::*;

verus! {

/// What one entry file says of an application.
#[derive(Debug, Clone, PartialEq, Eq)]
pub struct DesktopEntryRecord {
    /// The name under which the application is listed.
    pub name: String,
    /// The name of its icon in the icon theme.
    pub icon_name: String,
    /// The launch command, with its field codes still in place.
    pub exec_template: String,
    /// The entry's type. A record of this module always holds `Application`.
    pub entry_type: String,
    /// Whether the entry asks not to be listed.
    pub no_display: bool,
    /// Whether the entry is marked as deleted.
    pub hidden: bool,
}

/// The mathematical value of a [`DesktopEntryRecord`].
pub ghost struct EntryFields {
    pub name: Seq<char>,
    pub icon_name: Seq<char>,
    pub exec_template: Seq<char>,
    pub entry_type: Seq<char>,
    pub no_display: bool,
    pub hidden: bool,
}

impl View for DesktopEntryRecord {
    type V = EntryFields;

    open spec fn view(&self) -> EntryFields {
        EntryFields {
            name: self.name@,
            icon_name: self.icon_name@,
            exec_template: self.exec_template@,
            entry_type: self.entry_type@,
            no_display: self.no_display,
            hidden: self.hidden,
        }
    }
}

/// The key of the name.
pub open spec fn name_key() -> Seq<char> {
    seq!['N', 'a', 'm', 'e', '=']
}

/// The key of the icon.
pub open spec fn icon_key() -> Seq<char> {
    seq!['I', 'c', 'o', 'n', '=']
}

/// The key of the launch command.
pub open spec fn exec_key() -> Seq<char> {
    seq!['E', 'x', 'e', 'c', '=']
}

/// The key of the entry's type.
pub open spec fn type_key() -> Seq<char> {
    seq!['T', 'y', 'p', 'e', '=']
}

/// The key of the flag that asks not to list the entry.
pub open spec fn no_display_key() -> Seq<char> {
    seq!['N', 'o', 'D', 'i', 's', 'p', 'l', 'a', 'y', '=']
}

/// The key of the flag that marks the entry as deleted.
pub open spec fn hidden_key() -> Seq<char> {
    seq!['H', 'i', 'd', 'd', 'e', 'n', '=']
}

/// The only type of entry that is listed.
pub open spec fn application_type() -> Seq<char> {
    seq!['A', 'p', 'p', 'l', 'i', 'c', 'a', 't', 'i', 'o', 'n']
}

/// The value of the first of `ls` that begins with `key`: the rest of that
/// line behind the key, taken as it stands. Later lines with the same key do
/// not count.
pub open spec fn first_value(ls: Seq<Seq<char>>, key: Seq<char>) -> Option<Seq<char>>
    decreases ls.len(),
{
    if ls.len() == 0 {
        None
    } else if first_value(ls.drop_last(), key) is Some {
        first_value(ls.drop_last(), key)
    } else if starts_with(ls.last(), key) {
        Some(ls.last().skip(key.len() as int))
    } else {
        None
    }
}

/// The value of the last of `ls` that begins with `key`.
pub open spec fn last_value(ls: Seq<Seq<char>>, key: Seq<char>) -> Option<Seq<char>>
    decreases ls.len(),
{
    if ls.len() == 0 {
        None
    } else if starts_with(ls.last(), key) {
        Some(ls.last().skip(key.len() as int))
    } else {
        last_value(ls.drop_last(), key)
    }
}

/// Whether `v` is the word `true`, in any mixture of upper and lower case.
pub open spec fn is_true(v: Seq<char>) -> bool {
    &&& v.len() == 4
    &&& (v[0] == 't' || v[0] == 'T')
    &&& (v[1] == 'r' || v[1] == 'R')
    &&& (v[2] == 'u' || v[2] == 'U')
    &&& (v[3] == 'e' || v[3] == 'E')
}

/// Whether the flag `key` is set: the last line that begins with `key`
/// decides, and without such a line the flag is not set.
pub open spec fn flag_set(ls: Seq<Seq<char>>, key: Seq<char>) -> bool {
    match last_value(ls, key) {
        Some(v) => is_true(v),
        None => false,
    }
}

/// The record that the lines `ls` describe, if they describe a launchable
/// application. In this order: an entry that asks not to be displayed is
/// dropped, then one that is hidden, then one whose type is missing or is not
/// `Application`, then one without a name, an icon or a command.
pub open spec fn record_of(ls: Seq<Seq<char>>) -> Option<EntryFields> {
    if flag_set(ls, no_display_key()) || flag_set(ls, hidden_key()) {
        None
    } else if first_value(ls, type_key()) != Some(application_type()) {
        None
    } else if first_value(ls, name_key()) is None || first_value(ls, icon_key()) is None
        || first_value(ls, exec_key()) is None {
        None
    } else {
        Some(
            EntryFields {
                name: first_value(ls, name_key())->0,
                icon_name: first_value(ls, icon_key())->0,
                exec_template: first_value(ls, exec_key())->0,
                entry_type: application_type(),
                no_display: false,
                hidden: false,
            },
        )
    }
}

/// The record that the text of an entry file describes, if any.
pub open spec fn parsed(content: Seq<char>) -> Option<EntryFields> {
    record_of(lines(content))
}

/// A captured value comes from a line that begins with the key.
pub proof fn lemma_first_value_source(ls: Seq<Seq<char>>, key: Seq<char>) -> (i: int)
    requires
        first_value(ls, key) is Some,
    ensures
        0 <= i < ls.len(),
        starts_with(ls[i], key),
        first_value(ls, key) == Some(ls[i].skip(key.len() as int)),
    decreases ls.len(),
{
    let front = ls.drop_last();
    if first_value(front, key) is Some {
        let i = lemma_first_value_source(front, key);
        assert(front[i] == ls[i]);
        i
    } else {
        ls.len() - 1
    }
}

/// A line that begins with the key, and after which no line does, decides
/// the flag.
pub proof fn lemma_last_value_source(ls: Seq<Seq<char>>, key: Seq<char>, i: int)
    requires
        0 <= i < ls.len(),
        starts_with(ls[i], key),
        forall|j: int| i < j < ls.len() ==> !starts_with(#[trigger] ls[j], key),
    ensures
        last_value(ls, key) == Some(ls[i].skip(key.len() as int)),
    decreases ls.len(),
{
    if i < ls.len() - 1 {
        let front = ls.drop_last();
        assert(front[i] == ls[i]);
        assert forall|j: int| i < j < front.len() implies !starts_with(#[trigger] front[j], key) by {
            assert(front[j] == ls[j]);
        }
        lemma_last_value_source(front, key, i);
    }
}

/// An entry file is dropped where its last `NoDisplay=` line, or its last
/// `Hidden=` line, has the value `true` in any mixture of case, whatever its
/// other lines hold.
pub proof fn lemma_flagged_entry_is_dropped(content: Seq<char>, i: int)
    requires
        0 <= i < lines(content).len(),
        ({
            let ls = lines(content);
            ||| {
                &&& starts_with(ls[i], no_display_key())
                &&& is_true(ls[i].skip(no_display_key().len() as int))
                &&& forall|j: int|
                    i < j < ls.len() ==> !starts_with(#[trigger] ls[j], no_display_key())
            }
            ||| {
                &&& starts_with(ls[i], hidden_key())
                &&& is_true(ls[i].skip(hidden_key().len() as int))
                &&& forall|j: int| i < j < ls.len() ==> !starts_with(#[trigger] ls[j], hidden_key())
            }
        }),
    ensures
        parsed(content) is None,
{
    let ls = lines(content);
    if starts_with(ls[i], no_display_key()) && is_true(ls[i].skip(no_display_key().len() as int))
        && (forall|j: int| i < j < ls.len() ==> !starts_with(#[trigger] ls[j], no_display_key())) {
        lemma_last_value_source(ls, no_display_key(), i);
    } else {
        lemma_last_value_source(ls, hidden_key(), i);
    }
}

/// An entry file is dropped where none of its lines is `Type=Application`, or
/// none begins with `Name=`, or none with `Icon=`, or none with `Exec=`.
pub proof fn lemma_incomplete_entry_is_dropped(content: Seq<char>)
    requires
        ({
            let ls = lines(content);
            ||| forall|i: int|
                0 <= i < ls.len() ==> #[trigger] ls[i] != type_key() + application_type()
            ||| forall|i: int| 0 <= i < ls.len() ==> !starts_with(#[trigger] ls[i], name_key())
            ||| forall|i: int| 0 <= i < ls.len() ==> !starts_with(#[trigger] ls[i], icon_key())
            ||| forall|i: int| 0 <= i < ls.len() ==> !starts_with(#[trigger] ls[i], exec_key())
        }),
    ensures
        parsed(content) is None,
{
    let ls = lines(content);
    if first_value(ls, type_key()) == Some(application_type()) {
        let i = lemma_first_value_source(ls, type_key());
        assert(ls[i] =~= ls[i].take(type_key().len() as int) + ls[i].skip(type_key().len() as int));
    }
    if first_value(ls, name_key()) is Some {
        let i = lemma_first_value_source(ls, name_key());
    }
    if first_value(ls, icon_key()) is Some {
        let i = lemma_first_value_source(ls, icon_key());
    }
    if first_value(ls, exec_key()) is Some {
        let i = lemma_first_value_source(ls, exec_key());
    }
}

/// The view of an optional vector of characters.
pub open spec fn captured(v: Option<Vec<char>>) -> Option<Seq<char>> {
    match v {
        Some(x) => Some(x@),
        None => None,
    }
}

/// Whether `v` is the word `true`, in any mixture of upper and lower case.
pub fn is_true_chars(v: &Vec<char>) -> (b: bool)
    ensures
        b == is_true(v@),
{
    v.len() == 4 && (v[0] == 't' || v[0] == 'T') && (v[1] == 'r' || v[1] == 'R') && (v[2] == 'u'
        || v[2] == 'U') && (v[3] == 'e' || v[3] == 'E')
}

/// The value of `line` if it begins with `key`.
pub fn value_of(line: &Vec<char>, key: &Vec<char>) -> (out: Option<Vec<char>>)
    ensures
        captured(out) == if starts_with(line@, key@) {
            Some(line@.skip(key@.len() as int))
        } else {
            None
        },
{
    if has_prefix(line, key) {
        let v = slice_chars(line, key.len(), line.len());
        Some(v)
    } else {
        None
    }
}

/// Whether `v` holds exactly the characters of `Application`.
pub fn is_application(v: &Vec<char>) -> (b: bool)
    ensures
        b == (v@ == application_type()),
{
    let word = vec!['A', 'p', 'p', 'l', 'i', 'c', 'a', 't', 'i', 'o', 'n'];
    let b = v.len() == word.len() && has_prefix(v, &word);
    proof {
        assert(word@ =~= application_type());
        if v.len() == word.len() {
            assert(v@.take(word@.len() as int) =~= v@);
        }
    }
    b
}

/// Reads the text of one entry file. The result is the record of a
/// launchable application, or nothing where the file is hidden, asks not to
/// be displayed, is of another type, or lacks a name, an icon or a command.
/// No text makes this function fail.
pub fn parse_desktop_file(content: &str) -> (out: Option<DesktopEntryRecord>)
    ensures
        match out {
            Some(r) => parsed(content@) == Some(r@),
            None => parsed(content@) is None,
        },
{
    let text = chars_of(content);
    let ls = split_lines(&text);
    let name_k = vec!['N', 'a', 'm', 'e', '='];
    let icon_k = vec!['I', 'c', 'o', 'n', '='];
    let exec_k = vec!['E', 'x', 'e', 'c', '='];
    let type_k = vec!['T', 'y', 'p', 'e', '='];
    let no_display_k = vec!['N', 'o', 'D', 'i', 's', 'p', 'l', 'a', 'y', '='];
    let hidden_k = vec!['H', 'i', 'd', 'd', 'e', 'n', '='];
    proof {
        assert(name_k@ =~= name_key());
        assert(icon_k@ =~= icon_key());
        assert(exec_k@ =~= exec_key());
        assert(type_k@ =~= type_key());
        assert(no_display_k@ =~= no_display_key());
        assert(hidden_k@ =~= hidden_key());
    }
    let mut name: Option<Vec<char>> = None;
    let mut icon: Option<Vec<char>> = None;
    let mut exec: Option<Vec<char>> = None;
    let mut entry_type: Option<Vec<char>> = None;
    let mut no_display = false;
    let mut hidden = false;
    let ghost all = rows_of(ls@);
    let mut i: usize = 0;
    while i < ls.len()
        invariant
            i <= ls.len(),
            all == rows_of(ls@),
            all == lines(content@),
            name_k@ == name_key(),
            icon_k@ == icon_key(),
            exec_k@ == exec_key(),
            type_k@ == type_key(),
            no_display_k@ == no_display_key(),
            hidden_k@ == hidden_key(),
            captured(name) == first_value(all.take(i as int), name_key()),
            captured(icon) == first_value(all.take(i as int), icon_key()),
            captured(exec) == first_value(all.take(i as int), exec_key()),
            captured(entry_type) == first_value(all.take(i as int), type_key()),
            no_display == flag_set(all.take(i as int), no_display_key()),
            hidden == flag_set(all.take(i as int), hidden_key()),
        decreases ls.len() - i,
    {
        let line = &ls[i];
        proof {
            let seen = all.take(i + 1);
            assert(seen.drop_last() =~= all.take(i as int));
            assert(seen.last() == line@);
        }
        if name.is_none() {
            name = value_of(line, &name_k);
        }
        if icon.is_none() {
            icon = value_of(line, &icon_k);
        }
        if exec.is_none() {
            exec = value_of(line, &exec_k);
        }
        if entry_type.is_none() {
            entry_type = value_of(line, &type_k);
        }
        match value_of(line, &no_display_k) {
            Some(v) => {
                no_display = is_true_chars(&v);
            },
            None => {},
        }
        match value_of(line, &hidden_k) {
            Some(v) => {
                hidden = is_true_chars(&v);
            },
            None => {},
        }
        i += 1;
    }
    proof {
        assert(all.take(ls.len() as int) =~= all);
    }
    if no_display || hidden {
        return None;
    }
    match entry_type {
        Some(t) => {
            if !is_application(&t) {
                return None;
            }
        },
        None => {
            return None;
        },
    }
    match (name, icon, exec) {
        (Some(n), Some(c), Some(e)) => {
            let word = vec!['A', 'p', 'p', 'l', 'i', 'c', 'a', 't', 'i', 'o', 'n'];
            proof {
                assert(word@ =~= application_type());
            }
            Some(
                DesktopEntryRecord {
                    name: string_of(&n),
                    icon_name: string_of(&c),
                    exec_template: string_of(&e),
                    entry_type: string_of(&word),
                    no_display: false,
                    hidden: false,
                },
            )
        },
        _ => None,
    }
}

} // verus!
