//! The catalog of launchable applications.
//!
//! The catalog is built once, from the texts of the entry files in the order
//! of their paths, and is only read afterwards. It keeps every application
//! that was read, in that order; where two of them share a name, the one read
//! last answers a lookup by that name.

use crate::entry::{parse_desktop_file, parsed, DesktopEntryRecord, EntryFields};
use vstd::prelude::*;

verus! {

/// One application of the catalog.
#[derive(Debug, Clone, PartialEq, Eq)]
pub struct CatalogEntry {
    /// The name that is shown and searched.
    pub name: String,
    /// The name of the icon to show beside it.
    pub icon_name: String,
    /// The launch command as the entry file gives it, field codes included.
    pub launch_command: String,
}

/// The mathematical value of a [`CatalogEntry`].
pub ghost struct EntryView {
    pub name: Seq<char>,
    pub icon_name: Seq<char>,
    pub launch_command: Seq<char>,
}

impl View for CatalogEntry {
    type V = EntryView;

    open spec fn view(&self) -> EntryView {
        EntryView {
            name: self.name@,
            icon_name: self.icon_name@,
            launch_command: self.launch_command@,
        }
    }
}

/// The applications in the order in which they were read.
#[derive(Debug, Clone, PartialEq, Eq)]
pub struct Catalog {
    entries: Vec<CatalogEntry>,
}

impl View for Catalog {
    type V = Seq<EntryView>;

    closed spec fn view(&self) -> Seq<EntryView> {
        self.entries@.map_values(|e: CatalogEntry| e@)
    }
}

/// What a record contributes to the catalog: its name, its icon and its
/// launch command as it stands.
pub open spec fn entry_of(r: EntryFields) -> EntryView {
    EntryView { name: r.name, icon_name: r.icon_name, launch_command: r.exec_template }
}

/// The catalog with what one file contributes: the entry of its record, or
/// nothing where the file could not be read or describes no launchable
/// application.
pub open spec fn with_file(entries: Seq<EntryView>, content: Option<Seq<char>>) -> Seq<EntryView> {
    match content {
        Some(text) => match parsed(text) {
            Some(r) => entries.push(entry_of(r)),
            None => entries,
        },
        None => entries,
    }
}

/// The catalog of the files with the given texts, read from first to last.
pub open spec fn catalog_of(contents: Seq<Option<Seq<char>>>) -> Seq<EntryView>
    decreases contents.len(),
{
    if contents.len() == 0 {
        Seq::empty()
    } else {
        with_file(catalog_of(contents.drop_last()), contents.last())
    }
}

/// The launch command that answers a lookup of `name`: that of the last
/// entry with this name.
pub open spec fn command_for(entries: Seq<EntryView>, name: Seq<char>) -> Option<Seq<char>>
    decreases entries.len(),
{
    if entries.len() == 0 {
        None
    } else if entries.last().name == name {
        Some(entries.last().launch_command)
    } else {
        command_for(entries.drop_last(), name)
    }
}

/// The texts of the files as sequences of characters.
pub open spec fn texts_of(contents: Seq<Option<String>>) -> Seq<Option<Seq<char>>> {
    contents.map_values(
        |c: Option<String>|
            match c {
                Some(text) => Some(text@),
                None => None,
            },
    )
}

/// Every file contributes at most one entry.
pub proof fn lemma_catalog_len(contents: Seq<Option<Seq<char>>>)
    ensures
        catalog_of(contents).len() <= contents.len(),
    decreases contents.len(),
{
    if contents.len() > 0 {
        lemma_catalog_len(contents.drop_last());
    }
}

/// A lookup is answered by the entry with that name after which no entry has
/// the name: of two files with the same name, the one read last decides.
pub proof fn lemma_last_entry_wins(entries: Seq<EntryView>, name: Seq<char>, i: int)
    requires
        0 <= i < entries.len(),
        entries[i].name == name,
        forall|j: int| i < j < entries.len() ==> (#[trigger] entries[j]).name != name,
    ensures
        command_for(entries, name) == Some(entries[i].launch_command),
    decreases entries.len(),
{
    if i < entries.len() - 1 {
        let front = entries.drop_last();
        assert(front[i] == entries[i]);
        assert forall|j: int| i < j < front.len() implies (#[trigger] front[j]).name != name by {
            assert(front[j] == entries[j]);
        }
        lemma_last_entry_wins(front, name, i);
    }
}

/// A lookup finds nothing exactly where no entry has the name.
pub proof fn lemma_lookup_misses(entries: Seq<EntryView>, name: Seq<char>)
    ensures
        command_for(entries, name) is None <==> forall|j: int|
            0 <= j < entries.len() ==> (#[trigger] entries[j]).name != name,
    decreases entries.len(),
{
    if entries.len() > 0 {
        let front = entries.drop_last();
        lemma_lookup_misses(front, name);
        if entries.last().name != name {
            if command_for(front, name) is None {
                assert forall|j: int| 0 <= j < entries.len() implies (#[trigger] entries[j]).name
                    != name by {
                    if j < front.len() {
                        assert(front[j] == entries[j]);
                    }
                }
            } else {
                let j = choose|j: int| 0 <= j < front.len() && (#[trigger] front[j]).name == name;
                assert(entries[j] == front[j]);
            }
        }
    }
}

impl Catalog {
    /// A catalog without entries.
    pub fn new() -> (out: Catalog)
        ensures
            out@ == Seq::<EntryView>::empty(),
    {
        let out = Catalog { entries: Vec::new() };
        assert(out@ =~= Seq::<EntryView>::empty());
        out
    }

    /// The number of entries.
    pub fn len(&self) -> (n: usize)
        ensures
            n == self@.len(),
    {
        self.entries.len()
    }

    /// Whether the catalog has no entry.
    pub fn is_empty(&self) -> (b: bool)
        ensures
            b == (self@.len() == 0),
    {
        self.entries.len() == 0
    }

    /// The entry at position `i`, counted in reading order from 0.
    pub fn get(&self, i: usize) -> (out: Option<&CatalogEntry>)
        ensures
            match out {
                Some(e) => i < self@.len() && e@ == self@[i as int],
                None => i >= self@.len(),
            },
    {
        if i < self.entries.len() {
            Some(&self.entries[i])
        } else {
            None
        }
    }

    /// Appends an entry with the given name, icon and launch command.
    pub fn push(&mut self, name: String, icon_name: String, launch_command: String)
        ensures
            final(self)@ == old(self)@.push(
                EntryView {
                    name: name@,
                    icon_name: icon_name@,
                    launch_command: launch_command@,
                },
            ),
    {
        let entry = CatalogEntry { name, icon_name, launch_command };
        self.entries.push(entry);
        assert(self@ =~= old(self)@.push(entry@));
    }

    /// Appends what the record of an entry file contributes.
    pub fn insert(&mut self, record: DesktopEntryRecord)
        ensures
            final(self)@ == old(self)@.push(entry_of(record@)),
    {
        self.push(record.name, record.icon_name, record.exec_template);
    }

    /// Reads the text of one entry file and appends its entry, if it has one.
    /// Returns whether the catalog has grown.
    pub fn add_file(&mut self, content: &str) -> (added: bool)
        ensures
            final(self)@ == with_file(old(self)@, Some(content@)),
            added == (parsed(content@) is Some),
    {
        match parse_desktop_file(content) {
            Some(record) => {
                self.insert(record);
                true
            },
            None => false,
        }
    }

    /// The launch command registered for `name`: that of the last entry
    /// with exactly this name, or nothing where no entry has it.
    pub fn lookup(&self, name: &str) -> (out: Option<&String>)
        ensures
            match out {
                Some(c) => command_for(self@, name@) == Some(c@),
                None => command_for(self@, name@) is None,
            },
    {
        let wanted = String::from_str(name);
        let mut i: usize = self.entries.len();
        proof {
            assert(self@.take(i as int) =~= self@);
        }
        while i > 0
            invariant
                i <= self.entries.len(),
                wanted@ == name@,
                command_for(self@, name@) == command_for(self@.take(i as int), name@),
            decreases i,
        {
            let entry = &self.entries[i - 1];
            proof {
                let seen = self@.take(i as int);
                assert(seen.last() == entry@);
                assert(seen.drop_last() =~= self@.take(i - 1));
            }
            if entry.name == wanted {
                return Some(&entry.launch_command);
            }
            i -= 1;
        }
        None
    }
}

/// Builds the catalog from the texts of the entry files, handed over in the
/// order of their paths. `None` stands for a file that could not be read: it
/// is passed over, as is a file that describes no launchable application.
pub fn build_catalog(contents: &Vec<Option<String>>) -> (out: Catalog)
    ensures
        out@ == catalog_of(texts_of(contents@)),
{
    let mut out = Catalog::new();
    let ghost texts = texts_of(contents@);
    let mut i: usize = 0;
    while i < contents.len()
        invariant
            i <= contents.len(),
            texts == texts_of(contents@),
            out@ == catalog_of(texts.take(i as int)),
        decreases contents.len() - i,
    {
        proof {
            let seen = texts.take(i + 1);
            assert(seen.drop_last() =~= texts.take(i as int));
        }
        match &contents[i] {
            Some(text) => {
                out.add_file(text.as_str());
            },
            None => {},
        }
        i += 1;
    }
    proof {
        assert(texts.take(contents.len() as int) =~= texts);
    }
    out
}

} // verus!
