//! The files of one directory, keyed by name.

use vstd::prelude::*;
use crate::file::{File, FileView};

verus! {

/// The entries of a list of files as mathematical values.
pub open spec fn entries_of(files: Seq<File>) -> Seq<FileView> {
    Seq::new(files.len(), |i: int| files[i]@)
}

/// No two entries bear the same name.
pub open spec fn distinct_names(entries: Seq<FileView>) -> bool {
    forall|i: int, j: int|
        0 <= i < j < entries.len() ==> (#[trigger] entries[i]).name != (#[trigger] entries[j]).name
}

/// Where the first entry with the given name stands, if there is one.
pub open spec fn position_of(entries: Seq<FileView>, name: Seq<char>) -> Option<int>
    decreases entries.len(),
{
    if entries.len() == 0 {
        None
    } else {
        match position_of(entries.drop_last(), name) {
            Some(i) => Some(i),
            None => if entries.last().name == name {
                Some(entries.len() - 1)
            } else {
                None
            },
        }
    }
}

/// The entries after `file` was put among them: in the place of the entry
/// that bore its name, or behind the others where none did.
pub open spec fn upserted(entries: Seq<FileView>, file: FileView) -> Seq<FileView> {
    match position_of(entries, file.name) {
        Some(i) => entries.update(i, file),
        None => entries.push(file),
    }
}

/// `file` is among `entries`, and no other entry bears its name.
pub open spec fn holds_once(entries: Seq<FileView>, file: FileView) -> bool {
    exists|i: int|
        0 <= i < entries.len() && #[trigger] entries[i] == file && forall|j: int|
            0 <= j < entries.len() && (#[trigger] entries[j]).name == file.name ==> j == i
}

/// `position_of` gives the first entry with the name, and `None` only where
/// no entry has it.
pub proof fn lemma_position_of(entries: Seq<FileView>, name: Seq<char>)
    ensures
        match position_of(entries, name) {
            Some(i) => 0 <= i < entries.len() && entries[i].name == name && forall|k: int|
                0 <= k < i ==> (#[trigger] entries[k]).name != name,
            None => forall|k: int| 0 <= k < entries.len() ==> (#[trigger] entries[k]).name != name,
        },
    decreases entries.len(),
{
    if entries.len() > 0 {
        let front = entries.drop_last();
        lemma_position_of(front, name);
        assert forall|k: int| 0 <= k < front.len() implies front[k] == entries[k] by {}
        match position_of(front, name) {
            Some(i) => {
                assert(front[i] == entries[i]);
                assert forall|k: int| 0 <= k < i implies (#[trigger] entries[k]).name != name by {
                    assert(front[k] == entries[k]);
                }
            },
            None => {
                assert forall|k: int| 0 <= k < entries.len() - 1 implies (
                #[trigger] entries[k]).name != name by {
                    assert(front[k] == entries[k]);
                }
            },
        }
    }
}

/// An entry with the name, before which none has it, is where `position_of`
/// points.
pub proof fn lemma_position_of_first(entries: Seq<FileView>, name: Seq<char>, i: int)
    requires
        0 <= i < entries.len(),
        entries[i].name == name,
        forall|k: int| 0 <= k < i ==> (#[trigger] entries[k]).name != name,
    ensures
        position_of(entries, name) == Some(i),
{
    lemma_position_of(entries, name);
}

/// Putting a file among entries with distinct names leaves the names
/// distinct, and the file is then the one entry that bears its name. The
/// other entries stay as they were. The number of entries grows by one where
/// the name is new, and not at all where it was there.
pub proof fn lemma_upserted(entries: Seq<FileView>, file: FileView)
    requires
        distinct_names(entries),
    ensures
        distinct_names(upserted(entries, file)),
        holds_once(upserted(entries, file), file),
        upserted(entries, file).len() == entries.len() + if position_of(entries, file.name)
            is None {
            1int
        } else {
            0int
        },
        forall|k: int|
            0 <= k < entries.len() && (#[trigger] entries[k]).name != file.name ==> upserted(
                entries,
                file,
            )[k] == entries[k],
{
    lemma_position_of(entries, file.name);
    let after = upserted(entries, file);
    match position_of(entries, file.name) {
        Some(i) => {
            assert(after[i] == file);
            assert forall|a: int, b: int| 0 <= a < b < after.len() implies (#[trigger] after[a]).name
                != (#[trigger] after[b]).name by {
                assert(entries[a].name != entries[b].name);
            }
            assert forall|j: int| 0 <= j < after.len() && (#[trigger] after[j]).name
                == file.name implies j == i by {
                if j != i {
                    assert(after[j] == entries[j]);
                    if j < i {
                        assert(entries[j].name != entries[i].name);
                    } else {
                        assert(entries[i].name != entries[j].name);
                    }
                }
            }
        },
        None => {
            let i = entries.len() as int;
            assert(after[i] == file);
            assert forall|a: int, b: int| 0 <= a < b < after.len() implies (#[trigger] after[a]).name
                != (#[trigger] after[b]).name by {
                assert(after[a] == entries[a]);
                if b < i {
                    assert(after[b] == entries[b]);
                }
            }
            assert forall|j: int| 0 <= j < after.len() && (#[trigger] after[j]).name
                == file.name implies j == i by {
                if j < i {
                    assert(after[j] == entries[j]);
                }
            }
        },
    }
}

/// The files of one directory. No two of them bear the same name.
#[derive(Debug, PartialEq, Eq)]
pub struct DirectoryListing {
    files: Vec<File>,
}

impl View for DirectoryListing {
    type V = Seq<FileView>;

    closed spec fn view(&self) -> Seq<FileView> {
        entries_of(self.files@)
    }
}

impl DirectoryListing {
    #[verifier::type_invariant]
    spec fn names_are_distinct(&self) -> bool {
        distinct_names(entries_of(self.files@))
    }

    /// A directory without files.
    pub fn new() -> (directory: DirectoryListing)
        ensures
            directory@ == Seq::<FileView>::empty(),
    {
        let directory = DirectoryListing { files: Vec::new() };
        assert(directory@ =~= Seq::<FileView>::empty());
        directory
    }

    /// The files of the directory, in the order in which they were put in.
    pub fn get_files(&self) -> (files: &Vec<File>)
        ensures
            entries_of(files@) == self@,
            distinct_names(self@),
    {
        proof {
            use_type_invariant(self);
        }
        &self.files
    }

    /// Where the file with the given name stands, if the directory has one.
    pub fn find_file(&self, name: &String) -> (found: Option<usize>)
        ensures
            match found {
                Some(i) => position_of(self@, name@) == Some(i as int),
                None => position_of(self@, name@) is None,
            },
    {
        let mut i: usize = 0;
        while i < self.files.len()
            invariant
                i <= self.files@.len(),
                forall|k: int| 0 <= k < i ==> (#[trigger] self@[k]).name != name@,
            decreases self.files@.len() - i,
        {
            if *self.files[i].get_name() == *name {
                proof {
                    lemma_position_of_first(self@, name@, i as int);
                }
                return Some(i);
            }
            i = i + 1;
        }
        proof {
            lemma_position_of(self@, name@);
        }
        None
    }

    /// Puts `file` into the directory: in the place of the file that bore
    /// its name, or behind the others where none did.
    pub fn upsert_file(&mut self, file: File)
        ensures
            final(self)@ == upserted(old(self)@, file@),
    {
        let ghost before = self@;
        proof {
            use_type_invariant(&*self);
            lemma_upserted(before, file@);
            lemma_position_of(before, file@.name);
        }
        let found = self.find_file(file.get_name());
        let mut files: Vec<File> = Vec::new();
        std::mem::swap(&mut files, &mut self.files);
        assert(entries_of(files@) == before);
        match found {
            Some(i) => {
                assert(i < files@.len());
                files[i] = file;
            },
            None => {
                files.push(file);
            },
        }
        assert(entries_of(files@) =~= upserted(before, file@));
        self.files = files;
    }

    /// Puts `file` into the directory unless a file bears its name already.
    /// Says whether it was put in.
    pub fn add_file(&mut self, file: File) -> (added: bool)
        ensures
            added == (position_of(old(self)@, file@.name) is None),
            final(self)@ == if added {
                old(self)@.push(file@)
            } else {
                old(self)@
            },
    {
        match self.find_file(file.get_name()) {
            Some(_) => false,
            None => {
                self.upsert_file(file);
                true
            },
        }
    }
}

} // verus!
