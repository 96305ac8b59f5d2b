//! The write session.

use vstd::prelude::*;
use crate::data_map::{contents, Chunk, ContentMap, ContentMapView};
use crate::directory_listing::{
    distinct_names,
    holds_once,
    lemma_position_of,
    lemma_upserted,
    position_of,
    upserted,
    DirectoryListing,
};
use crate::file::{File, FileView};
use crate::pipeline::{bounded, min_chunked_len, sealed, sealed_view, seeded, written, Pipeline};
use crate::timestamp::{now_utc, Time};

verus! {

/// Why a session could not be closed.
#[derive(Clone, Copy, Debug, PartialEq, Eq, Structural)]
pub enum WriteError {
    /// The pipeline could not take a write or could not encrypt the content.
    Pipeline,
    /// The directory could not be saved.
    SaveFailed,
}

impl WriteError {
    /// The error in words.
    pub fn message(&self) -> (text: String)
        ensures
            text@ == match *self {
                WriteError::Pipeline => "Failed to encrypt"@,
                WriteError::SaveFailed => "Failed to save"@,
            },
    {
        match self {
            WriteError::Pipeline => "Failed to encrypt".to_string(),
            WriteError::SaveFailed => "Failed to save".to_string(),
        }
    }
}

/// What a closed session leaves to be persisted: the chunks of the file, and
/// the directory with the file in it.
#[derive(Debug)]
pub struct Commit {
    directory: DirectoryListing,
    chunks: Vec<Chunk>,
}

/// A commit as a mathematical value.
pub struct CommitView {
    pub directory: Seq<FileView>,
    pub chunks: Seq<Seq<u8>>,
}

impl View for Commit {
    type V = CommitView;

    closed spec fn view(&self) -> CommitView {
        CommitView { directory: self.directory@, chunks: contents(self.chunks@) }
    }
}

impl Commit {
    /// The directory to save.
    pub fn get_directory(&self) -> (directory: &DirectoryListing)
        ensures
            directory@ == self@.directory,
    {
        &self.directory
    }

    /// The chunks to store.
    pub fn get_chunks(&self) -> (chunks: &Vec<Chunk>)
        ensures
            contents(chunks@) == self@.chunks,
    {
        &self.chunks
    }

    /// What is to be saved once the chunks were handed to the store:
    /// the directory where all of them were stored, and nothing where one
    /// was not, for the file would then be listed without its content.
    pub fn to_save(&self, stored: bool) -> (directory: Option<&DirectoryListing>)
        ensures
            match directory {
                Some(directory) => stored && directory@ == self@.directory,
                None => !stored,
            },
    {
        if stored {
            Some(&self.directory)
        } else {
            None
        }
    }

    /// Ends the session once the commit was handed to the store. `stored`
    /// says whether every chunk could be stored, `saved` whether the
    /// directory could then be saved. The first failure is the failure of
    /// the session.
    pub fn conclude(self, stored: bool, saved: bool) -> (outcome: Result<(), WriteError>)
        ensures
            outcome == concluded(stored, saved),
    {
        if !stored {
            Err(WriteError::Pipeline)
        } else if !saved {
            Err(WriteError::SaveFailed)
        } else {
            Ok(())
        }
    }

    /// Ends a session whose chunks were all stored. `saved` says whether
    /// the directory could be saved; a failure to save is the failure of
    /// the session.
    pub fn finish(self, saved: bool) -> (outcome: Result<(), WriteError>)
        ensures
            outcome == concluded(true, saved),
    {
        self.conclude(true, saved)
    }
}

/// How a session ends once its commit was handed to the store: with the
/// pipeline's failure where a chunk could not be stored, with the failure
/// to save where the directory could not be saved, and well otherwise.
pub open spec fn concluded(stored: bool, saved: bool) -> Result<(), WriteError> {
    if !stored {
        Err(WriteError::Pipeline)
    } else if !saved {
        Err(WriteError::SaveFailed)
    } else {
        Ok(())
    }
}

/// The outcome of closing a session as a mathematical value.
pub open spec fn outcome_view(outcome: Result<Commit, WriteError>) -> Result<
    CommitView,
    WriteError,
> {
    match outcome {
        Ok(commit) => Ok(commit@),
        Err(error) => Err(error),
    }
}

/// The file as a closed session records it: with the content map that the
/// pipeline gave and `now` as the time of last writing. Nothing else of it
/// changes.
pub open spec fn recorded(file: FileView, datamap: ContentMapView, now: Time) -> FileView {
    FileView { name: file.name, metadata: file.metadata.stamped(now), datamap }
}

/// What closing makes of a directory, a file and the outcome of the
/// pipeline: the pipeline's failure, or the commit in which the recorded
/// file stands in the directory under its name.
pub open spec fn committed(
    directory: Seq<FileView>,
    file: FileView,
    sealed: Option<(ContentMapView, Seq<Seq<u8>>)>,
    now: Time,
) -> Result<CommitView, WriteError> {
    match sealed {
        None => Err(WriteError::Pipeline),
        Some((datamap, chunks)) => Ok(
            CommitView { directory: upserted(directory, recorded(file, datamap, now)), chunks },
        ),
    }
}

/// A session as a mathematical value.
pub struct WriterView {
    /// The file that the session writes.
    pub file: FileView,
    /// The entries of the directory that the file belongs to.
    pub directory: Seq<FileView>,
    /// The content that the pipeline holds, or `None` once it has failed.
    pub content: Option<Seq<u8>>,
}

impl WriterView {
    /// The session as it is opened on a directory and a file whose stored
    /// chunks are `chunks`.
    pub open spec fn opened(directory: Seq<FileView>, file: FileView, chunks: Seq<Seq<u8>>) -> WriterView {
        WriterView { file, directory, content: seeded(file.datamap, chunks) }
    }

    /// The session after one more write.
    pub open spec fn written(self, data: Seq<u8>, position: nat) -> WriterView {
        WriterView { content: written(self.content, data, position), ..self }
    }

    /// What closing the session at the time `now` yields.
    pub open spec fn closed_at(self, now: Time) -> Result<CommitView, WriteError> {
        committed(self.directory, self.file, sealed(self.content), now)
    }

    /// The session is one that can be: what its pipeline holds is no longer
    /// than a pipeline can hold.
    pub open spec fn bounded(self) -> bool {
        bounded(self.content)
    }
}

/// Closing a session on a file whose name the directory does not have yet
/// leaves a directory with one entry more, and the file as the session
/// records it is the one entry that bears its name.
pub proof fn lemma_close_new_name(session: WriterView, now: Time)
    requires
        distinct_names(session.directory),
        position_of(session.directory, session.file.name) is None,
        session.closed_at(now) is Ok,
    ensures
        ({
            let after = session.closed_at(now)->Ok_0.directory;
            let datamap = sealed(session.content)->Some_0.0;
            &&& distinct_names(after)
            &&& holds_once(after, recorded(session.file, datamap, now))
            &&& after.len() == session.directory.len() + 1
            &&& after.subrange(0, session.directory.len() as int) == session.directory
        }),
{
    let datamap = sealed(session.content)->Some_0.0;
    let entry = recorded(session.file, datamap, now);
    lemma_upserted(session.directory, entry);
    assert(upserted(session.directory, entry).subrange(0, session.directory.len() as int)
        =~= session.directory);
}

/// Closing a session on a file whose name the directory has already leaves
/// a directory with as many entries as before, and the file as the session
/// records it is the one entry that bears its name: it stands where the
/// earlier entry stood, and nothing of that entry is kept.
pub proof fn lemma_close_existing_name(session: WriterView, now: Time)
    requires
        distinct_names(session.directory),
        position_of(session.directory, session.file.name) is Some,
        session.closed_at(now) is Ok,
    ensures
        ({
            let after = session.closed_at(now)->Ok_0.directory;
            let datamap = sealed(session.content)->Some_0.0;
            let place = position_of(session.directory, session.file.name)->Some_0;
            &&& distinct_names(after)
            &&& holds_once(after, recorded(session.file, datamap, now))
            &&& after.len() == session.directory.len()
            &&& after == session.directory.update(place, recorded(session.file, datamap, now))
        }),
{
    let datamap = sealed(session.content)->Some_0.0;
    lemma_upserted(session.directory, recorded(session.file, datamap, now));
}

/// A session that closes stamps the file: whatever was written, and also
/// where nothing was, the entry that bears the file's name in the directory
/// of the commit has `now` as its time of last writing.
pub proof fn lemma_close_stamps(session: WriterView, now: Time)
    requires
        distinct_names(session.directory),
        session.closed_at(now) is Ok,
    ensures
        ({
            let after = session.closed_at(now)->Ok_0.directory;
            &&& position_of(after, session.file.name) is Some
            &&& after[position_of(after, session.file.name)->Some_0].metadata.modified_time == now
            &&& after[position_of(after, session.file.name)->Some_0].metadata.created_time
                == session.file.metadata.created_time
        }),
{
    let datamap = sealed(session.content)->Some_0.0;
    let entry = recorded(session.file, datamap, now);
    let after = upserted(session.directory, entry);
    lemma_upserted(session.directory, entry);
    lemma_position_of(after, session.file.name);
    let i = choose|i: int|
        0 <= i < after.len() && #[trigger] after[i] == entry && forall|j: int|
            0 <= j < after.len() && (#[trigger] after[j]).name == entry.name ==> j == i;
    assert(after[i].name == session.file.name);
}

/// A session on a file whose short content is held inline, closed before
/// anything was written to it, closes well: the file is recorded with the
/// content it had, and the commit holds no chunks. A file without content
/// is such a file.
pub proof fn lemma_close_without_writes(
    directory: Seq<FileView>,
    file: FileView,
    chunks: Seq<Seq<u8>>,
    now: Time,
)
    requires
        file.datamap matches ContentMapView::Inline(content) && content.len() < min_chunked_len(),
    ensures
        WriterView::opened(directory, file, chunks).closed_at(now) == Ok::<
            CommitView,
            WriteError,
        >(
            CommitView {
                directory: upserted(directory, recorded(file, file.datamap, now)),
                chunks: Seq::empty(),
            },
        ),
{
}

/// Closing a session adds at most one entry to the directory, whether or
/// not the directory can then be saved.
pub proof fn lemma_close_adds_at_most_one(session: WriterView, now: Time)
    requires
        distinct_names(session.directory),
        session.closed_at(now) is Ok,
    ensures
        session.directory.len() <= session.closed_at(now)->Ok_0.directory.len()
            <= session.directory.len() + 1,
{
    let datamap = sealed(session.content)->Some_0.0;
    lemma_upserted(session.directory, recorded(session.file, datamap, now));
}

/// Puts the outcome of the pipeline on record: gives the file its new
/// content map, stamps it with `now` and puts it into the directory under
/// its name, in the place of the file that bore the name before or as a new
/// entry. A failed pipeline is reported and nothing is recorded.
pub fn commit(
    directory: DirectoryListing,
    file: File,
    sealed: Option<(ContentMap, Vec<Chunk>)>,
    now: Time,
) -> (outcome: Result<Commit, WriteError>)
    ensures
        outcome_view(outcome) == committed(directory@, file@, sealed_view(sealed), now),
{
    let mut directory = directory;
    let mut file = file;
    match sealed {
        None => Err(WriteError::Pipeline),
        Some((datamap, chunks)) => {
            file.set_datamap(datamap);
            file.set_modified_time(now);
            match directory.find_file(file.get_name()) {
                Some(_) => {
                    directory.upsert_file(file);
                },
                None => {
                    directory.add_file(file);
                },
            }
            Ok(Commit { directory, chunks })
        },
    }
}

/// A write session on one file of a directory.
///
/// A session is used up by closing it: `close` takes the session by value,
/// so that it can neither be written to nor closed a second time.
pub struct Writer {
    file: File,
    directory: DirectoryListing,
    pipeline: Pipeline,
}

impl View for Writer {
    type V = WriterView;

    closed spec fn view(&self) -> WriterView {
        WriterView { file: self.file@, directory: self.directory@, content: self.pipeline@ }
    }
}

impl Writer {
    /// Opens a session on `file`, which belongs or is to belong to
    /// `directory`. `stored` holds the chunks of the file as the store has
    /// them; a file whose content is held inline in its map has none.
    pub fn new(directory: DirectoryListing, file: File, stored: &[Chunk]) -> (writer: Writer)
        ensures
            writer@ == WriterView::opened(directory@, file@, contents(stored@)),
            writer@.bounded(),
    {
        let pipeline = Pipeline::new(file.get_datamap(), stored);
        Writer { file, directory, pipeline }
    }

    /// Lays `data` over the content of the file from `position` on.
    pub fn write(&mut self, data: &[u8], position: u64)
        ensures
            final(self)@ == old(self)@.written(data@, position as nat),
            old(self)@.bounded(),
            final(self)@.bounded(),
    {
        self.pipeline.write(data, position);
    }

    /// Closes the session at the time that the clock shows.
    pub fn close(self) -> (outcome: Result<Commit, WriteError>)
        ensures
            exists|now: Time|
                now.is_utc_reading() && outcome_view(outcome) == #[trigger] self@.closed_at(now),
            self@.bounded(),
    {
        let now = now_utc();
        self.close_at(now)
    }

    /// Closes the session at the time `now`: closes the pipeline and puts
    /// its outcome on record.
    pub fn close_at(self, now: Time) -> (outcome: Result<Commit, WriteError>)
        ensures
            outcome_view(outcome) == self@.closed_at(now),
            self@.bounded(),
    {
        let Writer { file, directory, pipeline } = self;
        let sealed = pipeline.close();
        commit(directory, file, sealed, now)
    }
}

} // verus!
