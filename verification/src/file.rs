//! Files and their metadata.

use vstd::prelude::*;
use crate::data_map::{ContentMap, ContentMapView};
use crate::timestamp::Time;

verus! {

/// What a directory records of a file besides its name and content.
#[derive(Clone, Copy, Debug, PartialEq, Eq, Structural)]
pub struct Metadata {
    /// The time at which the file was made.
    pub created_time: Time,
    /// The time at which the file was last written.
    pub modified_time: Time,
}

impl Metadata {
    /// This metadata with another time of last writing.
    pub open spec fn stamped(self, time: Time) -> Metadata {
        Metadata { created_time: self.created_time, modified_time: time }
    }

    /// The metadata of a file made at `time` and not written since.
    pub fn new(time: Time) -> (metadata: Metadata)
        ensures
            metadata == (Metadata { created_time: time, modified_time: time }),
    {
        Metadata { created_time: time, modified_time: time }
    }

    /// Records `time` as the time of last writing.
    pub fn set_modified_time(&mut self, time: Time)
        ensures
            *final(self) == old(self).stamped(time),
    {
        self.modified_time = time;
    }
}

/// A file of a directory: its name, its metadata and its content map.
#[derive(Clone, Debug, PartialEq, Eq)]
pub struct File {
    name: String,
    metadata: Metadata,
    datamap: ContentMap,
}

/// A file as a mathematical value.
pub struct FileView {
    pub name: Seq<char>,
    pub metadata: Metadata,
    pub datamap: ContentMapView,
}

impl View for File {
    type V = FileView;

    closed spec fn view(&self) -> FileView {
        FileView { name: self.name@, metadata: self.metadata, datamap: self.datamap@ }
    }
}

impl File {
    pub fn new(name: String, metadata: Metadata, datamap: ContentMap) -> (file: File)
        ensures
            file@ == (FileView { name: name@, metadata, datamap: datamap@ }),
    {
        File { name, metadata, datamap }
    }

    pub fn get_name(&self) -> (name: &String)
        ensures
            name@ == self@.name,
    {
        &self.name
    }

    pub fn get_metadata(&self) -> (metadata: &Metadata)
        ensures
            *metadata == self@.metadata,
    {
        &self.metadata
    }

    pub fn get_datamap(&self) -> (datamap: &ContentMap)
        ensures
            datamap@ == self@.datamap,
    {
        &self.datamap
    }

    /// Gives the file another content map.
    pub fn set_datamap(&mut self, datamap: ContentMap)
        ensures
            final(self)@ == (FileView { datamap: datamap@, ..old(self)@ }),
    {
        self.datamap = datamap;
    }

    /// Records `time` as the time at which the file was last written.
    pub fn set_modified_time(&mut self, time: Time)
        ensures
            final(self)@ == (FileView { metadata: old(self)@.metadata.stamped(time), ..old(self)@ }),
    {
        self.metadata.set_modified_time(time);
    }
}

} // verus!
