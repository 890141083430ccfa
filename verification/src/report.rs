//! Reports assembled while comparing an on-disk collection
//! against the index: per scanned file, which sets it serves, what is
//! there, what should be renamed, what is missing.

use vstd::prelude::*;
use crate::files::DataFile;

verus! {

/// Summary of a whole scan: one [`FileReport`] per scanned file.
pub struct Report {
    pub files: Vec<FileReport>,
}

impl Report {
    /// An empty report.
    pub fn new() -> (r: Report)
        ensures
            r.files@.len() == 0,
    {
        Report { files: Vec::new() }
    }

    /// A report over the given per-file reports, in their order.
    pub fn from_files(files: Vec<FileReport>) -> (r: Report)
        ensures
            r.files == files,
    {
        Report { files }
    }

    /// Appends one per-file report.
    pub fn add_set(&mut self, file_report: FileReport)
        ensures
            final (self).files@ == old(self).files@.push(file_report),
    {
        self.files.push(file_report);
    }
}

/// What one scanned file (an archive, usually) contained: the sets it
/// matched and the members that matched nothing.
pub struct FileReport {
    pub file_name: String,
    pub sets: Vec<SetReport>,
    pub unknown: Vec<String>,
}

impl FileReport {
    /// An empty report for one scanned file.
    pub fn new(file_name: String) -> (r: FileReport)
        ensures
            r.file_name == file_name,
            r.sets@.len() == 0,
            r.unknown@.len() == 0,
    {
        FileReport { file_name, sets: Vec::new(), unknown: Vec::new() }
    }

    /// Appends one matched set.
    pub fn add_set(&mut self, set: SetReport)
        ensures
            final (self).sets@ == old(self).sets@.push(set),
            final (self).file_name == old(self).file_name,
            final (self).unknown == old(self).unknown,
    {
        self.sets.push(set);
    }

    /// Appends one member that matched no known content.
    pub fn add_unknown(&mut self, unknown: String)
        ensures
            final (self).unknown@ == old(self).unknown@.push(unknown),
            final (self).file_name == old(self).file_name,
            final (self).sets == old(self).sets,
    {
        self.unknown.push(unknown);
    }
}

/// How one set fared against the scanned files: members present, members
/// that only need renaming, members missing, members the set does not need.
pub struct SetReport {
    pub name: String,
    pub roms_have: Vec<DataFile>,
    pub roms_to_rename: Vec<FileRename>,
    pub roms_missing: Vec<DataFile>,
    pub roms_unneeded: Vec<DataFile>,
}

impl SetReport {
    /// An empty report for the named set.
    pub fn new(name: String) -> (r: SetReport)
        ensures
            r.name == name,
            r.roms_have@.len() == 0,
            r.roms_to_rename@.len() == 0,
            r.roms_missing@.len() == 0,
            r.roms_unneeded@.len() == 0,
    {
        SetReport {
            name,
            roms_have: Vec::new(),
            roms_to_rename: Vec::new(),
            roms_missing: Vec::new(),
            roms_unneeded: Vec::new(),
        }
    }

    /// A report over the given lists, in their order.
    pub fn from_data(
        name: String,
        roms_have: Vec<DataFile>,
        roms_to_rename: Vec<FileRename>,
        roms_missing: Vec<DataFile>,
        roms_unneeded: Vec<DataFile>,
    ) -> (r: SetReport)
        ensures
            r.name == name,
            r.roms_have == roms_have,
            r.roms_to_rename == roms_to_rename,
            r.roms_missing == roms_missing,
            r.roms_unneeded == roms_unneeded,
    {
        SetReport { name, roms_have, roms_to_rename, roms_missing, roms_unneeded }
    }

    /// Appends one member that is present under its proper name.
    pub fn add_having(&mut self, rom: DataFile)
        ensures
            final (self).roms_have@ == old(self).roms_have@.push(rom),
            final (self).name == old(self).name,
            final (self).roms_to_rename == old(self).roms_to_rename,
            final (self).roms_missing == old(self).roms_missing,
            final (self).roms_unneeded == old(self).roms_unneeded,
    {
        self.roms_have.push(rom);
    }

    /// Appends one member the set still lacks.
    pub fn add_missing(&mut self, rom: DataFile)
        ensures
            final (self).roms_missing@ == old(self).roms_missing@.push(rom),
            final (self).name == old(self).name,
            final (self).roms_have == old(self).roms_have,
            final (self).roms_to_rename == old(self).roms_to_rename,
            final (self).roms_unneeded == old(self).roms_unneeded,
    {
        self.roms_missing.push(rom);
    }
}

/// How a set should be named: already right, or renamed to the reference.
pub enum SetNameReport {
    /// The set already carries the reference name.
    Name(String),
    /// The set should be renamed from the first name to the second.
    RenameFromTo(String, String),
}

impl SetNameReport {
    /// Compares a set's current name with the reference name: equal names
    /// give `Name`, different names give `RenameFromTo(current, reference)`.
    pub fn new(set_name: String, reference_name: String) -> (r: SetNameReport)
        ensures
            set_name@ == reference_name@ ==> r == SetNameReport::Name(set_name),
            set_name@ != reference_name@ ==> r == SetNameReport::RenameFromTo(
                set_name,
                reference_name,
            ),
    {
        if crate::files::string_eq(&set_name, &reference_name) {
            SetNameReport::Name(set_name)
        } else {
            SetNameReport::RenameFromTo(set_name, reference_name)
        }
    }
}

/// A member that is present under the wrong name: the entry found on disk
/// and the name the set wants for it.
pub struct FileRename {
    pub from: DataFile,
    pub to: String,
}

impl FileRename {
    /// Pairs a found entry with the name it should take.
    pub fn new(from: DataFile, to: String) -> (r: FileRename)
        ensures
            r.from == from,
            r.to == to,
    {
        FileRename { from, to }
    }
}

} // verus!
