//! Games, game sets, rom-combining modes and the engine's error type.

use vstd::prelude::*;
use crate::files::DataFile;

verus! {

/// Mathematical view of a [`Game`].
pub struct GameV {
    pub name: Seq<char>,
    pub clone_of: Option<Seq<char>>,
    pub rom_of: Option<Seq<char>>,
    pub source_file: Option<Seq<char>>,
    pub sample_of: Option<Seq<char>>,
    pub info_description: Option<Seq<char>>,
    pub info_year: Option<Seq<char>>,
    pub info_manufacturer: Option<Seq<char>>,
}

/// One game of the catalog: a unique name, optional parent edges and
/// free-form info fields.
#[derive(Debug)]
pub struct Game {
    pub name: String,
    pub clone_of: Option<String>,
    pub rom_of: Option<String>,
    pub source_file: Option<String>,
    pub sample_of: Option<String>,
    pub info_description: Option<String>,
    pub info_year: Option<String>,
    pub info_manufacturer: Option<String>,
}

impl View for Game {
    type V = GameV;

    open spec fn view(&self) -> GameV {
        GameV {
            name: self.name@,
            clone_of: crate::files::opt_str_view(self.clone_of),
            rom_of: crate::files::opt_str_view(self.rom_of),
            source_file: crate::files::opt_str_view(self.source_file),
            sample_of: crate::files::opt_str_view(self.sample_of),
            info_description: crate::files::opt_str_view(self.info_description),
            info_year: crate::files::opt_str_view(self.info_year),
            info_manufacturer: crate::files::opt_str_view(self.info_manufacturer),
        }
    }
}

impl Game {
    /// A game with only its name set; every optional field absent.
    pub fn with_name(name: String) -> (r: Game)
        ensures
            r@.name == name@,
            r@.clone_of is None,
            r@.rom_of is None,
            r@.source_file is None,
            r@.sample_of is None,
            r@.info_description is None,
            r@.info_year is None,
            r@.info_manufacturer is None,
    {
        Game {
            name,
            clone_of: Option::None,
            rom_of: Option::None,
            source_file: Option::None,
            sample_of: Option::None,
            info_description: Option::None,
            info_year: Option::None,
            info_manufacturer: Option::None,
        }
    }

    /// A copy of this game, field for field.
    pub fn duplicate(&self) -> (r: Game)
        ensures
            r == *self,
    {
        Game {
            name: self.name.clone(),
            clone_of: crate::files::opt_string_clone(&self.clone_of),
            rom_of: crate::files::opt_string_clone(&self.rom_of),
            source_file: crate::files::opt_string_clone(&self.source_file),
            sample_of: crate::files::opt_string_clone(&self.sample_of),
            info_description: crate::files::opt_string_clone(&self.info_description),
            info_year: crate::files::opt_string_clone(&self.info_year),
            info_manufacturer: crate::files::opt_string_clone(&self.info_manufacturer),
        }
    }
}

/// One of the three conventional organizations of a ROM collection.
#[derive(Clone, Copy, PartialEq, Eq, Structural)]
pub enum RomsetMode {
    /// The game's own ROMs plus every clone's ROMs, under the parent.
    Merged,
    /// Every ROM the game needs to run, inherited parents included.
    NonMerged,
    /// Only the ROMs unique to this game; shared ones are left out.
    Split,
}

/// A materialized set: the game, its ROMs under the chosen mode, and its
/// disks and sample names.
#[derive(Debug)]
pub struct GameSet {
    pub game: Game,
    pub roms: Vec<DataFile>,
    pub disks: Vec<DataFile>,
    pub samples: Vec<String>,
}

impl GameSet {
    /// Bundles a game with the materialized contents of its set.
    pub fn new(game: Game, roms: Vec<DataFile>, disks: Vec<DataFile>, samples: Vec<String>) -> (r:
        GameSet)
        ensures
            r.game == game,
            r.roms == roms,
            r.disks == disks,
            r.samples == samples,
    {
        GameSet { game, roms, disks, samples }
    }
}

/// What went wrong inside the engine. Readers surface a missing referent;
/// writers treat duplicate game names and content-write failures as fatal.
#[derive(Debug)]
pub enum RomstError {
    /// A set was requested for a game name the index does not hold.
    GameNotFound { game: String },
    /// A second entry arrived for a game name already ingested.
    DuplicateGame { game: String },
    /// An entry named its own game as its clone parent.
    SelfReferencingParent { game: String },
    /// Finalizing found a cycle in the clone graph reachable from this game.
    CloneCycle { game: String },
}

impl RomstError {
    /// The game name the error speaks of.
    pub fn game_name(&self) -> (r: &String)
        ensures
            r@ == self.spec_game_name(),
    {
        match self {
            RomstError::GameNotFound { game } => game,
            RomstError::DuplicateGame { game } => game,
            RomstError::SelfReferencingParent { game } => game,
            RomstError::CloneCycle { game } => game,
        }
    }

    /// The game name the error speaks of, as a sequence of characters.
    pub open spec fn spec_game_name(&self) -> Seq<char> {
        match self {
            RomstError::GameNotFound { game } => game@,
            RomstError::DuplicateGame { game } => game@,
            RomstError::SelfReferencingParent { game } => game@,
            RomstError::CloneCycle { game } => game@,
        }
    }
}

} // verus!
