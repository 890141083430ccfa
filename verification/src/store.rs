//! The index itself: content, game, membership, sample and device tables,
//! with content lookup by digest and the well-formedness the writer keeps.

use vstd::prelude::*;
use crate::files::{file_matches, same_rom, DataFile, DataFileV, FileChecks};
use crate::models::Game;

verus! {

/// One row of the content table: a stable id and the ROM entry it names.
pub struct RomRow {
    pub id: u32,
    pub file: DataFile,
}

/// One membership row: `game` holds the content `rom_id` under the local
/// `name`. `parent` is filled by the back-fill pass when the same content
/// also belongs to the game's clone parent.
pub struct GameRom {
    pub game: String,
    pub rom_id: u32,
    pub name: String,
    pub parent: Option<String>,
}

/// One sample row: a sample pack and one sample file name in it.
pub struct SampleRow {
    pub pack: String,
    pub sample: String,
}

/// One device row: a game and a device game whose ROMs it needs.
pub struct DeviceRow {
    pub game: String,
    pub device_ref: String,
}

/// Whether some content row carries this id.
pub open spec fn has_rom_id(roms: Seq<RomRow>, id: u32) -> bool {
    exists|i: int| 0 <= i < roms.len() && roms[i].id == id
}

/// Whether some content row's entry has the same content key as `q`.
pub open spec fn has_rom_key(roms: Seq<RomRow>, q: DataFileV) -> bool {
    exists|i: int| 0 <= i < roms.len() && same_rom(roms[i].file@, q)
}

/// The id of the stored entry matching the query under the mask; when
/// several rows match, the smallest id wins.
pub open spec fn lookup_spec(roms: Seq<RomRow>, q: DataFileV, checks: FileChecks) -> Option<u32>
    decreases roms.len(),
{
    if roms.len() == 0 {
        Option::None
    } else {
        let prev = lookup_spec(roms.drop_last(), q, checks);
        let last = roms.last();
        if file_matches(q, last.file@, checks) {
            match prev {
                Option::Some(p) => if p <= last.id {
                    Option::Some(p)
                } else {
                    Option::Some(last.id)
                },
                Option::None => Option::Some(last.id),
            }
        } else {
            prev
        }
    }
}

/// What [`lookup_spec`] returns, spelled out: `None` exactly when no row
/// matches, otherwise the id of a matching row no other match undercuts.
pub proof fn lemma_lookup_props(roms: Seq<RomRow>, q: DataFileV, checks: FileChecks)
    ensures
        lookup_spec(roms, q, checks) is None ==> forall|i: int|
            0 <= i < roms.len() ==> !file_matches(q, (#[trigger] roms[i]).file@, checks),
        lookup_spec(roms, q, checks) matches Option::Some(id) ==> {
            &&& exists|i: int|
                0 <= i < roms.len() && (#[trigger] roms[i]).id == id && file_matches(
                    q,
                    roms[i].file@,
                    checks,
                )
            &&& forall|i: int|
                0 <= i < roms.len() && file_matches(q, (#[trigger] roms[i]).file@, checks)
                    ==> id <= roms[i].id
        },
    decreases roms.len(),
{
    if roms.len() > 0 {
        lemma_lookup_props(roms.drop_last(), q, checks);
        assert forall|i: int| 0 <= i < roms.len() - 1 implies roms.drop_last()[i] == roms[i] by {}
    }
}

/// Dedup soundness: two queries with the same declared digest tuple and
/// size resolve to the same id, whatever the index holds.
pub proof fn lemma_lookup_same_key(roms: Seq<RomRow>, a: DataFileV, b: DataFileV, checks: FileChecks)
    requires
        same_rom(a, b),
    ensures
        lookup_spec(roms, a, checks) == lookup_spec(roms, b, checks),
    decreases roms.len(),
{
    if roms.len() > 0 {
        lemma_lookup_same_key(roms.drop_last(), a, b, checks);
    }
}

/// A query that resolves keeps resolving when rows are appended.
pub proof fn lemma_lookup_append_some(
    a: Seq<RomRow>,
    b: Seq<RomRow>,
    q: DataFileV,
    checks: FileChecks,
)
    requires
        lookup_spec(a, q, checks) is Some,
    ensures
        lookup_spec(a + b, q, checks) is Some,
    decreases b.len(),
{
    if b.len() == 0 {
        assert(a + b =~= a);
    } else {
        lemma_lookup_append_some(a, b.drop_last(), q, checks);
        assert((a + b).drop_last() =~= a + b.drop_last());
        assert((a + b).last() == b.last());
    }
}

/// A row with the query's own content key forces the lookup to succeed.
pub proof fn lemma_lookup_some_of_key(roms: Seq<RomRow>, q: DataFileV, checks: FileChecks, i: int)
    requires
        0 <= i < roms.len(),
        same_rom(roms[i].file@, q),
    ensures
        lookup_spec(roms, q, checks) is Some,
{
    crate::files::lemma_same_rom_matches(q, roms[i].file@, checks);
    lemma_lookup_props(roms, q, checks);
    if lookup_spec(roms, q, checks) is None {
        assert(!file_matches(q, roms[i].file@, checks));
    }
}

/// The entry of the first content row carrying this id, if any does.
pub open spec fn rom_by_id_spec(roms: Seq<RomRow>, id: u32) -> Option<DataFile>
    decreases roms.len(),
{
    if roms.len() == 0 {
        Option::None
    } else if roms[0].id == id {
        Option::Some(roms[0].file)
    } else {
        rom_by_id_spec(roms.drop_first(), id)
    }
}

/// [`rom_by_id_spec`] succeeds exactly on taken ids, and hands back a row's
/// own entry.
pub proof fn lemma_rom_by_id_props(roms: Seq<RomRow>, id: u32)
    ensures
        rom_by_id_spec(roms, id) is Some <==> has_rom_id(roms, id),
        rom_by_id_spec(roms, id) matches Option::Some(f) ==> exists|i: int|
            0 <= i < roms.len() && (#[trigger] roms[i]).id == id && roms[i].file == f,
    decreases roms.len(),
{
    if roms.len() > 0 {
        let rest = roms.drop_first();
        lemma_rom_by_id_props(rest, id);
        if roms[0].id == id {
        } else {
            if has_rom_id(roms, id) {
                let i = choose|i: int| 0 <= i < roms.len() && (#[trigger] roms[i]).id == id;
                assert(rest[i - 1] == roms[i]);
                assert(has_rom_id(rest, id));
            }
            if has_rom_id(rest, id) {
                let i = choose|i: int| 0 <= i < rest.len() && (#[trigger] rest[i]).id == id;
                assert(roms[i + 1] == rest[i]);
            }
            match rom_by_id_spec(rest, id) {
                Option::Some(f) => {
                    let i = choose|i: int|
                        0 <= i < rest.len() && (#[trigger] rest[i]).id == id && rest[i].file == f;
                    assert(roms[i + 1] == rest[i]);
                },
                Option::None => {},
            }
        }
    }
}

/// The lowest id no content row has taken yet: zero on an empty table,
/// one past the largest taken id otherwise.
pub open spec fn next_id_spec(roms: Seq<RomRow>) -> u32
    decreases roms.len(),
{
    if roms.len() == 0 {
        0u32
    } else {
        let prev = next_id_spec(roms.drop_last());
        let last = roms.last();
        if last.id == u32::MAX {
            u32::MAX
        } else if prev >= last.id + 1 {
            prev
        } else {
            (last.id + 1) as u32
        }
    }
}

/// Every taken id lies under [`next_id_spec`], as long as none is the
/// largest representable id.
pub proof fn lemma_next_id_bound(roms: Seq<RomRow>)
    requires
        forall|i: int| 0 <= i < roms.len() ==> (#[trigger] roms[i]).id < u32::MAX,
    ensures
        forall|i: int| 0 <= i < roms.len() ==> (#[trigger] roms[i]).id < next_id_spec(roms),
    decreases roms.len(),
{
    if roms.len() > 0 {
        lemma_next_id_bound(roms.drop_last());
        assert forall|i: int| 0 <= i < roms.len() implies (#[trigger] roms[i]).id < next_id_spec(
            roms,
        ) by {
            if i < roms.len() - 1 {
                assert(roms.drop_last()[i] == roms[i]);
            }
        }
    }
}

/// The whole persisted index: dataset info plus the five tables.
pub struct Index {
    pub info_name: String,
    pub info_description: String,
    pub info_version: String,
    pub info_extra: Vec<(String, String)>,
    pub roms: Vec<RomRow>,
    pub games: Vec<Game>,
    pub game_roms: Vec<GameRom>,
    pub disks: Vec<RomRow>,
    pub game_disks: Vec<GameRom>,
    pub samples: Vec<SampleRow>,
    pub devices: Vec<DeviceRow>,
}

/// Counts summarizing a persisted index.
pub struct DBReport {
    pub name: String,
    pub description: String,
    pub version: String,
    pub extras: Vec<(String, String)>,
    pub games: usize,
    pub roms: usize,
    pub roms_in_games: usize,
    pub samples: usize,
    pub device_refs: usize,
}

impl Index {
    /// Well-formedness the writer establishes and keeps: content ids are
    /// unique, content keys are unique (the dedup invariant), game names
    /// are unique, and every membership row points at a stored content id.
    pub open spec fn wf(self) -> bool {
        &&& forall|i: int, j: int|
            0 <= i < j < self.roms@.len() ==> (#[trigger] self.roms@[i]).id
                != (#[trigger] self.roms@[j]).id
        &&& forall|i: int, j: int|
            0 <= i < j < self.roms@.len() ==> !same_rom(
                (#[trigger] self.roms@[i]).file@,
                (#[trigger] self.roms@[j]).file@,
            )
        &&& forall|i: int, j: int|
            0 <= i < j < self.games@.len() ==> (#[trigger] self.games@[i]).name@
                != (#[trigger] self.games@[j]).name@
        &&& forall|i: int|
            0 <= i < self.game_roms@.len() ==> has_rom_id(
                self.roms@,
                (#[trigger] self.game_roms@[i]).rom_id,
            )
        &&& forall|i: int, j: int|
            0 <= i < j < self.disks@.len() ==> (#[trigger] self.disks@[i]).id
                != (#[trigger] self.disks@[j]).id
        &&& forall|i: int, j: int|
            0 <= i < j < self.disks@.len() ==> !same_rom(
                (#[trigger] self.disks@[i]).file@,
                (#[trigger] self.disks@[j]).file@,
            )
        &&& forall|i: int|
            0 <= i < self.game_disks@.len() ==> has_rom_id(
                self.disks@,
                (#[trigger] self.game_disks@[i]).rom_id,
            )
    }

    /// Checks the well-formedness of the tables, so that an index loaded
    /// from outside (a persisted copy, say) can be validated before
    /// readers rely on [`Index::wf`].
    pub fn check_wf(&self) -> (r: bool)
        ensures
            r == self.wf(),
    {
        let roms_ok = rows_well_keyed(&self.roms);
        let games_ok = games_well_named(&self.games);
        let members_ok = membership_resolved(&self.game_roms, &self.roms);
        let disks_ok = rows_well_keyed(&self.disks);
        let disk_members_ok = membership_resolved(&self.game_disks, &self.disks);
        let r = roms_ok && games_ok && members_ok && disks_ok && disk_members_ok;
        proof {
            if r {
                assert(self.wf());
            }
            if self.wf() {
                assert forall|i: int, j: int|
                    0 <= i < j < self.roms@.len() implies (#[trigger] self.roms@[i]).id != (
                #[trigger] self.roms@[j]).id && !same_rom(
                    self.roms@[i].file@,
                    self.roms@[j].file@,
                ) by {}
                assert forall|i: int, j: int|
                    0 <= i < j < self.disks@.len() implies (#[trigger] self.disks@[i]).id != (
                #[trigger] self.disks@[j]).id && !same_rom(
                    self.disks@[i].file@,
                    self.disks@[j].file@,
                ) by {}
                assert(r);
            }
        }
        r
    }

    /// A fresh, empty index, as `init` leaves the store.
    pub fn empty() -> (r: Index)
        ensures
            r.roms@.len() == 0,
            r.games@.len() == 0,
            r.game_roms@.len() == 0,
            r.disks@.len() == 0,
            r.game_disks@.len() == 0,
            r.samples@.len() == 0,
            r.devices@.len() == 0,
            r.info_name@.len() == 0,
            r.info_description@.len() == 0,
            r.info_version@.len() == 0,
            r.info_extra@.len() == 0,
            r.wf(),
    {
        Index {
            info_name: String::new(),
            info_description: String::new(),
            info_version: String::new(),
            info_extra: Vec::new(),
            roms: Vec::new(),
            games: Vec::new(),
            game_roms: Vec::new(),
            disks: Vec::new(),
            game_disks: Vec::new(),
            samples: Vec::new(),
            devices: Vec::new(),
        }
    }

    /// The stored id whose entry matches every digest the query declares
    /// (under the mask) and its declared size; the smallest id on a tie.
    pub fn lookup_id(&self, q: &DataFile, checks: FileChecks) -> (r: Option<u32>)
        ensures
            r == lookup_spec(self.roms@, q@, checks),
    {
        let mut best: Option<u32> = Option::None;
        let n = self.roms.len();
        let mut i: usize = 0;
        while i < n
            invariant
                0 <= i <= n,
                n == self.roms@.len(),
                best == lookup_spec(self.roms@.take(i as int), q@, checks),
            decreases n - i,
        {
            let row = &self.roms[i];
            proof {
                let pre = self.roms@.take(i as int + 1);
                assert(pre.drop_last() =~= self.roms@.take(i as int));
                assert(pre.last() == self.roms@[i as int]);
            }
            if q.matches(&row.file, checks) {
                best = match best {
                    Option::Some(p) => if p <= row.id {
                        Option::Some(p)
                    } else {
                        Option::Some(row.id)
                    },
                    Option::None => Option::Some(row.id),
                };
            }
            i = i + 1;
        }
        proof {
            assert(self.roms@.take(n as int) =~= self.roms@);
        }
        best
    }

    /// The stored disk id whose entry matches every digest the query
    /// declares (under the mask) and its declared size; smallest id on a tie.
    pub fn lookup_disk_id(&self, q: &DataFile, checks: FileChecks) -> (r: Option<u32>)
        ensures
            r == lookup_spec(self.disks@, q@, checks),
    {
        let mut best: Option<u32> = Option::None;
        let n = self.disks.len();
        let mut i: usize = 0;
        while i < n
            invariant
                0 <= i <= n,
                n == self.disks@.len(),
                best == lookup_spec(self.disks@.take(i as int), q@, checks),
            decreases n - i,
        {
            let row = &self.disks[i];
            proof {
                let pre = self.disks@.take(i as int + 1);
                assert(pre.drop_last() =~= self.disks@.take(i as int));
                assert(pre.last() == self.disks@[i as int]);
            }
            if q.matches(&row.file, checks) {
                best = match best {
                    Option::Some(p) => if p <= row.id {
                        Option::Some(p)
                    } else {
                        Option::Some(row.id)
                    },
                    Option::None => Option::Some(row.id),
                };
            }
            i = i + 1;
        }
        proof {
            assert(self.disks@.take(n as int) =~= self.disks@);
        }
        best
    }

    /// The entry stored under the given content id, if any row carries it.
    pub fn rom_by_id(&self, id: u32) -> (r: Option<DataFile>)
        ensures
            r == rom_by_id_spec(self.roms@, id),
            r is Some <==> has_rom_id(self.roms@, id),
    {
        let n = self.roms.len();
        let mut i: usize = 0;
        proof {
            assert(self.roms@.skip(0) =~= self.roms@);
        }
        while i < n
            invariant
                0 <= i <= n,
                n == self.roms@.len(),
                rom_by_id_spec(self.roms@, id) == rom_by_id_spec(self.roms@.skip(i as int), id),
                forall|j: int| 0 <= j < i ==> (#[trigger] self.roms@[j]).id != id,
            decreases n - i,
        {
            proof {
                let cur = self.roms@.skip(i as int);
                assert(cur[0] == self.roms@[i as int]);
                assert(cur.drop_first() =~= self.roms@.skip(i as int + 1));
            }
            let row = &self.roms[i];
            if row.id == id {
                let f = row.file.duplicate();
                proof {
                    lemma_rom_by_id_props(self.roms@, id);
                }
                return Option::Some(f);
            }
            i = i + 1;
        }
        proof {
            assert(self.roms@.skip(n as int) =~= Seq::<RomRow>::empty());
            lemma_rom_by_id_props(self.roms@, id);
            if has_rom_id(self.roms@, id) {
                let j = choose|j: int|
                    0 <= j < self.roms@.len() && (#[trigger] self.roms@[j]).id == id;
                assert(false);
            }
        }
        Option::None
    }

    /// Where the named game sits in the games table, if it is there.
    pub fn game_position(&self, name: &String) -> (r: Option<usize>)
        ensures
            r matches Option::Some(i) ==> 0 <= i < self.games@.len() && self.games@[i as int].name@
                == name@,
            r is None ==> forall|i: int|
                0 <= i < self.games@.len() ==> (#[trigger] self.games@[i]).name@ != name@,
    {
        let n = self.games.len();
        let mut i: usize = 0;
        while i < n
            invariant
                0 <= i <= n,
                n == self.games@.len(),
                forall|j: int| 0 <= j < i ==> (#[trigger] self.games@[j]).name@ != name@,
            decreases n - i,
        {
            if crate::files::string_eq(&self.games[i].name, name) {
                return Option::Some(i);
            }
            i = i + 1;
        }
        Option::None
    }

    /// Whether the games table holds a game of this name.
    pub open spec fn has_game(self, name: Seq<char>) -> bool {
        exists|i: int| 0 <= i < self.games@.len() && (#[trigger] self.games@[i]).name@ == name
    }

    /// A copy of the named game, if the table holds one.
    pub fn get_game(&self, name: &String) -> (r: Option<Game>)
        ensures
            r is Some <==> self.has_game(name@),
            r matches Option::Some(g) ==> exists|i: int|
                0 <= i < self.games@.len() && #[trigger] self.games@[i] == g && g.name@ == name@,
    {
        match self.game_position(name) {
            Option::Some(i) => {
                let g = self.games[i].duplicate();
                Option::Some(g)
            },
            Option::None => Option::None,
        }
    }

    /// Copies of the games whose `clone_of` is the given name, in table
    /// order.
    pub fn children_of(&self, name: &String) -> (r: Vec<Game>)
        ensures
            r@ == children_spec(self.games@, name@),
    {
        let mut out: Vec<Game> = Vec::new();
        let n = self.games.len();
        let mut i: usize = 0;
        while i < n
            invariant
                0 <= i <= n,
                n == self.games@.len(),
                out@ == children_spec(self.games@.take(i as int), name@),
            decreases n - i,
        {
            let g = &self.games[i];
            proof {
                let pre = self.games@.take(i as int + 1);
                assert(pre.drop_last() =~= self.games@.take(i as int));
                assert(pre.last() == self.games@[i as int]);
            }
            let keep = match &g.clone_of {
                Option::Some(p) => crate::files::string_eq(p, name),
                Option::None => false,
            };
            if keep {
                out.push(g.duplicate());
            }
            i = i + 1;
        }
        proof {
            assert(self.games@.take(n as int) =~= self.games@);
        }
        out
    }

    /// The device references recorded for the named game, in table order.
    pub fn devices_of(&self, name: &String) -> (r: Vec<String>)
        ensures
            r@ == devices_spec(self.devices@, name@),
    {
        let mut out: Vec<String> = Vec::new();
        let n = self.devices.len();
        let mut i: usize = 0;
        while i < n
            invariant
                0 <= i <= n,
                n == self.devices@.len(),
                out@ == devices_spec(self.devices@.take(i as int), name@),
            decreases n - i,
        {
            let d = &self.devices[i];
            proof {
                let pre = self.devices@.take(i as int + 1);
                assert(pre.drop_last() =~= self.devices@.take(i as int));
                assert(pre.last() == self.devices@[i as int]);
            }
            if crate::files::string_eq(&d.game, name) {
                out.push(d.device_ref.clone());
            }
            i = i + 1;
        }
        proof {
            assert(self.devices@.take(n as int) =~= self.devices@);
        }
        out
    }

    /// The counts a summary report carries, straight off the tables.
    pub fn report(&self) -> (r: DBReport)
        ensures
            r.games == self.games@.len(),
            r.roms == self.roms@.len(),
            r.roms_in_games == self.game_roms@.len(),
            r.samples == self.samples@.len(),
            r.device_refs == self.devices@.len(),
            r.name@ == self.info_name@,
            r.description@ == self.info_description@,
            r.version@ == self.info_version@,
            r.extras@ == self.info_extra@,
    {
        let mut extras: Vec<(String, String)> = Vec::new();
        let ne = self.info_extra.len();
        let mut e: usize = 0;
        while e < ne
            invariant
                0 <= e <= ne,
                ne == self.info_extra@.len(),
                extras@ == self.info_extra@.take(e as int),
            decreases ne - e,
        {
            let key = self.info_extra[e].0.clone();
            let val = self.info_extra[e].1.clone();
            proof {
                assert((key, val) == self.info_extra@[e as int]);
                assert(self.info_extra@.take(e as int + 1) =~= self.info_extra@.take(
                    e as int,
                ).push(self.info_extra@[e as int]));
            }
            extras.push((key, val));
            e = e + 1;
        }
        proof {
            assert(self.info_extra@.take(ne as int) =~= self.info_extra@);
        }
        DBReport {
            name: self.info_name.clone(),
            description: self.info_description.clone(),
            version: self.info_version.clone(),
            extras,
            games: self.games.len(),
            roms: self.roms.len(),
            roms_in_games: self.game_roms.len(),
            samples: self.samples.len(),
            device_refs: self.devices.len(),
        }
    }

    /// How many content rows declare each digest column; the mask for
    /// scanners follows from these counts.
    pub fn file_check_counts(&self) -> (r: crate::files::FileCheckSearch)
        requires
            self.roms@.len() <= u32::MAX,
        ensures
            r.sha1 == count_present(self.roms@, 0),
            r.md5 == count_present(self.roms@, 1),
            r.crc == count_present(self.roms@, 2),
            (r.sha1 > 0) == exists|i: int|
                0 <= i < self.roms@.len() && col_present(#[trigger] self.roms@[i], 0),
            (r.md5 > 0) == exists|i: int|
                0 <= i < self.roms@.len() && col_present(#[trigger] self.roms@[i], 1),
            (r.crc > 0) == exists|i: int|
                0 <= i < self.roms@.len() && col_present(#[trigger] self.roms@[i], 2),
    {
        let mut sha1: u32 = 0;
        let mut md5: u32 = 0;
        let mut crc: u32 = 0;
        let n = self.roms.len();
        let mut i: usize = 0;
        while i < n
            invariant
                0 <= i <= n,
                n == self.roms@.len(),
                n <= u32::MAX,
                sha1 == count_present(self.roms@.take(i as int), 0),
                md5 == count_present(self.roms@.take(i as int), 1),
                crc == count_present(self.roms@.take(i as int), 2),
            decreases n - i,
        {
            let row = &self.roms[i];
            proof {
                let pre = self.roms@.take(i as int + 1);
                assert(pre.drop_last() =~= self.roms@.take(i as int));
                assert(pre.last() == self.roms@[i as int]);
                lemma_count_present_bound(self.roms@.take(i as int), 0);
                lemma_count_present_bound(self.roms@.take(i as int), 1);
                lemma_count_present_bound(self.roms@.take(i as int), 2);
                assert(self.roms@.take(i as int).len() == i as int);
            }
            if row.file.sha1.is_some() {
                sha1 = sha1 + 1;
            }
            if row.file.md5.is_some() {
                md5 = md5 + 1;
            }
            if row.file.crc.is_some() {
                crc = crc + 1;
            }
            i = i + 1;
        }
        proof {
            assert(self.roms@.take(n as int) =~= self.roms@);
            lemma_count_present_exists(self.roms@, 0);
            lemma_count_present_exists(self.roms@, 1);
            lemma_count_present_exists(self.roms@, 2);
        }
        crate::files::FileCheckSearch { sha1, md5, crc }
    }
}

/// Whether the table holds a row with this id.
fn has_id_row(roms: &Vec<RomRow>, id: u32) -> (r: bool)
    ensures
        r == has_rom_id(roms@, id),
{
    let n = roms.len();
    let mut found = false;
    let mut i: usize = 0;
    while i < n
        invariant
            0 <= i <= n,
            n == roms@.len(),
            found ==> has_rom_id(roms@, id),
            !found ==> forall|j: int| 0 <= j < i ==> (#[trigger] roms@[j]).id != id,
        decreases n - i,
    {
        if !found && roms[i].id == id {
            found = true;
        }
        i = i + 1;
    }
    found
}

/// Whether all ids in a content table are distinct and all content keys
/// are distinct.
fn rows_well_keyed(rows: &Vec<RomRow>) -> (r: bool)
    ensures
        r == (forall|i: int, j: int|
            0 <= i < j < rows@.len() ==> (#[trigger] rows@[i]).id != (#[trigger] rows@[j]).id
                && !same_rom(rows@[i].file@, rows@[j].file@)),
{
    let n = rows.len();
    let mut ok = true;
    let mut i: usize = 0;
    while i < n
        invariant
            0 <= i <= n,
            n == rows@.len(),
            ok == (forall|x: int, y: int|
                0 <= x < y < rows@.len() && x < i ==> (#[trigger] rows@[x]).id != (
                #[trigger] rows@[y]).id && !same_rom(rows@[x].file@, rows@[y].file@)),
        decreases n - i,
    {
        let ghost ok_outer = ok;
        let mut j: usize = i + 1;
        while j < n
            invariant
                i < j <= n || (i + 1 == j && j > n),
                i < n,
                n == rows@.len(),
                ok == (ok_outer && (forall|y: int|
                    i < y < j ==> (#[trigger] rows@[y]).id != rows@[i as int].id && !same_rom(
                        rows@[i as int].file@,
                        rows@[y].file@,
                    ))),
            decreases n - j,
        {
            if ok && (rows[j].id == rows[i].id || rows[i].file.same_rom_as(&rows[j].file)) {
                ok = false;
            }
            j = j + 1;
        }
        proof {
            assert(ok == (forall|x: int, y: int|
                0 <= x < y < rows@.len() && x < i + 1 ==> (#[trigger] rows@[x]).id != (
                #[trigger] rows@[y]).id && !same_rom(rows@[x].file@, rows@[y].file@))) by {
                if ok {
                    assert forall|x: int, y: int|
                        0 <= x < y < rows@.len() && x < i + 1 implies (#[trigger] rows@[x]).id != (
                    #[trigger] rows@[y]).id && !same_rom(rows@[x].file@, rows@[y].file@) by {
                        if x == i {
                            assert(rows@[y].id != rows@[i as int].id && !same_rom(
                                rows@[i as int].file@,
                                rows@[y].file@,
                            ));
                        }
                    }
                }
            }
        }
        i = i + 1;
    }
    ok
}

/// Whether all game names in the table are distinct.
fn games_well_named(games: &Vec<Game>) -> (r: bool)
    ensures
        r == (forall|i: int, j: int|
            0 <= i < j < games@.len() ==> (#[trigger] games@[i]).name@ != (
            #[trigger] games@[j]).name@),
{
    let n = games.len();
    let mut ok = true;
    let mut i: usize = 0;
    while i < n
        invariant
            0 <= i <= n,
            n == games@.len(),
            ok == (forall|x: int, y: int|
                0 <= x < y < games@.len() && x < i ==> (#[trigger] games@[x]).name@ != (
                #[trigger] games@[y]).name@),
        decreases n - i,
    {
        let ghost ok_outer = ok;
        let mut j: usize = i + 1;
        while j < n
            invariant
                i < j <= n || (i + 1 == j && j > n),
                i < n,
                n == games@.len(),
                ok == (ok_outer && (forall|y: int|
                    i < y < j ==> (#[trigger] games@[y]).name@ != games@[i as int].name@)),
            decreases n - j,
        {
            if ok && crate::files::string_eq(&games[j].name, &games[i].name) {
                ok = false;
            }
            j = j + 1;
        }
        proof {
            assert(ok == (forall|x: int, y: int|
                0 <= x < y < games@.len() && x < i + 1 ==> (#[trigger] games@[x]).name@ != (
                #[trigger] games@[y]).name@)) by {
                if ok {
                    assert forall|x: int, y: int|
                        0 <= x < y < games@.len() && x < i + 1 implies (#[trigger] games@[x]).name@
                        != (#[trigger] games@[y]).name@ by {
                        if x == i {
                            assert(games@[y].name@ != games@[i as int].name@);
                        }
                    }
                }
            }
        }
        i = i + 1;
    }
    ok
}

/// Whether every membership row's content id is in the content table.
fn membership_resolved(rows: &Vec<GameRom>, roms: &Vec<RomRow>) -> (r: bool)
    ensures
        r == (forall|i: int|
            0 <= i < rows@.len() ==> has_rom_id(roms@, (#[trigger] rows@[i]).rom_id)),
{
    let n = rows.len();
    let mut ok = true;
    let mut i: usize = 0;
    while i < n
        invariant
            0 <= i <= n,
            n == rows@.len(),
            ok == (forall|x: int|
                0 <= x < i ==> has_rom_id(roms@, (#[trigger] rows@[x]).rom_id)),
        decreases n - i,
    {
        if ok && !has_id_row(roms, rows[i].rom_id) {
            ok = false;
        }
        i = i + 1;
    }
    ok
}

/// The games whose `clone_of` names the given parent, in table order.
pub open spec fn children_spec(games: Seq<Game>, name: Seq<char>) -> Seq<Game>
    decreases games.len(),
{
    if games.len() == 0 {
        Seq::empty()
    } else {
        let prev = children_spec(games.drop_last(), name);
        if crate::files::opt_str_view(games.last().clone_of) == Option::Some(name) {
            prev.push(games.last())
        } else {
            prev
        }
    }
}

/// The device references recorded for the named game, in table order.
pub open spec fn devices_spec(devices: Seq<DeviceRow>, name: Seq<char>) -> Seq<String>
    decreases devices.len(),
{
    if devices.len() == 0 {
        Seq::empty()
    } else {
        let prev = devices_spec(devices.drop_last(), name);
        if devices.last().game@ == name {
            prev.push(devices.last().device_ref)
        } else {
            prev
        }
    }
}

/// How many rows declare the digest column picked by `col` (0 for SHA1,
/// 1 for MD5, anything else for CRC).
pub open spec fn count_present(roms: Seq<RomRow>, col: int) -> int
    decreases roms.len(),
{
    if roms.len() == 0 {
        0
    } else {
        count_present(roms.drop_last(), col) + if col_present(roms.last(), col) {
            1int
        } else {
            0int
        }
    }
}

/// Whether one row declares the digest column picked by `col`.
pub open spec fn col_present(row: RomRow, col: int) -> bool {
    if col == 0 {
        row.file.sha1 is Some
    } else if col == 1 {
        row.file.md5 is Some
    } else {
        row.file.crc is Some
    }
}

/// The count never exceeds the row count.
pub proof fn lemma_count_present_bound(roms: Seq<RomRow>, col: int)
    ensures
        0 <= count_present(roms, col) <= roms.len(),
    decreases roms.len(),
{
    if roms.len() > 0 {
        lemma_count_present_bound(roms.drop_last(), col);
    }
}

/// The count is positive exactly when some row declares the column.
pub proof fn lemma_count_present_exists(roms: Seq<RomRow>, col: int)
    ensures
        (count_present(roms, col) > 0) == exists|i: int|
            0 <= i < roms.len() && col_present(#[trigger] roms[i], col),
    decreases roms.len(),
{
    lemma_count_present_bound(roms, col);
    if roms.len() > 0 {
        let s = roms.drop_last();
        lemma_count_present_exists(s, col);
        lemma_count_present_bound(s, col);
        if col_present(roms.last(), col) {
            assert(col_present(roms[roms.len() - 1], col));
        } else {
            assert(count_present(roms, col) == count_present(s, col));
            if count_present(roms, col) > 0 {
                let i = choose|i: int| 0 <= i < s.len() && col_present(#[trigger] s[i], col);
                assert(col_present(roms[i], col));
            }
            if exists|i: int| 0 <= i < roms.len() && col_present(#[trigger] roms[i], col) {
                let i = choose|i: int| 0 <= i < roms.len() && col_present(#[trigger] roms[i], col);
                assert(i != roms.len() - 1);
                assert(col_present(s[i], col));
            }
        }
    }
}

} // verus!
