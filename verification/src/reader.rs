//! The query engine over a finished index: game lookup, romset
//! materialization under the three combining modes, and content-based
//! reverse search.

use vstd::prelude::*;
use crate::files::{file_eq, DataFile, DataFileV, FileChecks, FileCheckSearch};
use crate::models::{Game, GameSet, RomsetMode, RomstError};
use crate::store::{lookup_spec, GameRom, Index};

verus! {

/// Whether the list holds an entry equal (by content key and name) to `f`.
pub open spec fn files_has(files: Seq<DataFile>, f: DataFileV) -> bool {
    exists|j: int| 0 <= j < files.len() && file_eq((#[trigger] files[j])@, f)
}

/// Pushing an entry adds exactly that entry's reading.
pub proof fn lemma_files_has_push(files: Seq<DataFile>, x: DataFile, f: DataFileV)
    ensures
        files_has(files.push(x), f) == (files_has(files, f) || file_eq(x@, f)),
{
    let pushed = files.push(x);
    if files_has(pushed, f) {
        let j = choose|j: int| 0 <= j < pushed.len() && file_eq((#[trigger] pushed[j])@, f);
        if j < files.len() {
            assert(file_eq(files[j]@, f));
        }
    }
    if files_has(files, f) {
        let j = choose|j: int| 0 <= j < files.len() && file_eq((#[trigger] files[j])@, f);
        assert(file_eq(pushed[j]@, f));
    }
    if file_eq(x@, f) {
        assert(file_eq(pushed[files.len() as int]@, f));
    }
}

/// Whether the result map holds `f` under the named set.
pub open spec fn results_has(
    results: Seq<(String, Vec<DataFile>)>,
    set: Seq<char>,
    f: DataFileV,
) -> bool {
    exists|i: int|
        0 <= i < results.len() && (#[trigger] results[i]).0@ == set && files_has(results[i].1@, f)
}

/// Appending one set entry extends the map by exactly that set's files.
pub proof fn lemma_results_has_push(
    results: Seq<(String, Vec<DataFile>)>,
    x: (String, Vec<DataFile>),
    set: Seq<char>,
    f: DataFileV,
)
    ensures
        results_has(results.push(x), set, f) == (results_has(results, set, f) || (x.0@ == set
            && files_has(x.1@, f))),
{
    let pushed = results.push(x);
    if results_has(pushed, set, f) {
        let i = choose|i: int|
            0 <= i < pushed.len() && (#[trigger] pushed[i]).0@ == set && files_has(pushed[i].1@, f);
        if i < results.len() {
            assert(results[i].0@ == set && files_has(results[i].1@, f));
        }
    }
    if results_has(results, set, f) {
        let i = choose|i: int|
            0 <= i < results.len() && (#[trigger] results[i]).0@ == set && files_has(
                results[i].1@,
                f,
            );
        assert(pushed[i].0@ == set && files_has(pushed[i].1@, f));
    }
    if x.0@ == set && files_has(x.1@, f) {
        assert(pushed[results.len() as int].0@ == set && files_has(
            pushed[results.len() as int].1@,
            f,
        ));
    }
}

/// The aggregate a reverse search builds: per set, the matched entries (a
/// set in the mathematical sense: no entry is listed twice), plus the
/// observed files that matched no known content.
pub struct RomSearch {
    pub set_results: Vec<(String, Vec<DataFile>)>,
    pub unknowns: Vec<DataFile>,
}

impl RomSearch {
    /// Set names appear at most once in the result map.
    pub open spec fn sets_unique(self) -> bool {
        forall|i: int, j: int|
            0 <= i < j < self.set_results@.len() ==> (#[trigger] self.set_results@[i]).0@ != (
            #[trigger] self.set_results@[j]).0@
    }

    /// No set's file list holds two equal entries: each list is a set in
    /// the mathematical sense.
    pub open spec fn files_unique(self) -> bool {
        forall|i: int, a: int, b: int|
            0 <= i < self.set_results@.len() && 0 <= a < b < self.set_results@[i].1@.len()
                ==> !file_eq(
                (#[trigger] self.set_results@[i].1@[a])@,
                (#[trigger] self.set_results@[i].1@[b])@,
            )
    }

    /// An empty result.
    pub fn new() -> (r: RomSearch)
        ensures
            r.set_results@.len() == 0,
            r.unknowns@.len() == 0,
            r.sets_unique(),
            r.files_unique(),
    {
        RomSearch { set_results: Vec::new(), unknowns: Vec::new() }
    }

    /// Files the named set holds in this result, if any entry names it.
    pub fn files_for_set(&self, set_name: &String) -> (r: Option<&Vec<DataFile>>)
        ensures
            r matches Option::Some(files) ==> exists|i: int|
                0 <= i < self.set_results@.len() && (#[trigger] self.set_results@[i]).0@
                    == set_name@ && self.set_results@[i].1 == *files,
            r is None ==> forall|i: int|
                0 <= i < self.set_results@.len() ==> (#[trigger] self.set_results@[i]).0@
                    != set_name@,
    {
        let n = self.set_results.len();
        let mut i: usize = 0;
        while i < n
            invariant
                0 <= i <= n,
                n == self.set_results@.len(),
                forall|j: int|
                    0 <= j < i ==> (#[trigger] self.set_results@[j]).0@ != set_name@,
            decreases n - i,
        {
            if crate::files::string_eq(&self.set_results[i].0, set_name) {
                return Option::Some(&self.set_results[i].1);
            }
            i = i + 1;
        }
        Option::None
    }

    /// Records that the named set holds this entry. The entry joins the
    /// set's files unless an equal one (same content key and name) is
    /// already there; a set not yet in the map gets a fresh entry.
    pub fn add_file_for_set(&mut self, set_name: String, file: DataFile)
        requires
            old(self).sets_unique(),
            old(self).files_unique(),
        ensures
            final (self).sets_unique(),
            final (self).files_unique(),
            forall|set: Seq<char>, f: DataFileV|
                #[trigger] results_has(final (self).set_results@, set, f) == (results_has(
                    old(self).set_results@,
                    set,
                    f,
                ) || (set == set_name@ && file_eq(file@, f))),
            final (self).unknowns == old(self).unknowns,
            final (self).set_results@.len() >= old(self).set_results@.len(),
    {
        let n = self.set_results.len();
        let mut pos: Option<usize> = Option::None;
        let mut i: usize = 0;
        while i < n
            invariant
                0 <= i <= n,
                n == self.set_results@.len(),
                pos is None ==> forall|j: int|
                    0 <= j < i ==> (#[trigger] self.set_results@[j]).0@ != set_name@,
                pos matches Option::Some(p) ==> 0 <= p < n && self.set_results@[p as int].0@
                    == set_name@,
            decreases n - i,
        {
            if pos.is_none() && crate::files::string_eq(&self.set_results[i].0, &set_name) {
                pos = Option::Some(i);
            }
            i = i + 1;
        }
        match pos {
            Option::Some(p) => {
                let ghost old_self = *self;
                let ghost inner0 = self.set_results@[p as int].1@;
                let m = self.set_results[p].1.len();
                let mut found = false;
                let mut t: usize = 0;
                while t < m
                    invariant
                        0 <= t <= m,
                        0 <= p < self.set_results@.len(),
                        self.set_results@[p as int].1@ == inner0,
                        m == inner0.len(),
                        found ==> files_has(inner0, file@),
                        !found ==> forall|j: int|
                            0 <= j < t ==> !file_eq((#[trigger] inner0[j])@, file@),
                    decreases m - t,
                {
                    if !found && self.set_results[p].1[t].same_file(&file) {
                        found = true;
                    }
                    t = t + 1;
                }
                if !found {
                    self.set_results[p].1.push(file);
                    proof {
                        assert(self.set_results@[p as int].1@ =~= inner0.push(file));
                    }
                }
                proof {
                    assert forall|i: int, a: int, b: int|
                        0 <= i < self.set_results@.len() && 0 <= a < b
                            < self.set_results@[i].1@.len() implies !file_eq(
                        (#[trigger] self.set_results@[i].1@[a])@,
                        (#[trigger] self.set_results@[i].1@[b])@,
                    ) by {
                        if i != p {
                            assert(self.set_results@[i] == old_self.set_results@[i]);
                            assert(!file_eq(
                                old_self.set_results@[i].1@[a]@,
                                old_self.set_results@[i].1@[b]@,
                            ));
                        } else {
                            if found {
                                assert(self.set_results@[p as int].1@ == inner0);
                                assert(!file_eq(
                                    old_self.set_results@[p as int].1@[a]@,
                                    old_self.set_results@[p as int].1@[b]@,
                                ));
                            } else {
                                if b < inner0.len() {
                                    assert(self.set_results@[p as int].1@[a] == inner0[a]);
                                    assert(self.set_results@[p as int].1@[b] == inner0[b]);
                                    assert(!file_eq(
                                        old_self.set_results@[p as int].1@[a]@,
                                        old_self.set_results@[p as int].1@[b]@,
                                    ));
                                } else {
                                    assert(self.set_results@[p as int].1@[a] == inner0[a]);
                                    assert(self.set_results@[p as int].1@[b] == file);
                                    assert(!file_eq(inner0[a]@, file@));
                                }
                            }
                        }
                    }
                }
                proof {
                    assert forall|set: Seq<char>, f: DataFileV|
                        #[trigger] results_has(self.set_results@, set, f) == (results_has(
                            old_self.set_results@,
                            set,
                            f,
                        ) || (set == set_name@ && file_eq(file@, f))) by {
                        lemma_files_has_push(inner0, file, f);
                        if results_has(self.set_results@, set, f) {
                            let i0 = choose|i0: int|
                                0 <= i0 < self.set_results@.len() && (
                                #[trigger] self.set_results@[i0]).0@ == set && files_has(
                                    self.set_results@[i0].1@,
                                    f,
                                );
                            if i0 != p {
                                assert(old_self.set_results@[i0] == self.set_results@[i0]);
                                assert(results_has(old_self.set_results@, set, f));
                            } else {
                                if files_has(inner0, f) {
                                    assert(results_has(old_self.set_results@, set, f));
                                } else {
                                    assert(file_eq(file@, f));
                                }
                            }
                        }
                        if results_has(old_self.set_results@, set, f) {
                            let i0 = choose|i0: int|
                                0 <= i0 < old_self.set_results@.len() && (
                                #[trigger] old_self.set_results@[i0]).0@ == set && files_has(
                                    old_self.set_results@[i0].1@,
                                    f,
                                );
                            if i0 != p {
                                assert(self.set_results@[i0] == old_self.set_results@[i0]);
                                assert(results_has(self.set_results@, set, f));
                            } else {
                                assert(files_has(self.set_results@[p as int].1@, f));
                                assert(results_has(self.set_results@, set, f));
                            }
                        }
                        if set == set_name@ && file_eq(file@, f) {
                            if found {
                                assert(file_eq(file@, file@));
                                assert(files_has(inner0, file@));
                                let j = choose|j: int|
                                    0 <= j < inner0.len() && file_eq((#[trigger] inner0[j])@, file@);
                                assert(file_eq(inner0[j]@, f));
                                assert(files_has(self.set_results@[p as int].1@, f));
                            } else {
                                assert(files_has(self.set_results@[p as int].1@, f));
                            }
                            assert(results_has(self.set_results@, set, f));
                        }
                    }
                }
            },
            Option::None => {
                let ghost old_self = *self;
                let mut inner: Vec<DataFile> = Vec::new();
                inner.push(file);
                self.set_results.push((set_name, inner));
                proof {
                    let pushed = self.set_results@;
                    let last = pushed.len() - 1;
                    assert(pushed[last].0@ == set_name@);
                    assert forall|set: Seq<char>, f: DataFileV|
                        #[trigger] results_has(pushed, set, f) == (results_has(
                            old_self.set_results@,
                            set,
                            f,
                        ) || (set == set_name@ && file_eq(file@, f))) by {
                        lemma_results_has_push(old_self.set_results@, pushed[last], set, f);
                        assert(pushed =~= old_self.set_results@.push(pushed[last]));
                        assert(pushed[last].1@ =~= Seq::<DataFile>::empty().push(file));
                        lemma_files_has_push(Seq::<DataFile>::empty(), file, f);
                        assert(!files_has(Seq::<DataFile>::empty(), f));
                    }
                    assert forall|a: int, b: int|
                        0 <= a < b < pushed.len() implies (#[trigger] pushed[a]).0@ != (
                    #[trigger] pushed[b]).0@ by {
                        if b == last {
                            assert(pushed[a] == old_self.set_results@[a]);
                            assert(old_self.set_results@[a].0@ != set_name@);
                        } else {
                            assert(pushed[a] == old_self.set_results@[a]);
                            assert(pushed[b] == old_self.set_results@[b]);
                        }
                    }
                    assert forall|i: int, a: int, b: int|
                        0 <= i < pushed.len() && 0 <= a < b < pushed[i].1@.len() implies !file_eq(
                        (#[trigger] pushed[i].1@[a])@,
                        (#[trigger] pushed[i].1@[b])@,
                    ) by {
                        if i < last {
                            assert(pushed[i] == old_self.set_results@[i]);
                            assert(!file_eq(
                                old_self.set_results@[i].1@[a]@,
                                old_self.set_results@[i].1@[b]@,
                            ));
                        } else {
                            assert(pushed[last].1@.len() == 1);
                        }
                    }
                }
            },
        }
    }

    /// Records an observed file that matched no known content.
    pub fn add_file_unknown(&mut self, file: DataFile)
        ensures
            final (self).unknowns@ == old(self).unknowns@.push(file),
            final (self).set_results == old(self).set_results,
    {
        self.unknowns.push(file);
    }
}

/// The membership rows of one game, in table order.
pub open spec fn own_rows(rows: Seq<GameRom>, game: Seq<char>) -> Seq<GameRom>
    decreases rows.len(),
{
    if rows.len() == 0 {
        Seq::empty()
    } else {
        let prev = own_rows(rows.drop_last(), game);
        if rows.last().game@ == game {
            prev.push(rows.last())
        } else {
            prev
        }
    }
}

/// The membership rows of one game that carry no parent link: the ROMs
/// unique to the game.
pub open spec fn split_rows(rows: Seq<GameRom>, game: Seq<char>) -> Seq<GameRom>
    decreases rows.len(),
{
    if rows.len() == 0 {
        Seq::empty()
    } else {
        let prev = split_rows(rows.drop_last(), game);
        if rows.last().game@ == game && rows.last().parent is None {
            prev.push(rows.last())
        } else {
            prev
        }
    }
}

/// The own rows of every listed clone, clone after clone.
pub open spec fn clones_rows(rows: Seq<GameRom>, children: Seq<Game>) -> Seq<GameRom>
    decreases children.len(),
{
    if children.len() == 0 {
        Seq::empty()
    } else {
        clones_rows(rows, children.drop_last()) + own_rows(rows, children.last().name@)
    }
}

/// A merged set's rows: the game's own rows plus every direct clone's rows.
pub open spec fn merged_rows(idx: Index, game: Seq<char>) -> Seq<GameRom> {
    own_rows(idx.game_roms@, game) + clones_rows(
        idx.game_roms@,
        crate::store::children_spec(idx.games@, game),
    )
}

/// The parent a game inherits ROMs from: its `clone_of`, or failing that
/// its `rom_of`; looked up on the first game of that name.
pub open spec fn parent_of(games: Seq<Game>, name: Seq<char>) -> Option<Seq<char>>
    decreases games.len(),
{
    if games.len() == 0 {
        Option::None
    } else if games[0].name@ == name {
        match crate::files::opt_str_view(games[0].clone_of) {
            Option::Some(p) => Option::Some(p),
            Option::None => crate::files::opt_str_view(games[0].rom_of),
        }
    } else {
        parent_of(games.drop_first(), name)
    }
}

/// With unique game names, [`parent_of`] reads the edges of whichever row
/// holds the name.
pub proof fn lemma_parent_of_at(games: Seq<Game>, name: Seq<char>, i: int)
    requires
        forall|x: int, y: int|
            0 <= x < y < games.len() ==> (#[trigger] games[x]).name@ != (#[trigger] games[y]).name@,
        0 <= i < games.len(),
        games[i].name@ == name,
    ensures
        parent_of(games, name) == (match crate::files::opt_str_view(games[i].clone_of) {
            Option::Some(p) => Option::Some(p),
            Option::None => crate::files::opt_str_view(games[i].rom_of),
        }),
    decreases games.len(),
{
    if i > 0 {
        assert(games[0].name@ != name);
        let rest = games.drop_first();
        assert forall|x: int, y: int|
            0 <= x < y < rest.len() implies (#[trigger] rest[x]).name@ != (
        #[trigger] rest[y]).name@ by {
            assert(rest[x] == games[x + 1] && rest[y] == games[y + 1]);
        }
        assert(rest[i - 1] == games[i]);
        lemma_parent_of_at(rest, name, i - 1);
    }
}

/// When no game carries the name, [`parent_of`] finds nothing.
pub proof fn lemma_parent_of_absent(games: Seq<Game>, name: Seq<char>)
    requires
        forall|x: int| 0 <= x < games.len() ==> (#[trigger] games[x]).name@ != name,
    ensures
        parent_of(games, name) is None,
    decreases games.len(),
{
    if games.len() > 0 {
        let rest = games.drop_first();
        assert forall|x: int| 0 <= x < rest.len() implies (#[trigger] rest[x]).name@ != name by {
            assert(rest[x] == games[x + 1]);
        }
        lemma_parent_of_absent(rest, name);
    }
}

/// A non-merged set's rows, bounded by `fuel`: the game's unique rows
/// followed by everything it inherits, names as the source rows carry them.
pub open spec fn nonmerged_rows(idx: Index, game: Seq<char>, fuel: nat) -> Seq<GameRom>
    decreases fuel, 1int, 0int,
{
    split_rows(idx.game_roms@, game) + inherited_rows(idx, game, fuel)
}

/// What a game inherits under the non-merged mode: its inherit-parent's
/// non-merged rows, then those of each device game it references.
pub open spec fn inherited_rows(idx: Index, game: Seq<char>, fuel: nat) -> Seq<GameRom>
    decreases fuel, 0int, 0int,
{
    if fuel == 0 {
        Seq::empty()
    } else {
        (match parent_of(idx.games@, game) {
            Option::Some(p) => nonmerged_rows(idx, p, (fuel - 1) as nat),
            Option::None => Seq::empty(),
        }) + devices_nm_rows(
            idx,
            crate::store::devices_spec(idx.devices@, game),
            (fuel - 1) as nat,
        )
    }
}

/// The non-merged rows of each listed device game, in order.
pub open spec fn devices_nm_rows(idx: Index, devs: Seq<String>, fuel: nat) -> Seq<GameRom>
    decreases fuel, 2int, devs.len(),
{
    if devs.len() == 0 {
        Seq::empty()
    } else {
        devices_nm_rows(idx, devs.drop_last(), fuel) + nonmerged_rows(idx, devs.last()@, fuel)
    }
}

/// The first local name this game's own membership gives the content id,
/// if it gives one at all.
pub open spec fn local_name_for(rows: Seq<GameRom>, game: Seq<char>, id: u32) -> Option<String>
    decreases rows.len(),
{
    if rows.len() == 0 {
        Option::None
    } else if rows[0].game@ == game && rows[0].rom_id == id {
        Option::Some(rows[0].name)
    } else {
        local_name_for(rows.drop_first(), game, id)
    }
}

/// An inherited row as the querying game presents it: renamed to the game's
/// own membership-supplied local name where one exists, else unchanged.
pub open spec fn rename_row(table: Seq<GameRom>, game: Seq<char>, r: GameRom) -> GameRom {
    match local_name_for(table, game, r.rom_id) {
        Option::Some(nm) => GameRom { name: nm, ..r },
        Option::None => r,
    }
}

/// [`rename_row`] applied pointwise.
pub open spec fn rename_rows(rows: Seq<GameRom>, table: Seq<GameRom>, game: Seq<char>) -> Seq<
    GameRom,
>
    decreases rows.len(),
{
    if rows.len() == 0 {
        Seq::empty()
    } else {
        rename_rows(rows.drop_last(), table, game).push(rename_row(table, game, rows.last()))
    }
}

/// [`rename_rows`] maps the rows pointwise, changing only names.
pub proof fn lemma_rename_rows_pointwise(rows: Seq<GameRom>, table: Seq<GameRom>, game: Seq<char>)
    ensures
        rename_rows(rows, table, game).len() == rows.len(),
        forall|i: int|
            0 <= i < rows.len() ==> #[trigger] rename_rows(rows, table, game)[i] == rename_row(
                table,
                game,
                rows[i],
            ),
    decreases rows.len(),
{
    if rows.len() > 0 {
        lemma_rename_rows_pointwise(rows.drop_last(), table, game);
        assert forall|i: int| 0 <= i < rows.len() implies #[trigger] rename_rows(
            rows,
            table,
            game,
        )[i] == rename_row(table, game, rows[i]) by {
            if i < rows.len() - 1 {
                assert(rows.drop_last()[i] == rows[i]);
            }
        }
    }
}

/// A non-merged set as handed out: the game's unique rows under their own
/// names, then the inherited rows, each renamed to the game's
/// membership-supplied local name where one exists.
pub open spec fn nonmerged_named_rows(idx: Index, game: Seq<char>, fuel: nat) -> Seq<GameRom> {
    split_rows(idx.game_roms@, game) + rename_rows(
        inherited_rows(idx, game, fuel),
        idx.game_roms@,
        game,
    )
}

/// The rows a set contains under the chosen mode. Non-merged resolution is
/// bounded by one more than the number of games, which covers any acyclic
/// parent chain.
pub open spec fn mode_rows(idx: Index, game: Seq<char>, mode: RomsetMode) -> Seq<GameRom> {
    match mode {
        RomsetMode::Split => split_rows(idx.game_roms@, game),
        RomsetMode::Merged => merged_rows(idx, game),
        RomsetMode::NonMerged => nonmerged_named_rows(idx, game, (idx.games@.len() + 1) as nat),
    }
}

/// The entry a membership row denotes: the stored content entry under the
/// row's local name.
pub open spec fn row_file(idx: Index, row: GameRom) -> DataFileV {
    DataFileV {
        name: row.name@,
        ..crate::store::rom_by_id_spec(idx.roms@, row.rom_id)->0@
    }
}

/// A copy of a membership row, field for field.
fn dup_row(r: &GameRom) -> (d: GameRom)
    ensures
        d == *r,
{
    GameRom {
        game: r.game.clone(),
        rom_id: r.rom_id,
        name: r.name.clone(),
        parent: crate::files::opt_string_clone(&r.parent),
    }
}

/// Whether the table holds this very row.
pub open spec fn row_in_table(all: Seq<GameRom>, r: GameRom) -> bool {
    exists|i: int| 0 <= i < all.len() && all[i] == r
}

/// Every row of a sequence built by these collectors sits in the table.
pub open spec fn rows_sub(sub: Seq<GameRom>, all: Seq<GameRom>) -> bool {
    forall|k: int| 0 <= k < sub.len() ==> row_in_table(all, #[trigger] sub[k])
}

/// [`own_rows`] only picks table rows.
pub proof fn lemma_own_rows_sub(rows: Seq<GameRom>, game: Seq<char>)
    ensures
        rows_sub(own_rows(rows, game), rows),
    decreases rows.len(),
{
    if rows.len() > 0 {
        let rest = rows.drop_last();
        lemma_own_rows_sub(rest, game);
        let sub = own_rows(rows, game);
        assert forall|k: int| 0 <= k < sub.len() implies row_in_table(rows, #[trigger] sub[k]) by {
            let prev = own_rows(rest, game);
            if k < prev.len() {
                assert(row_in_table(rest, prev[k]));
                let i = choose|i: int| 0 <= i < rest.len() && rest[i] == prev[k];
                assert(rows[i] == sub[k]);
            } else {
                assert(rows[rows.len() - 1] == sub[k]);
            }
        }
    }
}

/// [`split_rows`] only picks table rows.
pub proof fn lemma_split_rows_sub(rows: Seq<GameRom>, game: Seq<char>)
    ensures
        rows_sub(split_rows(rows, game), rows),
    decreases rows.len(),
{
    if rows.len() > 0 {
        let rest = rows.drop_last();
        lemma_split_rows_sub(rest, game);
        let sub = split_rows(rows, game);
        assert forall|k: int| 0 <= k < sub.len() implies row_in_table(rows, #[trigger] sub[k]) by {
            let prev = split_rows(rest, game);
            if k < prev.len() {
                assert(row_in_table(rest, prev[k]));
                let i = choose|i: int| 0 <= i < rest.len() && rest[i] == prev[k];
                assert(rows[i] == sub[k]);
            } else {
                assert(rows[rows.len() - 1] == sub[k]);
            }
        }
    }
}

/// Joining two in-table sequences stays in the table.
pub proof fn lemma_rows_sub_concat(a: Seq<GameRom>, b: Seq<GameRom>, all: Seq<GameRom>)
    requires
        rows_sub(a, all),
        rows_sub(b, all),
    ensures
        rows_sub(a + b, all),
{
    assert forall|k: int| 0 <= k < (a + b).len() implies row_in_table(all, #[trigger] (a + b)[k]) by {
        let c = a + b;
        if k < a.len() {
            assert(c[k] == a[k]);
            assert(row_in_table(all, a[k]));
        } else {
            assert(c[k] == b[k - a.len()]);
            assert(row_in_table(all, b[k - a.len()]));
        }
    }
}

/// [`clones_rows`] only picks table rows.
pub proof fn lemma_clones_rows_sub(rows: Seq<GameRom>, children: Seq<Game>)
    ensures
        rows_sub(clones_rows(rows, children), rows),
    decreases children.len(),
{
    if children.len() == 0 {
    } else {
        lemma_clones_rows_sub(rows, children.drop_last());
        lemma_own_rows_sub(rows, children.last().name@);
        lemma_rows_sub_concat(
            clones_rows(rows, children.drop_last()),
            own_rows(rows, children.last().name@),
            rows,
        );
    }
}

/// [`nonmerged_rows`] only picks table rows.
pub proof fn lemma_nonmerged_rows_sub(idx: Index, game: Seq<char>, fuel: nat)
    ensures
        rows_sub(nonmerged_rows(idx, game, fuel), idx.game_roms@),
    decreases fuel, 1int, 0int,
{
    let rows = idx.game_roms@;
    lemma_split_rows_sub(rows, game);
    lemma_inherited_rows_sub(idx, game, fuel);
    lemma_rows_sub_concat(split_rows(rows, game), inherited_rows(idx, game, fuel), rows);
}

/// [`inherited_rows`] only picks table rows.
pub proof fn lemma_inherited_rows_sub(idx: Index, game: Seq<char>, fuel: nat)
    ensures
        rows_sub(inherited_rows(idx, game, fuel), idx.game_roms@),
    decreases fuel, 0int, 0int,
{
    let rows = idx.game_roms@;
    if fuel > 0 {
        let ppart = match parent_of(idx.games@, game) {
            Option::Some(p) => nonmerged_rows(idx, p, (fuel - 1) as nat),
            Option::None => Seq::<GameRom>::empty(),
        };
        match parent_of(idx.games@, game) {
            Option::Some(p) => {
                lemma_nonmerged_rows_sub(idx, p, (fuel - 1) as nat);
            },
            Option::None => {},
        }
        lemma_devices_nm_rows_sub(
            idx,
            crate::store::devices_spec(idx.devices@, game),
            (fuel - 1) as nat,
        );
        lemma_rows_sub_concat(
            ppart,
            devices_nm_rows(idx, crate::store::devices_spec(idx.devices@, game), (fuel - 1) as nat),
            rows,
        );
    }
}

/// [`devices_nm_rows`] only picks table rows.
pub proof fn lemma_devices_nm_rows_sub(idx: Index, devs: Seq<String>, fuel: nat)
    ensures
        rows_sub(devices_nm_rows(idx, devs, fuel), idx.game_roms@),
    decreases fuel, 2int, devs.len(),
{
    if devs.len() > 0 {
        lemma_devices_nm_rows_sub(idx, devs.drop_last(), fuel);
        lemma_nonmerged_rows_sub(idx, devs.last()@, fuel);
        lemma_rows_sub_concat(
            devices_nm_rows(idx, devs.drop_last(), fuel),
            nonmerged_rows(idx, devs.last()@, fuel),
            idx.game_roms@,
        );
    }
}

/// Every row that sits in the table resolves its content id, in a
/// well-formed index.
pub open spec fn rows_resolvable(rows: Seq<GameRom>, roms: Seq<crate::store::RomRow>) -> bool {
    forall|k: int|
        0 <= k < rows.len() ==> crate::store::has_rom_id(roms, (#[trigger] rows[k]).rom_id)
}

/// In-table rows resolve their content ids in a well-formed index.
pub proof fn lemma_rows_sub_resolvable(idx: Index, rows: Seq<GameRom>)
    requires
        idx.wf(),
        rows_sub(rows, idx.game_roms@),
    ensures
        rows_resolvable(rows, idx.roms@),
{
    assert forall|k: int| 0 <= k < rows.len() implies crate::store::has_rom_id(
        idx.roms@,
        (#[trigger] rows[k]).rom_id,
    ) by {
        assert(row_in_table(idx.game_roms@, rows[k]));
        let w = choose|w: int|
            0 <= w < idx.game_roms@.len() && idx.game_roms@[w] == rows[k];
        assert(crate::store::has_rom_id(idx.roms@, idx.game_roms@[w].rom_id));
    }
}

/// Renaming keeps every row's content id, so resolvability carries over.
pub proof fn lemma_rename_rows_resolvable(
    idx: Index,
    rows: Seq<GameRom>,
    table: Seq<GameRom>,
    game: Seq<char>,
)
    requires
        rows_resolvable(rows, idx.roms@),
    ensures
        rows_resolvable(rename_rows(rows, table, game), idx.roms@),
{
    lemma_rename_rows_pointwise(rows, table, game);
    let out = rename_rows(rows, table, game);
    assert forall|k: int| 0 <= k < out.len() implies crate::store::has_rom_id(
        idx.roms@,
        (#[trigger] out[k]).rom_id,
    ) by {
        assert(out[k] == rename_row(table, game, rows[k]));
        assert(out[k].rom_id == rows[k].rom_id);
        assert(crate::store::has_rom_id(idx.roms@, rows[k].rom_id));
    }
}

/// Collects one game's membership rows in table order; with `split_only`,
/// only those without a parent link.
fn collect_game_rows(idx: &Index, game: &String, split_only: bool) -> (r: Vec<GameRom>)
    ensures
        split_only ==> r@ == split_rows(idx.game_roms@, game@),
        !split_only ==> r@ == own_rows(idx.game_roms@, game@),
{
    let mut out: Vec<GameRom> = Vec::new();
    let n = idx.game_roms.len();
    let mut i: usize = 0;
    while i < n
        invariant
            0 <= i <= n,
            n == idx.game_roms@.len(),
            split_only ==> out@ == split_rows(idx.game_roms@.take(i as int), game@),
            !split_only ==> out@ == own_rows(idx.game_roms@.take(i as int), game@),
        decreases n - i,
    {
        proof {
            let pre = idx.game_roms@.take(i as int + 1);
            assert(pre.drop_last() =~= idx.game_roms@.take(i as int));
            assert(pre.last() == idx.game_roms@[i as int]);
        }
        let row = &idx.game_roms[i];
        let name_match = crate::files::string_eq(&row.game, game);
        let keep = if split_only {
            name_match && row.parent.is_none()
        } else {
            name_match
        };
        if keep {
            out.push(dup_row(row));
        }
        i = i + 1;
    }
    proof {
        assert(idx.game_roms@.take(n as int) =~= idx.game_roms@);
    }
    out
}

/// Collects a non-merged set's rows, following parents while fuel lasts;
/// names stay as the source rows carry them.
fn collect_nonmerged(idx: &Index, game: &String, fuel: usize) -> (r: Vec<GameRom>)
    requires
        idx.wf(),
    ensures
        r@ == nonmerged_rows(*idx, game@, fuel as nat),
    decreases fuel, 1int,
{
    let mut out = collect_game_rows(idx, game, true);
    let mut inherited = collect_inherited(idx, game, fuel);
    out.append(&mut inherited);
    proof {
        assert(out@ =~= nonmerged_rows(*idx, game@, fuel as nat));
    }
    out
}

/// Collects what a game inherits under the non-merged mode.
fn collect_inherited(idx: &Index, game: &String, fuel: usize) -> (r: Vec<GameRom>)
    requires
        idx.wf(),
    ensures
        r@ == inherited_rows(*idx, game@, fuel as nat),
    decreases fuel, 0int,
{
    let mut out: Vec<GameRom> = Vec::new();
    if fuel == 0 {
        proof {
            assert(out@ =~= inherited_rows(*idx, game@, fuel as nat));
        }
        return out;
    }
    let pos = idx.game_position(game);
    match pos {
        Option::Some(gi) => {
            proof {
                lemma_parent_of_at(idx.games@, game@, gi as int);
            }
            let parent = match &idx.games[gi].clone_of {
                Option::Some(p) => Option::Some(p.clone()),
                Option::None => crate::files::opt_string_clone(&idx.games[gi].rom_of),
            };
            match parent {
                Option::Some(p) => {
                    let mut prows = collect_nonmerged(idx, &p, fuel - 1);
                    out.append(&mut prows);
                },
                Option::None => {},
            }
        },
        Option::None => {
            proof {
                lemma_parent_of_absent(idx.games@, game@);
            }
        },
    }
    let ghost ppart = out@;
    let devs = idx.devices_of(game);
    let ghost devs_g = devs@;
    let m = devs.len();
    let mut k: usize = 0;
    proof {
        assert(devs_g.take(0) =~= Seq::<String>::empty());
        assert(out@ =~= ppart + devices_nm_rows(*idx, devs_g.take(0), (fuel - 1) as nat));
    }
    while k < m
        invariant
            idx.wf(),
            0 <= k <= m,
            m == devs_g.len(),
            devs@ == devs_g,
            fuel >= 1,
            out@ == ppart + devices_nm_rows(*idx, devs_g.take(k as int), (fuel - 1) as nat),
        decreases m - k,
    {
        proof {
            let pre = devs_g.take(k as int + 1);
            assert(pre.drop_last() =~= devs_g.take(k as int));
            assert(pre.last() == devs_g[k as int]);
        }
        let d = devs[k].clone();
        let mut drows = collect_nonmerged(idx, &d, fuel - 1);
        out.append(&mut drows);
        proof {
            assert(out@ =~= ppart + devices_nm_rows(*idx, devs_g.take(k as int + 1), (fuel
                - 1) as nat));
        }
        k = k + 1;
    }
    proof {
        assert(devs_g.take(m as int) =~= devs_g);
        assert(out@ =~= inherited_rows(*idx, game@, fuel as nat));
    }
    out
}

/// The first local name this game's own membership gives the content id.
fn local_name_lookup(table: &Vec<GameRom>, game: &String, id: u32) -> (r: Option<String>)
    ensures
        r == local_name_for(table@, game@, id),
{
    let n = table.len();
    let mut i: usize = 0;
    proof {
        assert(table@.skip(0) =~= table@);
    }
    while i < n
        invariant
            0 <= i <= n,
            n == table@.len(),
            local_name_for(table@, game@, id) == local_name_for(
                table@.skip(i as int),
                game@,
                id,
            ),
        decreases n - i,
    {
        proof {
            let cur = table@.skip(i as int);
            assert(cur[0] == table@[i as int]);
            assert(cur.drop_first() =~= table@.skip(i as int + 1));
        }
        let row = &table[i];
        if crate::files::string_eq(&row.game, game) && row.rom_id == id {
            return Option::Some(row.name.clone());
        }
        i = i + 1;
    }
    proof {
        assert(table@.skip(n as int) =~= Seq::<GameRom>::empty());
    }
    Option::None
}

/// Renames each inherited row to the querying game's membership-supplied
/// local name where one exists.
fn rename_inherited(idx: &Index, game: &String, rows: Vec<GameRom>) -> (r: Vec<GameRom>)
    ensures
        r@ == rename_rows(rows@, idx.game_roms@, game@),
{
    let mut out: Vec<GameRom> = Vec::new();
    let n = rows.len();
    let mut i: usize = 0;
    while i < n
        invariant
            0 <= i <= n,
            n == rows@.len(),
            out@ == rename_rows(rows@.take(i as int), idx.game_roms@, game@),
        decreases n - i,
    {
        proof {
            let pre = rows@.take(i as int + 1);
            assert(pre.drop_last() =~= rows@.take(i as int));
            assert(pre.last() == rows@[i as int]);
        }
        let row = &rows[i];
        let renamed = match local_name_lookup(&idx.game_roms, game, row.rom_id) {
            Option::Some(nm) => GameRom {
                game: row.game.clone(),
                rom_id: row.rom_id,
                name: nm,
                parent: crate::files::opt_string_clone(&row.parent),
            },
            Option::None => dup_row(row),
        };
        proof {
            assert(renamed == rename_row(idx.game_roms@, game@, rows@[i as int]));
        }
        out.push(renamed);
        i = i + 1;
    }
    proof {
        assert(rows@.take(n as int) =~= rows@);
    }
    out
}

/// Whether a membership row survives the mode's filter: the split mode
/// drops rows shared with a parent; the other modes keep every row.
pub open spec fn mode_keeps(row: GameRom, mode: RomsetMode) -> bool {
    mode is Split ==> row.parent is None
}

/// The stored entry behind a content id, as a view.
pub open spec fn stored_view(idx: Index, id: u32) -> DataFileV {
    crate::store::rom_by_id_spec(idx.roms@, id)->0@
}

/// What the reverse-lookup step contributes for one resolved content id,
/// looking at the first `bj` membership rows: the row's set maps to the
/// base entry renamed to the row's local name.
pub open spec fn id_match_upto(
    idx: Index,
    base: DataFileV,
    id: u32,
    mode: RomsetMode,
    exclude: Option<Seq<char>>,
    set: Seq<char>,
    f: DataFileV,
    bj: int,
) -> bool {
    exists|j: int|
        {
            &&& 0 <= j < bj && j < idx.game_roms@.len()
            &&& (#[trigger] idx.game_roms@[j]).rom_id == id
            &&& mode_keeps(idx.game_roms@[j], mode)
            &&& (match exclude {
                Option::Some(ex) => idx.game_roms@[j].game@ != ex,
                Option::None => true,
            })
            &&& idx.game_roms@[j].game@ == set
            &&& file_eq(f, DataFileV { name: idx.game_roms@[j].name@, ..base })
        }
}

/// The view of an optional excluded set name.
pub open spec fn exclude_view(e: Option<&String>) -> Option<Seq<char>> {
    match e {
        Option::Some(s) => Option::Some(s@),
        Option::None => Option::None,
    }
}

/// Walks every membership row holding the resolved id (surviving the mode
/// filter, skipping the excluded set if one is given) and records the base
/// entry, renamed to each row's local name, under each row's set.
fn add_matches_for_id(
    idx: &Index,
    search: &mut RomSearch,
    base: &DataFile,
    id: u32,
    mode: RomsetMode,
    exclude: Option<&String>,
)
    requires
        old(search).sets_unique(),
        old(search).files_unique(),
    ensures
        final (search).sets_unique(),
        final (search).files_unique(),
        final (search).unknowns == old(search).unknowns,
        forall|set: Seq<char>, f: DataFileV|
            #[trigger] results_has(final (search).set_results@, set, f) == (results_has(
                old(search).set_results@,
                set,
                f,
            ) || id_match_upto(
                *idx,
                base@,
                id,
                mode,
                exclude_view(exclude),
                set,
                f,
                idx.game_roms@.len() as int,
            )),
{
    let n = idx.game_roms.len();
    let mut j: usize = 0;
    while j < n
        invariant
            0 <= j <= n,
            n == idx.game_roms@.len(),
            search.sets_unique(),
            search.files_unique(),
            search.unknowns == old(search).unknowns,
            forall|set: Seq<char>, f: DataFileV|
                #[trigger] results_has(search.set_results@, set, f) == (results_has(
                    old(search).set_results@,
                    set,
                    f,
                ) || id_match_upto(
                    *idx,
                    base@,
                    id,
                    mode,
                    exclude_view(exclude),
                    set,
                    f,
                    j as int,
                )),
        decreases n - j,
    {
        let row = &idx.game_roms[j];
        let keeps = match mode {
            RomsetMode::Split => row.parent.is_none(),
            _ => true,
        };
        let excluded = match exclude {
            Option::Some(ex) => crate::files::string_eq(&row.game, ex),
            Option::None => false,
        };
        let ghost pre = search.set_results@;
        if row.rom_id == id && keeps && !excluded {
            let renamed = base.renamed(row.name.clone());
            search.add_file_for_set(row.game.clone(), renamed);
        }
        proof {
            assert forall|set: Seq<char>, f: DataFileV|
                #[trigger] results_has(search.set_results@, set, f) == (results_has(
                    old(search).set_results@,
                    set,
                    f,
                ) || id_match_upto(
                    *idx,
                    base@,
                    id,
                    mode,
                    exclude_view(exclude),
                    set,
                    f,
                    j as int + 1,
                )) by {
                let ex = exclude_view(exclude);
                let jrow = idx.game_roms@[j as int];
                let row_ok = jrow.rom_id == id && mode_keeps(jrow, mode) && (match ex {
                    Option::Some(e) => jrow.game@ != e,
                    Option::None => true,
                });
                if id_match_upto(*idx, base@, id, mode, ex, set, f, j as int + 1) {
                    let w = choose|w: int|
                        {
                            &&& 0 <= w < j as int + 1 && w < idx.game_roms@.len()
                            &&& (#[trigger] idx.game_roms@[w]).rom_id == id
                            &&& mode_keeps(idx.game_roms@[w], mode)
                            &&& (match ex {
                                Option::Some(e) => idx.game_roms@[w].game@ != e,
                                Option::None => true,
                            })
                            &&& idx.game_roms@[w].game@ == set
                            &&& file_eq(f, DataFileV { name: idx.game_roms@[w].name@, ..base@ })
                        };
                    if w < j as int {
                        assert(id_match_upto(*idx, base@, id, mode, ex, set, f, j as int));
                    }
                }
                if id_match_upto(*idx, base@, id, mode, ex, set, f, j as int) {
                    assert(id_match_upto(*idx, base@, id, mode, ex, set, f, j as int + 1));
                }
                if row_ok && jrow.game@ == set && file_eq(
                    f,
                    DataFileV { name: jrow.name@, ..base@ },
                ) {
                    assert(id_match_upto(*idx, base@, id, mode, ex, set, f, j as int + 1));
                }
            }
        }
        j = j + 1;
    }
}

/// A membership row of the queried game carrying the queried local name,
/// surviving the mode's filter: the starting point of a usage search.
pub open spec fn usage_source(
    idx: Index,
    game: Seq<char>,
    rom_name: Seq<char>,
    mode: RomsetMode,
    i: int,
) -> bool {
    &&& 0 <= i < idx.game_roms@.len()
    &&& idx.game_roms@[i].game@ == game
    &&& idx.game_roms@[i].name@ == rom_name
    &&& mode_keeps(idx.game_roms@[i], mode)
}

/// What a usage search finds, looking at the first `bi` rows as sources.
pub open spec fn usage_match_upto(
    idx: Index,
    game: Seq<char>,
    rom_name: Seq<char>,
    mode: RomsetMode,
    set: Seq<char>,
    f: DataFileV,
    bi: int,
) -> bool {
    exists|i: int|
        0 <= i < bi && usage_source(idx, game, rom_name, mode, i) && id_match_upto(
            idx,
            stored_view(idx, (#[trigger] idx.game_roms@[i]).rom_id),
            idx.game_roms@[i].rom_id,
            mode,
            Option::None,
            set,
            f,
            idx.game_roms@.len() as int,
        )
}

/// A membership row of the queried game surviving the mode's filter: the
/// starting point of a shared-ROM search.
pub open spec fn shared_source(idx: Index, game: Seq<char>, mode: RomsetMode, i: int) -> bool {
    &&& 0 <= i < idx.game_roms@.len()
    &&& idx.game_roms@[i].game@ == game
    &&& mode_keeps(idx.game_roms@[i], mode)
}

/// What a shared-ROM search finds, looking at the first `bi` rows as
/// sources: other sets holding the same content.
pub open spec fn shared_match_upto(
    idx: Index,
    game: Seq<char>,
    mode: RomsetMode,
    set: Seq<char>,
    f: DataFileV,
    bi: int,
) -> bool {
    exists|i: int|
        0 <= i < bi && shared_source(idx, game, mode, i) && id_match_upto(
            idx,
            stored_view(idx, (#[trigger] idx.game_roms@[i]).rom_id),
            idx.game_roms@[i].rom_id,
            mode,
            Option::Some(game),
            set,
            f,
            idx.game_roms@.len() as int,
        )
}

/// The digest mask a reader derives from its own content table: a column's
/// bit is set exactly when some row declares it.
pub open spec fn active_mask(idx: Index) -> FileChecks {
    FileChecks::from_flags_spec(
        crate::store::count_present(idx.roms@, 0) > 0,
        crate::store::count_present(idx.roms@, 1) > 0,
        crate::store::count_present(idx.roms@, 2) > 0,
    )
}

/// The observed files that resolve to no stored content under the mask, in
/// input order.
pub open spec fn unknowns_spec(idx: Index, files: Seq<DataFile>, mask: FileChecks) -> Seq<DataFile>
    decreases files.len(),
{
    if files.len() == 0 {
        Seq::empty()
    } else {
        let prev = unknowns_spec(idx, files.drop_last(), mask);
        if lookup_spec(idx.roms@, files.last()@, mask) is None {
            prev.push(files.last())
        } else {
            prev
        }
    }
}

/// What bucketing a bag of observed files finds, looking at the first `bk`
/// files: each file whose content resolves under the mask maps, renamed,
/// to every set using that content.
pub open spec fn from_roms_match_upto(
    idx: Index,
    files: Seq<DataFile>,
    mask: FileChecks,
    mode: RomsetMode,
    set: Seq<char>,
    f: DataFileV,
    bk: int,
) -> bool {
    exists|k: int|
        0 <= k < bk && k < files.len() && (match lookup_spec(
            idx.roms@,
            (#[trigger] files[k])@,
            mask,
        ) {
            Option::Some(id) => id_match_upto(
                idx,
                files[k]@,
                id,
                mode,
                Option::None,
                set,
                f,
                idx.game_roms@.len() as int,
            ),
            Option::None => false,
        })
}

/// The query layer over a finished index.
pub struct IndexReader {
    pub index: Index,
}

impl IndexReader {
    /// Opens a reader over the given index. Reading never changes the
    /// index, so any two readers over equal indexes answer alike.
    pub fn open(index: Index) -> (r: IndexReader)
        ensures
            r.index == index,
    {
        IndexReader { index }
    }

    /// A copy of the named game, if the index holds one.
    pub fn get_game(&self, game_name: &String) -> (r: Option<Game>)
        ensures
            r is Some <==> self.index.has_game(game_name@),
            r matches Option::Some(g) ==> exists|i: int|
                0 <= i < self.index.games@.len() && #[trigger] self.index.games@[i] == g && g.name@
                    == game_name@,
    {
        self.index.get_game(game_name)
    }

    /// The device references recorded for the named game.
    pub fn get_devices_for_game(&self, game_name: &String) -> (r: Vec<String>)
        ensures
            r@ == crate::store::devices_spec(self.index.devices@, game_name@),
    {
        self.index.devices_of(game_name)
    }

    /// Digest-column counts over the content table, for the scanner's mask.
    pub fn get_file_checks(&self) -> (r: FileCheckSearch)
        requires
            self.index.roms@.len() <= u32::MAX,
        ensures
            r.sha1 == crate::store::count_present(self.index.roms@, 0),
            r.md5 == crate::store::count_present(self.index.roms@, 1),
            r.crc == crate::store::count_present(self.index.roms@, 2),
            (r.sha1 > 0) == exists|i: int|
                0 <= i < self.index.roms@.len() && crate::store::col_present(
                    #[trigger] self.index.roms@[i],
                    0,
                ),
            (r.md5 > 0) == exists|i: int|
                0 <= i < self.index.roms@.len() && crate::store::col_present(
                    #[trigger] self.index.roms@[i],
                    1,
                ),
            (r.crc > 0) == exists|i: int|
                0 <= i < self.index.roms@.len() && crate::store::col_present(
                    #[trigger] self.index.roms@[i],
                    2,
                ),
    {
        self.index.file_check_counts()
    }

    /// Summary counts of the index.
    pub fn get_db_info(&self) -> (r: crate::store::DBReport)
        ensures
            r.games == self.index.games@.len(),
            r.roms == self.index.roms@.len(),
            r.roms_in_games == self.index.game_roms@.len(),
            r.samples == self.index.samples@.len(),
            r.device_refs == self.index.devices@.len(),
    {
        self.index.report()
    }

    /// The ROMs of the named set under the chosen mode: one entry per
    /// surviving membership row, carrying the stored digests under the
    /// row's local name.
    pub fn get_romset_roms(&self, game_name: &String, rom_mode: RomsetMode) -> (r: Vec<DataFile>)
        requires
            self.index.wf(),
            self.index.games@.len() < usize::MAX,
        ensures
            r@.len() == mode_rows(self.index, game_name@, rom_mode).len(),
            forall|i: int|
                0 <= i < r@.len() ==> (#[trigger] r@[i])@ == row_file(
                    self.index,
                    mode_rows(self.index, game_name@, rom_mode)[i],
                ),
    {
        let rows: Vec<GameRom> = match rom_mode {
            RomsetMode::Split => collect_game_rows(&self.index, game_name, true),
            RomsetMode::NonMerged => {
                let fuel = self.index.games.len() + 1;
                let mut own = collect_game_rows(&self.index, game_name, true);
                let inherited = collect_inherited(&self.index, game_name, fuel);
                let mut renamed = rename_inherited(&self.index, game_name, inherited);
                own.append(&mut renamed);
                proof {
                    assert(own@ =~= nonmerged_named_rows(
                        self.index,
                        game_name@,
                        fuel as nat,
                    ));
                }
                own
            },
            RomsetMode::Merged => {
                let mut out = collect_game_rows(&self.index, game_name, false);
                let children = self.index.children_of(game_name);
                let ghost ch_g = children@;
                let ghost base = out@;
                let m = children.len();
                let mut k: usize = 0;
                proof {
                    assert(ch_g.take(0) =~= Seq::<Game>::empty());
                    assert(out@ =~= base + clones_rows(self.index.game_roms@, ch_g.take(0)));
                }
                while k < m
                    invariant
                        0 <= k <= m,
                        m == ch_g.len(),
                        children@ == ch_g,
                        out@ == base + clones_rows(self.index.game_roms@, ch_g.take(k as int)),
                    decreases m - k,
                {
                    proof {
                        let pre = ch_g.take(k as int + 1);
                        assert(pre.drop_last() =~= ch_g.take(k as int));
                        assert(pre.last() == ch_g[k as int]);
                    }
                    let mut crows = collect_game_rows(&self.index, &children[k].name, false);
                    out.append(&mut crows);
                    proof {
                        assert(out@ =~= base + clones_rows(
                            self.index.game_roms@,
                            ch_g.take(k as int + 1),
                        ));
                    }
                    k = k + 1;
                }
                proof {
                    assert(ch_g.take(m as int) =~= ch_g);
                }
                out
            },
        };
        proof {
            match rom_mode {
                RomsetMode::Split => {
                    lemma_split_rows_sub(self.index.game_roms@, game_name@);
                    lemma_rows_sub_resolvable(
                        self.index,
                        split_rows(self.index.game_roms@, game_name@),
                    );
                },
                RomsetMode::NonMerged => {
                    let fuel = (self.index.games@.len() + 1) as nat;
                    let base = split_rows(self.index.game_roms@, game_name@);
                    let inh = inherited_rows(self.index, game_name@, fuel);
                    lemma_split_rows_sub(self.index.game_roms@, game_name@);
                    lemma_rows_sub_resolvable(self.index, base);
                    lemma_inherited_rows_sub(self.index, game_name@, fuel);
                    lemma_rows_sub_resolvable(self.index, inh);
                    lemma_rename_rows_resolvable(self.index, inh, self.index.game_roms@, game_name@);
                    let ren = rename_rows(inh, self.index.game_roms@, game_name@);
                    assert forall|k: int|
                        0 <= k < (base + ren).len() implies crate::store::has_rom_id(
                        self.index.roms@,
                        (#[trigger] (base + ren)[k]).rom_id,
                    ) by {
                        if k < base.len() {
                            assert((base + ren)[k] == base[k]);
                        } else {
                            assert((base + ren)[k] == ren[k - base.len()]);
                        }
                    }
                },
                RomsetMode::Merged => {
                    lemma_own_rows_sub(self.index.game_roms@, game_name@);
                    lemma_clones_rows_sub(
                        self.index.game_roms@,
                        crate::store::children_spec(self.index.games@, game_name@),
                    );
                    lemma_rows_sub_concat(
                        own_rows(self.index.game_roms@, game_name@),
                        clones_rows(
                            self.index.game_roms@,
                            crate::store::children_spec(self.index.games@, game_name@),
                        ),
                        self.index.game_roms@,
                    );
                    lemma_rows_sub_resolvable(self.index, merged_rows(self.index, game_name@));
                },
            }
            assert(rows@ == mode_rows(self.index, game_name@, rom_mode));
            assert(rows_resolvable(rows@, self.index.roms@));
        }
        let mut out: Vec<DataFile> = Vec::new();
        let n = rows.len();
        let mut i: usize = 0;
        while i < n
            invariant
                0 <= i <= n,
                n == rows@.len(),
                self.index.wf(),
                rows@ == mode_rows(self.index, game_name@, rom_mode),
                rows_resolvable(rows@, self.index.roms@),
                out@.len() == i,
                forall|j: int|
                    0 <= j < i ==> (#[trigger] out@[j])@ == row_file(self.index, rows@[j]),
            decreases n - i,
        {
            let row = &rows[i];
            proof {
                assert(crate::store::has_rom_id(self.index.roms@, rows@[i as int].rom_id));
                crate::store::lemma_rom_by_id_props(self.index.roms@, rows@[i as int].rom_id);
            }
            match self.index.rom_by_id(row.rom_id) {
                Option::Some(f) => {
                    let joined = f.renamed(row.name.clone());
                    out.push(joined);
                },
                Option::None => {
                    proof {
                        assert(false);
                    }
                },
            }
            i = i + 1;
        }
        out
    }

    /// Finds where the ROM content that `game_name` holds under `rom_name`
    /// is used: every set holding the same content (the queried game
    /// included), with the local name each one uses. Unknown game or ROM
    /// names match no row and give an empty result.
    pub fn find_rom_usage(&self, game_name: &String, rom_name: &String, rom_mode: RomsetMode) -> (r:
        RomSearch)
        requires
            self.index.wf(),
        ensures
            r.sets_unique(),
            r.files_unique(),
            r.unknowns@.len() == 0,
            forall|set: Seq<char>, f: DataFileV|
                #[trigger] results_has(r.set_results@, set, f) == usage_match_upto(
                    self.index,
                    game_name@,
                    rom_name@,
                    rom_mode,
                    set,
                    f,
                    self.index.game_roms@.len() as int,
                ),
    {
        let mut search = RomSearch::new();
        let n = self.index.game_roms.len();
        let mut i: usize = 0;
        while i < n
            invariant
                0 <= i <= n,
                n == self.index.game_roms@.len(),
                self.index.wf(),
                search.sets_unique(),
                search.files_unique(),
                search.unknowns@.len() == 0,
                forall|set: Seq<char>, f: DataFileV|
                    #[trigger] results_has(search.set_results@, set, f) == usage_match_upto(
                        self.index,
                        game_name@,
                        rom_name@,
                        rom_mode,
                        set,
                        f,
                        i as int,
                    ),
            decreases n - i,
        {
            let row = &self.index.game_roms[i];
            let keeps = match rom_mode {
                RomsetMode::Split => row.parent.is_none(),
                _ => true,
            };
            let is_source = keeps && crate::files::string_eq(&row.game, game_name)
                && crate::files::string_eq(&row.name, rom_name);
            if is_source {
                proof {
                    assert(crate::store::has_rom_id(self.index.roms@, row.rom_id));
                    crate::store::lemma_rom_by_id_props(self.index.roms@, row.rom_id);
                }
                let rid = row.rom_id;
                match self.index.rom_by_id(rid) {
                    Option::Some(base) => {
                        add_matches_for_id(
                            &self.index,
                            &mut search,
                            &base,
                            rid,
                            rom_mode,
                            Option::None,
                        );
                    },
                    Option::None => {
                        proof {
                            assert(false);
                        }
                    },
                }
            }
            proof {
                assert forall|set: Seq<char>, f: DataFileV|
                    #[trigger] results_has(search.set_results@, set, f) == usage_match_upto(
                        self.index,
                        game_name@,
                        rom_name@,
                        rom_mode,
                        set,
                        f,
                        i as int + 1,
                    ) by {
                    if usage_match_upto(
                        self.index,
                        game_name@,
                        rom_name@,
                        rom_mode,
                        set,
                        f,
                        i as int + 1,
                    ) {
                        let w = choose|w: int|
                            0 <= w < i as int + 1 && usage_source(
                                self.index,
                                game_name@,
                                rom_name@,
                                rom_mode,
                                w,
                            ) && id_match_upto(
                                self.index,
                                stored_view(self.index, (#[trigger] self.index.game_roms@[w]).rom_id),
                                self.index.game_roms@[w].rom_id,
                                rom_mode,
                                Option::None,
                                set,
                                f,
                                self.index.game_roms@.len() as int,
                            );
                        if w < i as int {
                            assert(usage_match_upto(
                                self.index,
                                game_name@,
                                rom_name@,
                                rom_mode,
                                set,
                                f,
                                i as int,
                            ));
                        }
                    }
                    if usage_match_upto(
                        self.index,
                        game_name@,
                        rom_name@,
                        rom_mode,
                        set,
                        f,
                        i as int,
                    ) {
                        let w = choose|w: int|
                            0 <= w < i as int && usage_source(
                                self.index,
                                game_name@,
                                rom_name@,
                                rom_mode,
                                w,
                            ) && id_match_upto(
                                self.index,
                                stored_view(self.index, (#[trigger] self.index.game_roms@[w]).rom_id),
                                self.index.game_roms@[w].rom_id,
                                rom_mode,
                                Option::None,
                                set,
                                f,
                                self.index.game_roms@.len() as int,
                            );
                        assert(usage_match_upto(
                            self.index,
                            game_name@,
                            rom_name@,
                            rom_mode,
                            set,
                            f,
                            i as int + 1,
                        ));
                    }
                }
            }
            i = i + 1;
        }
        search
    }

    /// Every other set sharing any ROM content with the named game's set
    /// under the chosen mode, with the local names the other sets use.
    pub fn get_romset_shared_roms(&self, game_name: &String, rom_mode: RomsetMode) -> (r: RomSearch)
        requires
            self.index.wf(),
        ensures
            r.sets_unique(),
            r.files_unique(),
            r.unknowns@.len() == 0,
            forall|set: Seq<char>, f: DataFileV|
                #[trigger] results_has(r.set_results@, set, f) == shared_match_upto(
                    self.index,
                    game_name@,
                    rom_mode,
                    set,
                    f,
                    self.index.game_roms@.len() as int,
                ),
    {
        let mut search = RomSearch::new();
        let n = self.index.game_roms.len();
        let mut i: usize = 0;
        while i < n
            invariant
                0 <= i <= n,
                n == self.index.game_roms@.len(),
                self.index.wf(),
                search.sets_unique(),
                search.files_unique(),
                search.unknowns@.len() == 0,
                forall|set: Seq<char>, f: DataFileV|
                    #[trigger] results_has(search.set_results@, set, f) == shared_match_upto(
                        self.index,
                        game_name@,
                        rom_mode,
                        set,
                        f,
                        i as int,
                    ),
            decreases n - i,
        {
            let row = &self.index.game_roms[i];
            let keeps = match rom_mode {
                RomsetMode::Split => row.parent.is_none(),
                _ => true,
            };
            let is_source = keeps && crate::files::string_eq(&row.game, game_name);
            if is_source {
                proof {
                    assert(crate::store::has_rom_id(self.index.roms@, row.rom_id));
                    crate::store::lemma_rom_by_id_props(self.index.roms@, row.rom_id);
                }
                let rid = row.rom_id;
                match self.index.rom_by_id(rid) {
                    Option::Some(base) => {
                        add_matches_for_id(
                            &self.index,
                            &mut search,
                            &base,
                            rid,
                            rom_mode,
                            Option::Some(game_name),
                        );
                    },
                    Option::None => {
                        proof {
                            assert(false);
                        }
                    },
                }
            }
            proof {
                assert forall|set: Seq<char>, f: DataFileV|
                    #[trigger] results_has(search.set_results@, set, f) == shared_match_upto(
                        self.index,
                        game_name@,
                        rom_mode,
                        set,
                        f,
                        i as int + 1,
                    ) by {
                    if shared_match_upto(self.index, game_name@, rom_mode, set, f, i as int + 1) {
                        let w = choose|w: int|
                            0 <= w < i as int + 1 && shared_source(
                                self.index,
                                game_name@,
                                rom_mode,
                                w,
                            ) && id_match_upto(
                                self.index,
                                stored_view(self.index, (#[trigger] self.index.game_roms@[w]).rom_id),
                                self.index.game_roms@[w].rom_id,
                                rom_mode,
                                Option::Some(game_name@),
                                set,
                                f,
                                self.index.game_roms@.len() as int,
                            );
                        if w < i as int {
                            assert(shared_match_upto(
                                self.index,
                                game_name@,
                                rom_mode,
                                set,
                                f,
                                i as int,
                            ));
                        }
                    }
                    if shared_match_upto(self.index, game_name@, rom_mode, set, f, i as int) {
                        let w = choose|w: int|
                            0 <= w < i as int && shared_source(
                                self.index,
                                game_name@,
                                rom_mode,
                                w,
                            ) && id_match_upto(
                                self.index,
                                stored_view(self.index, (#[trigger] self.index.game_roms@[w]).rom_id),
                                self.index.game_roms@[w].rom_id,
                                rom_mode,
                                Option::Some(game_name@),
                                set,
                                f,
                                self.index.game_roms@.len() as int,
                            );
                        assert(shared_match_upto(
                            self.index,
                            game_name@,
                            rom_mode,
                            set,
                            f,
                            i as int + 1,
                        ));
                    }
                }
            }
            i = i + 1;
        }
        search
    }

    /// Buckets a bag of observed files by the sets their content belongs
    /// to, under the active digest mask: a file whose content the index
    /// holds lands under each set using it (renamed to that set's local
    /// name); a file matching nothing lands among the unknowns, in input
    /// order.
    pub fn get_romsets_from_roms(&self, roms: Vec<DataFile>, rom_mode: RomsetMode) -> (r: RomSearch)
        requires
            self.index.wf(),
            self.index.roms@.len() <= u32::MAX,
        ensures
            r.sets_unique(),
            r.files_unique(),
            r.unknowns@ == unknowns_spec(self.index, roms@, active_mask(self.index)),
            forall|set: Seq<char>, f: DataFileV|
                #[trigger] results_has(r.set_results@, set, f) == from_roms_match_upto(
                    self.index,
                    roms@,
                    active_mask(self.index),
                    rom_mode,
                    set,
                    f,
                    roms@.len() as int,
                ),
    {
        let counts = self.get_file_checks();
        let mask = counts.get_file_checks();
        proof {
            assert(mask == active_mask(self.index));
        }
        let mut search = RomSearch::new();
        let n = roms.len();
        let mut k: usize = 0;
        proof {
            assert(roms@.take(0) =~= Seq::<DataFile>::empty());
        }
        while k < n
            invariant
                0 <= k <= n,
                n == roms@.len(),
                self.index.wf(),
                mask == active_mask(self.index),
                search.sets_unique(),
                search.files_unique(),
                search.unknowns@ == unknowns_spec(self.index, roms@.take(k as int), mask),
                forall|set: Seq<char>, f: DataFileV|
                    #[trigger] results_has(search.set_results@, set, f) == from_roms_match_upto(
                        self.index,
                        roms@,
                        mask,
                        rom_mode,
                        set,
                        f,
                        k as int,
                    ),
            decreases n - k,
        {
            proof {
                let pre = roms@.take(k as int + 1);
                assert(pre.drop_last() =~= roms@.take(k as int));
                assert(pre.last() == roms@[k as int]);
            }
            let obs = &roms[k];
            match self.index.lookup_id(obs, mask) {
                Option::Some(id) => {
                    add_matches_for_id(&self.index, &mut search, obs, id, rom_mode, Option::None);
                },
                Option::None => {
                    search.add_file_unknown(obs.duplicate());
                    proof {
                        assert(search.unknowns@ =~= unknowns_spec(
                            self.index,
                            roms@.take(k as int + 1),
                            mask,
                        ));
                    }
                },
            }
            proof {
                assert forall|set: Seq<char>, f: DataFileV|
                    #[trigger] results_has(search.set_results@, set, f) == from_roms_match_upto(
                        self.index,
                        roms@,
                        mask,
                        rom_mode,
                        set,
                        f,
                        k as int + 1,
                    ) by {
                    if from_roms_match_upto(
                        self.index,
                        roms@,
                        mask,
                        rom_mode,
                        set,
                        f,
                        k as int + 1,
                    ) {
                        let w = choose|w: int|
                            0 <= w < k as int + 1 && w < roms@.len() && (match lookup_spec(
                                self.index.roms@,
                                (#[trigger] roms@[w])@,
                                mask,
                            ) {
                                Option::Some(id) => id_match_upto(
                                    self.index,
                                    roms@[w]@,
                                    id,
                                    rom_mode,
                                    Option::None,
                                    set,
                                    f,
                                    self.index.game_roms@.len() as int,
                                ),
                                Option::None => false,
                            });
                        if w < k as int {
                            assert(from_roms_match_upto(
                                self.index,
                                roms@,
                                mask,
                                rom_mode,
                                set,
                                f,
                                k as int,
                            ));
                        }
                    }
                    if from_roms_match_upto(self.index, roms@, mask, rom_mode, set, f, k as int) {
                        let w = choose|w: int|
                            0 <= w < k as int && w < roms@.len() && (match lookup_spec(
                                self.index.roms@,
                                (#[trigger] roms@[w])@,
                                mask,
                            ) {
                                Option::Some(id) => id_match_upto(
                                    self.index,
                                    roms@[w]@,
                                    id,
                                    rom_mode,
                                    Option::None,
                                    set,
                                    f,
                                    self.index.game_roms@.len() as int,
                                ),
                                Option::None => false,
                            });
                        assert(from_roms_match_upto(
                            self.index,
                            roms@,
                            mask,
                            rom_mode,
                            set,
                            f,
                            k as int + 1,
                        ));
                    }
                }
            }
            k = k + 1;
        }
        proof {
            assert(roms@.take(n as int) =~= roms@);
        }
        search
    }

    /// The whole set for the named game: the game record, its ROMs under
    /// the chosen mode, and the (empty) disk and sample lists. An unknown
    /// name is an error.
    pub fn get_game_set(&self, game_name: &String, rom_mode: RomsetMode) -> (r: Result<
        GameSet,
        RomstError,
    >)
        requires
            self.index.wf(),
            self.index.games@.len() < usize::MAX,
        ensures
            r is Ok <==> self.index.has_game(game_name@),
            r matches Result::Ok(gs) ==> {
                &&& exists|i: int|
                    0 <= i < self.index.games@.len() && #[trigger] self.index.games@[i] == gs.game
                        && gs.game.name@ == game_name@
                &&& gs.roms@.len() == mode_rows(self.index, game_name@, rom_mode).len()
                &&& forall|i: int|
                    0 <= i < gs.roms@.len() ==> (#[trigger] gs.roms@[i])@ == row_file(
                        self.index,
                        mode_rows(self.index, game_name@, rom_mode)[i],
                    )
                &&& gs.disks@.len() == 0
                &&& gs.samples@.len() == 0
            },
            r matches Result::Err(e) ==> e == (RomstError::GameNotFound { game: *game_name }),
    {
        match self.get_game(game_name) {
            Option::Some(game) => {
                let roms = self.get_romset_roms(game_name, rom_mode);
                Result::Ok(GameSet::new(game, roms, Vec::new(), Vec::new()))
            },
            Option::None => Result::Err(
                RomstError::GameNotFound { game: game_name.clone() },
            ),
        }
    }
}

} // verus!
