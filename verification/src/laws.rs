//! The engine's general guarantees, each stated and proved once over the
//! spec functions the public contracts use.

use vstd::prelude::*;
use crate::files::{same_rom, DataFileV, FileChecks};
use crate::models::RomsetMode;
use crate::reader::{
    id_match_upto, inherited_rows, mode_keeps, nonmerged_named_rows, nonmerged_rows, rename_rows,
    split_rows, stored_view, usage_match_upto, usage_source, IndexReader,
};
use crate::store::{col_present, lookup_spec, GameRom, Index};

verus! {

/// Dedup soundness: two entries declaring the same digest tuple and size
/// resolve to the same content id, whatever the index holds and whatever
/// digest mask is active.
pub proof fn law_dedup_soundness(idx: Index, a: DataFileV, b: DataFileV, checks: FileChecks)
    requires
        same_rom(a, b),
    ensures
        lookup_spec(idx.roms@, a, checks) == lookup_spec(idx.roms@, b, checks),
{
    crate::store::lemma_lookup_same_key(idx.roms@, a, b, checks);
}

/// Id stability: the (digest, id) mapping is a function of the content
/// table alone, so re-opening a finalized index — readers never change the
/// tables — answers every content lookup exactly as before.
pub proof fn law_id_stability(r1: IndexReader, r2: IndexReader, q: DataFileV, checks: FileChecks)
    requires
        r1.index.roms@ == r2.index.roms@,
    ensures
        lookup_spec(r1.index.roms@, q, checks) == lookup_spec(r2.index.roms@, q, checks),
{
}

/// Whether some row of the sequence carries this content id.
pub open spec fn rows_have_id(rows: Seq<GameRom>, id: u32) -> bool {
    exists|k: int| 0 <= k < rows.len() && (#[trigger] rows[k]).rom_id == id
}

/// A content id found in the left part is found in the whole.
pub proof fn lemma_rows_have_id_concat_left(a: Seq<GameRom>, b: Seq<GameRom>, id: u32)
    requires
        rows_have_id(a, id),
    ensures
        rows_have_id(a + b, id),
{
    let k = choose|k: int| 0 <= k < a.len() && (#[trigger] a[k]).rom_id == id;
    assert((a + b)[k].rom_id == id);
}

/// Parent closure under the merged mode: a content id shared between a
/// clone and its parent is contained in the clone's merged set (whatever
/// the parent's own merged set holds of it).
pub proof fn law_parent_closure_merged(idx: Index, child: Seq<char>, parent: Seq<char>, id: u32)
    requires
        rows_have_id(crate::reader::own_rows(idx.game_roms@, child), id),
        rows_have_id(crate::reader::own_rows(idx.game_roms@, parent), id),
    ensures
        rows_have_id(crate::reader::merged_rows(idx, child), id),
{
    lemma_rows_have_id_concat_left(
        crate::reader::own_rows(idx.game_roms@, child),
        crate::reader::clones_rows(
            idx.game_roms@,
            crate::store::children_spec(idx.games@, child),
        ),
        id,
    );
}

/// The content ids of a row sequence, in order.
pub open spec fn ids_seq(rows: Seq<GameRom>) -> Seq<u32>
    decreases rows.len(),
{
    if rows.len() == 0 {
        Seq::empty()
    } else {
        ids_seq(rows.drop_last()).push(rows.last().rom_id)
    }
}

/// [`ids_seq`] distributes over joining row sequences.
pub proof fn lemma_ids_seq_concat(a: Seq<GameRom>, b: Seq<GameRom>)
    ensures
        ids_seq(a + b) == ids_seq(a) + ids_seq(b),
    decreases b.len(),
{
    if b.len() == 0 {
        assert(a + b =~= a);
        assert(ids_seq(a) + ids_seq(b) =~= ids_seq(a));
    } else {
        lemma_ids_seq_concat(a, b.drop_last());
        assert((a + b).drop_last() =~= a + b.drop_last());
        assert((a + b).last() == b.last());
        assert(ids_seq(a + b) =~= (ids_seq(a) + ids_seq(b.drop_last())).push(b.last().rom_id));
        assert(ids_seq(a) + ids_seq(b) =~= (ids_seq(a) + ids_seq(b.drop_last())).push(
            b.last().rom_id,
        ));
    }
}

/// Renaming inherited rows keeps their content ids, in order.
pub proof fn lemma_ids_seq_rename(rows: Seq<GameRom>, table: Seq<GameRom>, game: Seq<char>)
    ensures
        ids_seq(rename_rows(rows, table, game)) == ids_seq(rows),
    decreases rows.len(),
{
    if rows.len() > 0 {
        lemma_ids_seq_rename(rows.drop_last(), table, game);
        let out = rename_rows(rows, table, game);
        assert(out.drop_last() =~= rename_rows(rows.drop_last(), table, game));
        assert(out.last().rom_id == rows.last().rom_id);
        assert(ids_seq(out) =~= ids_seq(rows));
    }
}

/// The content ids of a non-merged set as handed out equal those of its
/// underlying rows: the local-name rewrite never touches an id.
pub proof fn lemma_named_ids(idx: Index, game: Seq<char>, fuel: nat)
    ensures
        ids_seq(nonmerged_named_rows(idx, game, fuel)) == ids_seq(nonmerged_rows(idx, game, fuel)),
{
    let base = split_rows(idx.game_roms@, game);
    let inh = inherited_rows(idx, game, fuel);
    lemma_ids_seq_rename(inh, idx.game_roms@, game);
    lemma_ids_seq_concat(base, rename_rows(inh, idx.game_roms@, game));
    lemma_ids_seq_concat(base, inh);
}

/// Split/non-merged complement: for a clone whose inherit parent is known
/// and which references no device games, the non-merged set's content ids
/// are exactly the split set's ids plus the parent's non-merged ids, as
/// multisets, at every positive resolution bound.
pub proof fn law_split_nonmerged_complement(idx: Index, child: Seq<char>, parent: Seq<char>, fuel: nat)
    requires
        crate::reader::parent_of(idx.games@, child) == Option::Some(parent),
        crate::store::devices_spec(idx.devices@, child).len() == 0,
        fuel >= 1,
    ensures
        ids_seq(nonmerged_named_rows(idx, child, fuel)).to_multiset() == ids_seq(
            split_rows(idx.game_roms@, child),
        ).to_multiset().add(
            ids_seq(nonmerged_named_rows(idx, parent, (fuel - 1) as nat)).to_multiset(),
        ),
{
    let base = split_rows(idx.game_roms@, child);
    let inh = inherited_rows(idx, child, fuel);
    let pnm = nonmerged_rows(idx, parent, (fuel - 1) as nat);
    let devs = crate::store::devices_spec(idx.devices@, child);
    assert(devs =~= Seq::<String>::empty());
    assert(crate::reader::devices_nm_rows(idx, devs, (fuel - 1) as nat) =~= Seq::<
        GameRom,
    >::empty());
    assert(pnm + Seq::<GameRom>::empty() =~= pnm);
    assert(inh == pnm);
    lemma_named_ids(idx, child, fuel);
    lemma_named_ids(idx, parent, (fuel - 1) as nat);
    lemma_ids_seq_concat(base, inh);
    vstd::seq_lib::lemma_multiset_commutative(ids_seq(base), ids_seq(inh));
}

/// Round-trip reverse lookup: for every membership row that survives the
/// mode's filter, a usage search for its (game, local name) finds that very
/// game holding the stored entry under that local name.
pub proof fn law_reverse_lookup_roundtrip(idx: Index, i: int, mode: RomsetMode)
    requires
        0 <= i < idx.game_roms@.len(),
        mode_keeps(idx.game_roms@[i], mode),
    ensures
        usage_match_upto(
            idx,
            idx.game_roms@[i].game@,
            idx.game_roms@[i].name@,
            mode,
            idx.game_roms@[i].game@,
            (DataFileV {
                name: idx.game_roms@[i].name@,
                ..stored_view(idx, idx.game_roms@[i].rom_id)
            }),
            idx.game_roms@.len() as int,
        ),
{
    let row = idx.game_roms@[i];
    let f = DataFileV { name: row.name@, ..stored_view(idx, row.rom_id) };
    assert(usage_source(idx, row.game@, row.name@, mode, i));
    assert(crate::files::file_eq(f, f));
    assert(id_match_upto(
        idx,
        stored_view(idx, row.rom_id),
        row.rom_id,
        mode,
        Option::None,
        row.game@,
        f,
        idx.game_roms@.len() as int,
    )) by {
        assert(idx.game_roms@[i].rom_id == row.rom_id && mode_keeps(idx.game_roms@[i], mode)
            && idx.game_roms@[i].game@ == row.game@ && crate::files::file_eq(
            f,
            DataFileV { name: idx.game_roms@[i].name@, ..stored_view(idx, row.rom_id) },
        ));
    }
}

/// Mask completeness: the digest mask a reader derives sets a column's bit
/// exactly when at least one content row declares that column.
pub proof fn law_mask_completeness(idx: Index)
    ensures
        crate::reader::active_mask(idx).has_sha1() == exists|i: int|
            0 <= i < idx.roms@.len() && col_present(#[trigger] idx.roms@[i], 0),
        crate::reader::active_mask(idx).has_md5() == exists|i: int|
            0 <= i < idx.roms@.len() && col_present(#[trigger] idx.roms@[i], 1),
        crate::reader::active_mask(idx).has_crc() == exists|i: int|
            0 <= i < idx.roms@.len() && col_present(#[trigger] idx.roms@[i], 2),
{
    crate::store::lemma_count_present_exists(idx.roms@, 0);
    crate::store::lemma_count_present_exists(idx.roms@, 1);
    crate::store::lemma_count_present_exists(idx.roms@, 2);
    let s = crate::store::count_present(idx.roms@, 0) > 0;
    let m = crate::store::count_present(idx.roms@, 1) > 0;
    let c = crate::store::count_present(idx.roms@, 2) > 0;
    let x: u8 = if s {
        1
    } else {
        0
    };
    let y: u8 = if m {
        2
    } else {
        0
    };
    let z: u8 = if c {
        4
    } else {
        0
    };
    assert(((x | y | z) & 1 != 0) == (x == 1) && ((x | y | z) & 2 != 0) == (y == 2) && ((x | y | z)
        & 4 != 0) == (z == 4)) by (bit_vector)
        requires
            x == 0 || x == 1,
            y == 0 || y == 2,
            z == 0 || z == 4,
    ;
}

} // verus!
