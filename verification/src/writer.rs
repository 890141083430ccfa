//! Streaming ingest: id allocation, the write buffer, batched flushes into
//! the index, and the parent back-fill pass that finishes it.

use vstd::prelude::*;
use crate::files::{same_rom, DataFile, DataFileV, FileChecks};
use crate::models::{Game, RomstError};
use crate::store::{
    has_rom_id, lookup_spec, next_id_spec, DeviceRow, GameRom, Index, RomRow, SampleRow,
};

verus! {

/// The writer-local id allocators: one for ROM contents, one for disks.
pub struct IdsCounter {
    pub rom: u32,
    pub disk: u32,
}

impl IdsCounter {
    /// Both counters at zero.
    pub fn new() -> (r: IdsCounter)
        ensures
            r.rom == 0,
            r.disk == 0,
    {
        IdsCounter { rom: 0, disk: 0 }
    }

    /// Hands out the next ROM id and moves the counter past it.
    pub fn get_next_rom(&mut self) -> (r: u32)
        requires
            old(self).rom < u32::MAX,
        ensures
            r == old(self).rom,
            final (self).rom == old(self).rom + 1,
            final (self).disk == old(self).disk,
    {
        let id = self.rom;
        self.rom = self.rom + 1;
        id
    }

    /// Hands out the next disk id and moves the counter past it.
    pub fn get_next_disk(&mut self) -> (r: u32)
        requires
            old(self).disk < u32::MAX,
        ensures
            r == old(self).disk,
            final (self).disk == old(self).disk + 1,
            final (self).rom == old(self).rom,
    {
        let id = self.disk;
        self.disk = self.disk + 1;
        id
    }
}

/// The id the buffer holds for a content key, if it holds the key at all;
/// the newest entry is consulted first (keys are unique, so at most one
/// entry can hold a given key).
pub open spec fn buf_lookup(buf: Seq<(DataFile, u32)>, q: DataFileV) -> Option<u32>
    decreases buf.len(),
{
    if buf.len() == 0 {
        Option::None
    } else if same_rom(buf.last().0@, q) {
        Option::Some(buf.last().1)
    } else {
        buf_lookup(buf.drop_last(), q)
    }
}

/// Whether some buffered entry carries this content key.
pub open spec fn buf_has_key(buf: Seq<(DataFile, u32)>, q: DataFileV) -> bool {
    exists|i: int| 0 <= i < buf.len() && same_rom((#[trigger] buf[i]).0@, q)
}

/// Whether some buffered entry carries this id.
pub open spec fn buf_has_id(buf: Seq<(DataFile, u32)>, id: u32) -> bool {
    exists|i: int| 0 <= i < buf.len() && (#[trigger] buf[i]).1 == id
}

/// [`buf_lookup`] succeeds exactly on the keys the buffer holds, and the id
/// it returns sits in the buffer with the queried key.
pub proof fn lemma_buf_lookup_props(buf: Seq<(DataFile, u32)>, q: DataFileV)
    ensures
        buf_lookup(buf, q) is Some <==> buf_has_key(buf, q),
        buf_lookup(buf, q) matches Option::Some(id) ==> exists|i: int|
            0 <= i < buf.len() && same_rom((#[trigger] buf[i]).0@, q) && buf[i].1 == id,
    decreases buf.len(),
{
    if buf.len() > 0 {
        lemma_buf_lookup_props(buf.drop_last(), q);
        if same_rom(buf.last().0@, q) {
            assert(same_rom(buf[buf.len() - 1].0@, q));
        } else {
            assert forall|i: int| 0 <= i < buf.len() - 1 implies buf.drop_last()[i] == buf[i] by {}
            if buf_has_key(buf, q) {
                let i = choose|i: int| 0 <= i < buf.len() && same_rom((#[trigger] buf[i]).0@, q);
                assert(same_rom(buf.drop_last()[i].0@, q));
            }
        }
    }
}

/// [`buf_lookup`] answers by content key alone: two queries with the same
/// key resolve alike.
pub proof fn lemma_buf_lookup_same_key(buf: Seq<(DataFile, u32)>, a: DataFileV, b: DataFileV)
    requires
        same_rom(a, b),
    ensures
        buf_lookup(buf, a) == buf_lookup(buf, b),
    decreases buf.len(),
{
    if buf.len() > 0 {
        lemma_buf_lookup_same_key(buf.drop_last(), a, b);
    }
}

/// Dedup soundness inside a session: two entries with the same declared
/// digest tuple and size resolve to the same id, committed or buffered —
/// one content key never gets two ids from one writer.
pub proof fn lemma_eff_id_same_key(w: IndexWriter, a: DataFileV, b: DataFileV)
    requires
        same_rom(a, b),
    ensures
        eff_id(w, a) == eff_id(w, b),
        disk_eff_id(w, a) == disk_eff_id(w, b),
{
    crate::store::lemma_lookup_same_key(w.store.roms@, a, b, FileChecks::all_spec());
    lemma_buf_lookup_same_key(w.buffer.roms@, a, b);
    crate::store::lemma_lookup_same_key(w.store.disks@, a, b, FileChecks::all_spec());
    lemma_buf_lookup_same_key(w.buffer.disks@, a, b);
}

/// Whether a membership pair with this id and name is already listed.
pub open spec fn pair_in(pairs: Seq<(u32, String)>, id: u32, name: Seq<char>) -> bool {
    exists|i: int| 0 <= i < pairs.len() && (#[trigger] pairs[i]).0 == id && pairs[i].1@ == name
}

/// Pushing a pair records exactly that (id, name) reading.
pub proof fn lemma_pair_in_push(pairs: Seq<(u32, String)>, x: (u32, String), id: u32, nm: Seq<char>)
    ensures
        pair_in(pairs.push(x), id, nm) == (pair_in(pairs, id, nm) || (x.0 == id && x.1@ == nm)),
{
    let pushed = pairs.push(x);
    if pair_in(pushed, id, nm) {
        let w = choose|w: int|
            0 <= w < pushed.len() && (#[trigger] pushed[w]).0 == id && pushed[w].1@ == nm;
        if w < pairs.len() {
            assert(pairs[w].0 == id && pairs[w].1@ == nm);
        }
    }
    if pair_in(pairs, id, nm) {
        let w = choose|w: int|
            0 <= w < pairs.len() && (#[trigger] pairs[w]).0 == id && pairs[w].1@ == nm;
        assert(pushed[w].0 == id && pushed[w].1@ == nm);
    }
    if x.0 == id && x.1@ == nm {
        assert(pushed[pairs.len() as int].0 == id && pushed[pairs.len() as int].1@ == nm);
    }
}

/// Whether the list holds a string reading `s`.
pub open spec fn names_has(list: Seq<String>, s: Seq<char>) -> bool {
    exists|j: int| 0 <= j < list.len() && (#[trigger] list[j])@ == s
}

/// Pushing a string onto a list adds exactly that reading.
pub proof fn lemma_names_has_push(list: Seq<String>, x: String, s: Seq<char>)
    ensures
        names_has(list.push(x), s) == (names_has(list, s) || x@ == s),
{
    let pushed = list.push(x);
    if names_has(pushed, s) {
        let j = choose|j: int| 0 <= j < pushed.len() && (#[trigger] pushed[j])@ == s;
        if j < list.len() {
            assert(list[j]@ == s);
        }
    }
    if names_has(list, s) {
        let j = choose|j: int| 0 <= j < list.len() && (#[trigger] list[j])@ == s;
        assert(pushed[j]@ == s);
    }
    if x@ == s {
        assert(pushed[list.len() as int]@ == s);
    }
}

/// Whether a sample pack entry for this pack name lists this sample.
pub open spec fn buffered_sample(
    packs: Seq<(String, Vec<String>)>,
    pack: Seq<char>,
    sample: Seq<char>,
) -> bool {
    exists|i: int|
        0 <= i < packs.len() && (#[trigger] packs[i]).0@ == pack && names_has(
            packs[i].1@,
            sample,
        )
}

/// Whether the samples table holds this (pack, sample) pair.
pub open spec fn sample_in(rows: Seq<SampleRow>, pack: Seq<char>, sample: Seq<char>) -> bool {
    exists|i: int|
        0 <= i < rows.len() && (#[trigger] rows[i]).pack@ == pack && rows[i].sample@ == sample
}

/// Whether a buffered game carries this name.
pub open spec fn buf_has_game(games: Seq<Game>, name: Seq<char>) -> bool {
    exists|i: int| 0 <= i < games.len() && (#[trigger] games[i]).name@ == name
}

/// The in-memory write buffer: entries accepted by the writer but not yet
/// committed to the index.
pub struct Buffer {
    pub ids: IdsCounter,
    pub games: Vec<Game>,
    pub roms: Vec<(DataFile, u32)>,
    pub game_roms: Vec<(String, Vec<(u32, String)>)>,
    pub disks: Vec<(DataFile, u32)>,
    pub game_disks: Vec<(String, Vec<(u32, String)>)>,
    pub samples: Vec<(String, Vec<String>)>,
    pub device_refs: Vec<(String, Vec<String>)>,
}

impl Buffer {
    /// An empty buffer with both counters at zero.
    pub fn new() -> (r: Buffer)
        ensures
            r.ids.rom == 0,
            r.ids.disk == 0,
            r.games@.len() == 0,
            r.roms@.len() == 0,
            r.game_roms@.len() == 0,
            r.disks@.len() == 0,
            r.game_disks@.len() == 0,
            r.samples@.len() == 0,
            r.device_refs@.len() == 0,
    {
        Buffer {
            ids: IdsCounter::new(),
            games: Vec::new(),
            roms: Vec::new(),
            game_roms: Vec::new(),
            disks: Vec::new(),
            game_disks: Vec::new(),
            samples: Vec::new(),
            device_refs: Vec::new(),
        }
    }

    /// How full the buffer is for the flush policy: buffered games plus
    /// buffered sample packs.
    pub fn len(&self) -> (r: usize)
        requires
            self.games@.len() + self.samples@.len() <= usize::MAX,
        ensures
            r == self.games@.len() + self.samples@.len(),
    {
        self.games.len() + self.samples.len()
    }

    /// Buffers one game record.
    pub fn add_game(&mut self, game: Game)
        ensures
            final (self).games@ == old(self).games@.push(game),
            final (self).ids == old(self).ids,
            final (self).roms == old(self).roms,
            final (self).game_roms == old(self).game_roms,
            final (self).disks == old(self).disks,
            final (self).game_disks == old(self).game_disks,
            final (self).samples == old(self).samples,
            final (self).device_refs == old(self).device_refs,
    {
        self.games.push(game);
    }

    /// The buffered id for this content key, if the buffer holds the key.
    pub fn rom_id_for(&self, q: &DataFile) -> (r: Option<u32>)
        ensures
            r == buf_lookup(self.roms@, q@),
    {
        let n = self.roms.len();
        let mut i: usize = n;
        proof {
            assert(self.roms@.take(n as int) =~= self.roms@);
        }
        while i > 0
            invariant
                0 <= i <= n,
                n == self.roms@.len(),
                buf_lookup(self.roms@, q@) == buf_lookup(self.roms@.take(i as int), q@),
            decreases i,
        {
            i = i - 1;
            proof {
                let pre = self.roms@.take(i as int + 1);
                assert(pre.drop_last() =~= self.roms@.take(i as int));
                assert(pre.last() == self.roms@[i as int]);
            }
            if self.roms[i].0.same_rom_as(q) {
                return Option::Some(self.roms[i].1);
            }
        }
        proof {
            assert(self.roms@.take(0) =~= Seq::<(DataFile, u32)>::empty());
        }
        Option::None
    }

    /// Buffers one membership list for a game.
    pub fn add_roms_for_game(&mut self, game_name: String, rom_ids: Vec<(u32, String)>)
        ensures
            final (self).game_roms@ == old(self).game_roms@.push((game_name, rom_ids)),
            final (self).ids == old(self).ids,
            final (self).games == old(self).games,
            final (self).roms == old(self).roms,
            final (self).disks == old(self).disks,
            final (self).game_disks == old(self).game_disks,
            final (self).samples == old(self).samples,
            final (self).device_refs == old(self).device_refs,
    {
        self.game_roms.push((game_name, rom_ids));
    }

    /// Buffers one disk-membership list for a game.
    pub fn add_disks_for_game(&mut self, game_name: String, disk_ids: Vec<(u32, String)>)
        ensures
            final (self).game_disks@ == old(self).game_disks@.push((game_name, disk_ids)),
            final (self).ids == old(self).ids,
            final (self).games == old(self).games,
            final (self).roms == old(self).roms,
            final (self).game_roms == old(self).game_roms,
            final (self).disks == old(self).disks,
            final (self).samples == old(self).samples,
            final (self).device_refs == old(self).device_refs,
    {
        self.game_disks.push((game_name, disk_ids));
    }

    /// The buffered id for this disk content key, if the buffer holds it.
    pub fn disk_id_for(&self, q: &DataFile) -> (r: Option<u32>)
        ensures
            r == buf_lookup(self.disks@, q@),
    {
        let n = self.disks.len();
        let mut i: usize = n;
        proof {
            assert(self.disks@.take(n as int) =~= self.disks@);
        }
        while i > 0
            invariant
                0 <= i <= n,
                n == self.disks@.len(),
                buf_lookup(self.disks@, q@) == buf_lookup(self.disks@.take(i as int), q@),
            decreases i,
        {
            i = i - 1;
            proof {
                let pre = self.disks@.take(i as int + 1);
                assert(pre.drop_last() =~= self.disks@.take(i as int));
                assert(pre.last() == self.disks@[i as int]);
            }
            if self.disks[i].0.same_rom_as(q) {
                return Option::Some(self.disks[i].1);
            }
        }
        proof {
            assert(self.disks@.take(0) =~= Seq::<(DataFile, u32)>::empty());
        }
        Option::None
    }

    /// Buffers one device-reference list for a game.
    pub fn add_device_refs(&mut self, game_name: String, device_refs: Vec<String>)
        ensures
            final (self).device_refs@ == old(self).device_refs@.push((game_name, device_refs)),
            final (self).ids == old(self).ids,
            final (self).games == old(self).games,
            final (self).roms == old(self).roms,
            final (self).game_roms == old(self).game_roms,
            final (self).disks == old(self).disks,
            final (self).game_disks == old(self).game_disks,
            final (self).samples == old(self).samples,
    {
        self.device_refs.push((game_name, device_refs));
    }

    /// Merges sample names into the named pack, as a set: a name already in
    /// the pack is not added again, and a new pack entry is opened when none
    /// carries this name yet.
    pub fn add_sample_pack(&mut self, sample_pack: String, samples: Vec<String>)
        requires
            forall|i: int, j: int|
                0 <= i < j < old(self).samples@.len() ==> (#[trigger] old(self).samples@[i]).0@
                    != (#[trigger] old(self).samples@[j]).0@,
        ensures
            forall|i: int, j: int|
                0 <= i < j < final (self).samples@.len() ==> (#[trigger] final (self).samples@[i]).0@
                    != (#[trigger] final (self).samples@[j]).0@,
            forall|p: Seq<char>, s: Seq<char>|
                #[trigger] buffered_sample(final (self).samples@, p, s) == (buffered_sample(
                    old(self).samples@,
                    p,
                    s,
                ) || (p == sample_pack@ && names_has(samples@, s))),
            final (self).samples@.len() >= old(self).samples@.len(),
            final (self).samples@.len() <= old(self).samples@.len() + 1,
            final (self).ids == old(self).ids,
            final (self).games == old(self).games,
            final (self).roms == old(self).roms,
            final (self).game_roms == old(self).game_roms,
            final (self).disks == old(self).disks,
            final (self).game_disks == old(self).game_disks,
            final (self).device_refs == old(self).device_refs,
    {
        let n = self.samples.len();
        let mut pos: Option<usize> = Option::None;
        let mut i: usize = 0;
        while i < n
            invariant
                0 <= i <= n,
                n == self.samples@.len(),
                pos is None ==> forall|j: int|
                    0 <= j < i ==> (#[trigger] self.samples@[j]).0@ != sample_pack@,
                pos matches Option::Some(p) ==> 0 <= p < n && self.samples@[p as int].0@
                    == sample_pack@,
            decreases n - i,
        {
            if pos.is_none() && crate::files::string_eq(&self.samples[i].0, &sample_pack) {
                pos = Option::Some(i);
            }
            i = i + 1;
        }
        match pos {
            Option::Some(p) => {
                let ghost old_self = *self;
                let m = samples.len();
                let mut k: usize = 0;
                while k < m
                    invariant
                        0 <= k <= m,
                        m == samples@.len(),
                        0 <= p < self.samples@.len(),
                        self.samples@.len() == old_self.samples@.len(),
                        self.ids == old_self.ids,
                        self.games == old_self.games,
                        self.roms == old_self.roms,
                        self.game_roms == old_self.game_roms,
                        self.disks == old_self.disks,
                        self.game_disks == old_self.game_disks,
                        self.device_refs == old_self.device_refs,
                        forall|j: int|
                            0 <= j < self.samples@.len() && j != p ==> #[trigger] self.samples@[j]
                                == old_self.samples@[j],
                        self.samples@[p as int].0 == old_self.samples@[p as int].0,
                        forall|s: Seq<char>|
                            #[trigger] names_has(self.samples@[p as int].1@, s) == (names_has(
                                old_self.samples@[p as int].1@,
                                s,
                            ) || names_has(samples@.take(k as int), s)),
                    decreases m - k,
                {
                    let ghost inner0 = self.samples@[p as int].1@;
                    let sample = &samples[k];
                    let inner_len = self.samples[p].1.len();
                    let mut found = false;
                    let mut t: usize = 0;
                    while t < inner_len
                        invariant
                            0 <= t <= inner_len,
                            0 <= p < self.samples@.len(),
                            self.samples@[p as int].1@ == inner0,
                            inner_len == inner0.len(),
                            found ==> names_has(inner0, sample@),
                            !found ==> forall|j: int|
                                0 <= j < t ==> (#[trigger] inner0[j])@ != sample@,
                        decreases inner_len - t,
                    {
                        if !found && crate::files::string_eq(&self.samples[p].1[t], sample) {
                            found = true;
                        }
                        t = t + 1;
                    }
                    proof {
                        assert(samples@.take(k as int + 1).drop_last() =~= samples@.take(k as int));
                        assert(samples@.take(k as int + 1) =~= samples@.take(k as int).push(
                            samples@[k as int],
                        ));
                    }
                    if !found {
                        let s2 = sample.clone();
                        self.samples[p].1.push(s2);
                        proof {
                            assert(self.samples@[p as int].1@ =~= inner0.push(samples@[k as int]));
                        }
                    } else {
                        proof {
                            assert(names_has(inner0, samples@[k as int]@));
                        }
                    }
                    proof {
                        assert forall|s: Seq<char>|
                            #[trigger] names_has(self.samples@[p as int].1@, s) == (names_has(
                                old_self.samples@[p as int].1@,
                                s,
                            ) || names_has(samples@.take(k as int + 1), s)) by {
                            lemma_names_has_push(
                                samples@.take(k as int),
                                samples@[k as int],
                                s,
                            );
                            if !found {
                                lemma_names_has_push(inner0, samples@[k as int], s);
                            }
                        }
                    }
                    k = k + 1;
                }
                proof {
                    assert(samples@.take(m as int) =~= samples@);
                    assert forall|pq: Seq<char>, s: Seq<char>|
                        #[trigger] buffered_sample(self.samples@, pq, s) == (buffered_sample(
                            old_self.samples@,
                            pq,
                            s,
                        ) || (pq == sample_pack@ && names_has(samples@, s))) by {
                        if buffered_sample(self.samples@, pq, s) {
                            let i0 = choose|i0: int|
                                0 <= i0 < self.samples@.len() && (#[trigger] self.samples@[i0]).0@
                                    == pq && names_has(self.samples@[i0].1@, s);
                            if i0 != p {
                                assert(old_self.samples@[i0] == self.samples@[i0]);
                                assert(buffered_sample(old_self.samples@, pq, s));
                            } else {
                                if names_has(old_self.samples@[p as int].1@, s) {
                                    assert(buffered_sample(old_self.samples@, pq, s));
                                }
                            }
                        }
                        if buffered_sample(old_self.samples@, pq, s) {
                            let i0 = choose|i0: int|
                                0 <= i0 < old_self.samples@.len() && (
                                #[trigger] old_self.samples@[i0]).0@ == pq && names_has(
                                    old_self.samples@[i0].1@,
                                    s,
                                );
                            if i0 != p {
                                assert(self.samples@[i0] == old_self.samples@[i0]);
                                assert(buffered_sample(self.samples@, pq, s));
                            } else {
                                assert(names_has(self.samples@[p as int].1@, s));
                                assert(buffered_sample(self.samples@, pq, s));
                            }
                        }
                        if pq == sample_pack@ && names_has(samples@, s) {
                            assert(names_has(self.samples@[p as int].1@, s));
                            assert((self.samples@[p as int]).0@ == pq);
                            assert(buffered_sample(self.samples@, pq, s));
                        }
                    }
                }
            },
            Option::None => {
                let ghost old_self = *self;
                proof {
                    assert forall|j: int|
                        0 <= j < old_self.samples@.len() implies (#[trigger] old_self.samples@[j]).0@
                        != sample_pack@ by {
                        assert(self.samples@[j] == old_self.samples@[j]);
                    }
                }
                let mut inner: Vec<String> = Vec::new();
                let m = samples.len();
                let mut k: usize = 0;
                while k < m
                    invariant
                        0 <= k <= m,
                        m == samples@.len(),
                        forall|s: Seq<char>|
                            #[trigger] names_has(inner@, s) == names_has(
                                samples@.take(k as int),
                                s,
                            ),
                    decreases m - k,
                {
                    let ghost inner0 = inner@;
                    let sample = &samples[k];
                    let inner_len = inner.len();
                    let mut found = false;
                    let mut t: usize = 0;
                    while t < inner_len
                        invariant
                            0 <= t <= inner_len,
                            inner@ == inner0,
                            inner_len == inner0.len(),
                            found ==> names_has(inner0, sample@),
                            !found ==> forall|j: int|
                                0 <= j < t ==> (#[trigger] inner0[j])@ != sample@,
                        decreases inner_len - t,
                    {
                        if !found && crate::files::string_eq(&inner[t], sample) {
                            found = true;
                        }
                        t = t + 1;
                    }
                    proof {
                        assert(samples@.take(k as int + 1) =~= samples@.take(k as int).push(
                            samples@[k as int],
                        ));
                    }
                    if !found {
                        inner.push(sample.clone());
                        proof {
                            assert(inner@ =~= inner0.push(samples@[k as int]));
                        }
                    } else {
                        proof {
                            assert(names_has(inner0, samples@[k as int]@));
                        }
                    }
                    proof {
                        assert forall|s: Seq<char>|
                            #[trigger] names_has(inner@, s) == names_has(
                                samples@.take(k as int + 1),
                                s,
                            ) by {
                            lemma_names_has_push(samples@.take(k as int), samples@[k as int], s);
                            if !found {
                                lemma_names_has_push(inner0, samples@[k as int], s);
                            }
                        }
                    }
                    k = k + 1;
                }
                let ghost inner_final = inner@;
                self.samples.push((sample_pack, inner));
                proof {
                    assert(samples@.take(m as int) =~= samples@);
                    let pushed = self.samples@;
                    let last = pushed.len() - 1;
                    assert(pushed[last].1@ == inner_final);
                    assert forall|pq: Seq<char>, s: Seq<char>|
                        #[trigger] buffered_sample(pushed, pq, s) == (buffered_sample(
                            old_self.samples@,
                            pq,
                            s,
                        ) || (pq == sample_pack@ && names_has(samples@, s))) by {
                        if buffered_sample(pushed, pq, s) {
                            let i0 = choose|i0: int|
                                0 <= i0 < pushed.len() && (#[trigger] pushed[i0]).0@ == pq
                                    && names_has(pushed[i0].1@, s);
                            if i0 < last {
                                assert(old_self.samples@[i0] == pushed[i0]);
                                assert(buffered_sample(old_self.samples@, pq, s));
                            }
                        }
                        if buffered_sample(old_self.samples@, pq, s) {
                            let i0 = choose|i0: int|
                                0 <= i0 < old_self.samples@.len() && (
                                #[trigger] old_self.samples@[i0]).0@ == pq && names_has(
                                    old_self.samples@[i0].1@,
                                    s,
                                );
                            assert(pushed[i0] == old_self.samples@[i0]);
                            assert(buffered_sample(pushed, pq, s));
                        }
                        if pq == sample_pack@ && names_has(samples@, s) {
                            assert(names_has(pushed[last].1@, s));
                            assert(buffered_sample(pushed, pq, s));
                        }
                    }
                    assert forall|a: int, b: int|
                        0 <= a < b < pushed.len() implies (#[trigger] pushed[a]).0@ != (
                    #[trigger] pushed[b]).0@ by {
                        if b == last {
                            assert(pushed[a] == old_self.samples@[a]);
                            assert(old_self.samples@[a].0@ != sample_pack@);
                            assert(pushed[last].0 == sample_pack);
                        } else {
                            assert(pushed[a] == old_self.samples@[a]);
                            assert(pushed[b] == old_self.samples@[b]);
                        }
                    }
                }
            },
        }
    }
}

/// The streaming ingest engine: a committed index, the write buffer in
/// front of it, and the flush threshold.
pub struct IndexWriter {
    pub store: Index,
    pub buffer: Buffer,
    pub buffer_size: u16,
}

/// Whether the writer already holds this content id, committed or buffered.
pub open spec fn id_known(w: IndexWriter, id: u32) -> bool {
    has_rom_id(w.store.roms@, id) || buf_has_id(w.buffer.roms@, id)
}

/// The id the writer resolves for a content key right now: the committed
/// table first (smallest matching id under the full mask), then the buffer.
pub open spec fn eff_id(w: IndexWriter, q: DataFileV) -> Option<u32> {
    match lookup_spec(w.store.roms@, q, FileChecks::all_spec()) {
        Option::Some(i) => Option::Some(i),
        Option::None => buf_lookup(w.buffer.roms@, q),
    }
}

/// Whether the writer already holds this disk id, committed or buffered.
pub open spec fn disk_id_known(w: IndexWriter, id: u32) -> bool {
    has_rom_id(w.store.disks@, id) || buf_has_id(w.buffer.disks@, id)
}

/// The id the writer resolves for a disk content key right now: the
/// committed table first (smallest matching id under the full mask), then
/// the buffer.
pub open spec fn disk_eff_id(w: IndexWriter, q: DataFileV) -> Option<u32> {
    match lookup_spec(w.store.disks@, q, FileChecks::all_spec()) {
        Option::Some(i) => Option::Some(i),
        Option::None => buf_lookup(w.buffer.disks@, q),
    }
}

/// How many content rows the writer holds in all, committed or buffered;
/// a flush moves rows but never changes this total.
pub open spec fn rom_row_count(w: IndexWriter) -> int {
    w.store.roms@.len() + w.buffer.roms@.len() as int
}

/// The disk-table counterpart of [`rom_row_count`].
pub open spec fn disk_row_count(w: IndexWriter) -> int {
    w.store.disks@.len() + w.buffer.disks@.len() as int
}

/// How many of the files carry a content key the writer does not know yet:
/// an upper bound on the rows one ingest step may add.
pub open spec fn count_unseen(w: IndexWriter, files: Seq<DataFile>) -> int
    decreases files.len(),
{
    if files.len() == 0 {
        0
    } else {
        count_unseen(w, files.drop_last()) + if eff_id(w, files.last()@) is None {
            1int
        } else {
            0int
        }
    }
}

/// The disk counterpart of [`count_unseen`].
pub open spec fn count_unseen_disks(w: IndexWriter, files: Seq<DataFile>) -> int
    decreases files.len(),
{
    if files.len() == 0 {
        0
    } else {
        count_unseen_disks(w, files.drop_last()) + if disk_eff_id(w, files.last()@) is None {
            1int
        } else {
            0int
        }
    }
}

/// How many membership pairs the buffered entries hold in all.
pub open spec fn pair_count(entries: Seq<(String, Vec<(u32, String)>)>) -> int
    decreases entries.len(),
{
    if entries.len() == 0 {
        0
    } else {
        pair_count(entries.drop_last()) + entries.last().1@.len()
    }
}

/// Flushing turns each buffered pair into one table row.
pub proof fn lemma_expand_membership_len(entries: Seq<(String, Vec<(u32, String)>)>)
    ensures
        expand_membership(entries).len() == pair_count(entries),
    decreases entries.len(),
{
    if entries.len() > 0 {
        lemma_expand_membership_len(entries.drop_last());
        lemma_entry_rows(entries.last().0, entries.last().1@);
    }
}

/// How many membership rows the writer holds in all, committed or buffered;
/// a flush moves pairs into rows but never changes this total.
pub open spec fn membership_total(w: IndexWriter) -> int {
    w.store.game_roms@.len() as int + pair_count(w.buffer.game_roms@)
}

/// The disk-table counterpart of [`membership_total`].
pub open spec fn disk_membership_total(w: IndexWriter) -> int {
    w.store.game_disks@.len() as int + pair_count(w.buffer.game_disks@)
}

/// Whether the writer holds this (pack, sample) pair, committed or
/// buffered; a flush moves pairs but never changes what is known.
pub open spec fn sample_known(w: IndexWriter, pack: Seq<char>, sample: Seq<char>) -> bool {
    sample_in(w.store.samples@, pack, sample) || buffered_sample(w.buffer.samples@, pack, sample)
}

/// Whether the devices table holds this (game, device) pair.
pub open spec fn device_in(rows: Seq<DeviceRow>, game: Seq<char>, dev: Seq<char>) -> bool {
    exists|i: int|
        0 <= i < rows.len() && (#[trigger] rows[i]).game@ == game && rows[i].device_ref@ == dev
}

/// Whether a buffered device list gives this game this device reference.
pub open spec fn buffered_device(
    entries: Seq<(String, Vec<String>)>,
    game: Seq<char>,
    dev: Seq<char>,
) -> bool {
    exists|i: int|
        0 <= i < entries.len() && (#[trigger] entries[i]).0@ == game && names_has(
            entries[i].1@,
            dev,
        )
}

/// Whether the writer holds this (game, device reference) pair, committed
/// or buffered.
pub open spec fn device_known(w: IndexWriter, game: Seq<char>, dev: Seq<char>) -> bool {
    device_in(w.store.devices@, game, dev) || buffered_device(w.buffer.device_refs@, game, dev)
}

/// Flushing device lists into rows keeps exactly the recorded pairs.
pub proof fn lemma_expand_devices_membership(
    base: Seq<DeviceRow>,
    entries: Seq<(String, Vec<String>)>,
    game: Seq<char>,
    dev: Seq<char>,
)
    ensures
        device_in(base + expand_devices(entries), game, dev) == (device_in(base, game, dev)
            || buffered_device(entries, game, dev)),
    decreases entries.len(),
{
    if entries.len() == 0 {
        assert(base + expand_devices(entries) =~= base);
        if buffered_device(entries, game, dev) {
            let i = choose|i: int|
                0 <= i < entries.len() && (#[trigger] entries[i]).0@ == game && names_has(
                    entries[i].1@,
                    dev,
                );
            assert(false);
        }
    } else {
        let rest = entries.drop_last();
        let last = entries.last();
        lemma_expand_devices_membership(base, rest, game, dev);
        let upto = base + expand_devices(rest);
        let whole = base + expand_devices(entries);
        assert(whole =~= upto + device_rows(last.0, last.1@));
        lemma_device_rows_membership(upto, last.0, last.1@, game, dev);
        assert(device_in(whole, game, dev) == (device_in(upto, game, dev) || (last.0@ == game
            && names_has(last.1@, dev))));
        if buffered_device(entries, game, dev) {
            let i = choose|i: int|
                0 <= i < entries.len() && (#[trigger] entries[i]).0@ == game && names_has(
                    entries[i].1@,
                    dev,
                );
            if i < entries.len() - 1 {
                assert(rest[i] == entries[i]);
                assert(buffered_device(rest, game, dev));
            }
        }
        if buffered_device(rest, game, dev) {
            let i = choose|i: int|
                0 <= i < rest.len() && (#[trigger] rest[i]).0@ == game && names_has(
                    rest[i].1@,
                    dev,
                );
            assert(entries[i] == rest[i]);
            assert(buffered_device(entries, game, dev));
        }
        if last.0@ == game && names_has(last.1@, dev) {
            assert(entries[entries.len() - 1] == last);
            assert(buffered_device(entries, game, dev));
        }
    }
}

/// One device list flushed onto a row base adds exactly its pairs.
pub proof fn lemma_device_rows_membership(
    base: Seq<DeviceRow>,
    game_name: String,
    list: Seq<String>,
    game: Seq<char>,
    dev: Seq<char>,
)
    ensures
        device_in(base + device_rows(game_name, list), game, dev) == (device_in(base, game, dev)
            || (game_name@ == game && names_has(list, dev))),
    decreases list.len(),
{
    if list.len() == 0 {
        assert(base + device_rows(game_name, list) =~= base);
    } else {
        let rest = list.drop_last();
        lemma_device_rows_membership(base, game_name, rest, game, dev);
        let upto = base + device_rows(game_name, rest);
        let whole = base + device_rows(game_name, list);
        assert(whole =~= upto.push(DeviceRow { game: game_name, device_ref: list.last() }));
        let pushed = upto.push(DeviceRow { game: game_name, device_ref: list.last() });
        if device_in(pushed, game, dev) {
            let i = choose|i: int|
                0 <= i < pushed.len() && (#[trigger] pushed[i]).game@ == game
                    && pushed[i].device_ref@ == dev;
            if i < upto.len() {
                assert(upto[i].game@ == game && upto[i].device_ref@ == dev);
            }
        }
        if device_in(upto, game, dev) {
            let i = choose|i: int|
                0 <= i < upto.len() && (#[trigger] upto[i]).game@ == game && upto[i].device_ref@
                    == dev;
            assert(pushed[i].game@ == game && pushed[i].device_ref@ == dev);
        }
        lemma_names_has_push(rest, list.last(), dev);
        if game_name@ == game && names_has(list, dev) {
            if list.last()@ == dev {
                assert(pushed[upto.len() as int].game@ == game && pushed[upto.len() as int].device_ref@
                    == dev);
            } else {
                assert(names_has(list, dev) == (names_has(rest, dev) || list.last()@ == dev)) by {
                    assert(list =~= rest.push(list.last()));
                }
            }
        }
    }
}

/// A flush commits the buffer but forgets no resolution: a content key
/// that resolved before still resolves afterwards, for ROMs and disks
/// alike. (The resolved id itself may move to a smaller matching id when a
/// query declares only part of a committed key.)
pub proof fn lemma_flush_preserves_known(w0: IndexWriter, w1: IndexWriter)
    requires
        w1.store.roms@ == w0.store.roms@ + buf_rows(w0.buffer.roms@),
        w1.buffer.roms@.len() == 0,
        w1.store.disks@ == w0.store.disks@ + buf_rows(w0.buffer.disks@),
        w1.buffer.disks@.len() == 0,
    ensures
        forall|q: DataFileV| eff_id(w0, q) is Some ==> #[trigger] eff_id(w1, q) is Some,
        forall|q: DataFileV| disk_eff_id(w0, q) is Some ==> #[trigger] disk_eff_id(w1, q) is Some,
{
    let all = FileChecks::all_spec();
    assert forall|q: DataFileV| eff_id(w0, q) is Some implies #[trigger] eff_id(w1, q) is Some by {
        lemma_buf_rows(w0.buffer.roms@);
        match lookup_spec(w0.store.roms@, q, all) {
            Option::Some(_) => {
                crate::store::lemma_lookup_append_some(
                    w0.store.roms@,
                    buf_rows(w0.buffer.roms@),
                    q,
                    all,
                );
            },
            Option::None => {
                lemma_buf_lookup_props(w0.buffer.roms@, q);
                let w = choose|w: int|
                    0 <= w < w0.buffer.roms@.len() && same_rom(
                        (#[trigger] w0.buffer.roms@[w]).0@,
                        q,
                    );
                let pos = w0.store.roms@.len() + w;
                assert(w1.store.roms@[pos] == buf_rows(w0.buffer.roms@)[w]);
                assert(w1.store.roms@[pos].file == w0.buffer.roms@[w].0);
                crate::store::lemma_lookup_some_of_key(w1.store.roms@, q, all, pos);
            },
        }
    }
    assert forall|q: DataFileV| disk_eff_id(w0, q) is Some implies #[trigger] disk_eff_id(
        w1,
        q,
    ) is Some by {
        lemma_buf_rows(w0.buffer.disks@);
        match lookup_spec(w0.store.disks@, q, all) {
            Option::Some(_) => {
                crate::store::lemma_lookup_append_some(
                    w0.store.disks@,
                    buf_rows(w0.buffer.disks@),
                    q,
                    all,
                );
            },
            Option::None => {
                lemma_buf_lookup_props(w0.buffer.disks@, q);
                let w = choose|w: int|
                    0 <= w < w0.buffer.disks@.len() && same_rom(
                        (#[trigger] w0.buffer.disks@[w]).0@,
                        q,
                    );
                let pos = w0.store.disks@.len() + w;
                assert(w1.store.disks@[pos] == buf_rows(w0.buffer.disks@)[w]);
                assert(w1.store.disks@[pos].file == w0.buffer.disks@[w].0);
                crate::store::lemma_lookup_some_of_key(w1.store.disks@, q, all, pos);
            },
        }
    }
}

/// Whatever resolves in one state resolves in a later one, so the later
/// state sees no more unseen keys.
pub proof fn lemma_count_unseen_mono(w1: IndexWriter, w2: IndexWriter, files: Seq<DataFile>)
    requires
        forall|q: DataFileV| eff_id(w1, q) is Some ==> #[trigger] eff_id(w2, q) is Some,
    ensures
        count_unseen(w2, files) <= count_unseen(w1, files),
    decreases files.len(),
{
    if files.len() > 0 {
        lemma_count_unseen_mono(w1, w2, files.drop_last());
        if eff_id(w2, files.last()@) is None {
            assert(eff_id(w1, files.last()@) is Some ==> eff_id(w2, files.last()@) is Some);
        }
    }
}

/// The disk counterpart of [`lemma_count_unseen_mono`].
pub proof fn lemma_count_unseen_disks_mono(w1: IndexWriter, w2: IndexWriter, files: Seq<DataFile>)
    requires
        forall|q: DataFileV| disk_eff_id(w1, q) is Some ==> #[trigger] disk_eff_id(w2, q) is Some,
    ensures
        count_unseen_disks(w2, files) <= count_unseen_disks(w1, files),
    decreases files.len(),
{
    if files.len() > 0 {
        lemma_count_unseen_disks_mono(w1, w2, files.drop_last());
        if count_unseen_disks(w2, files) > count_unseen_disks(w1, files) {
            assert(disk_eff_id(w1, files.last()@) is Some ==> disk_eff_id(
                w2,
                files.last()@,
            ) is Some);
        }
    }
}

/// The unseen count never exceeds the number of files.
pub proof fn lemma_count_unseen_bounds(w: IndexWriter, files: Seq<DataFile>)
    ensures
        0 <= count_unseen(w, files) <= files.len(),
        0 <= count_unseen_disks(w, files) <= files.len(),
    decreases files.len(),
{
    if files.len() > 0 {
        lemma_count_unseen_bounds(w, files.drop_last());
    }
}

/// Buffering one device list extends what is recorded by exactly its pairs.
pub proof fn lemma_buffered_device_push(
    entries: Seq<(String, Vec<String>)>,
    x: (String, Vec<String>),
    game: Seq<char>,
    dev: Seq<char>,
)
    ensures
        buffered_device(entries.push(x), game, dev) == (buffered_device(entries, game, dev) || (
        x.0@ == game && names_has(x.1@, dev))),
{
    let pushed = entries.push(x);
    if buffered_device(pushed, game, dev) {
        let i = choose|i: int|
            0 <= i < pushed.len() && (#[trigger] pushed[i]).0@ == game && names_has(
                pushed[i].1@,
                dev,
            );
        if i < entries.len() {
            assert(entries[i].0@ == game && names_has(entries[i].1@, dev));
        }
    }
    if buffered_device(entries, game, dev) {
        let i = choose|i: int|
            0 <= i < entries.len() && (#[trigger] entries[i]).0@ == game && names_has(
                entries[i].1@,
                dev,
            );
        assert(pushed[i].0@ == game && names_has(pushed[i].1@, dev));
    }
    if x.0@ == game && names_has(x.1@, dev) {
        assert(pushed[entries.len() as int].0@ == game && names_has(
            pushed[entries.len() as int].1@,
            dev,
        ));
    }
}

/// The `clone_of` edge of the first game carrying this name, if the table
/// holds one.
pub open spec fn clone_of_spec(games: Seq<Game>, name: Seq<char>) -> Option<Option<Seq<char>>>
    decreases games.len(),
{
    if games.len() == 0 {
        Option::None
    } else if games[0].name@ == name {
        Option::Some(crate::files::opt_str_view(games[0].clone_of))
    } else {
        clone_of_spec(games.drop_first(), name)
    }
}

/// Whether the clone chain from this name ends within `fuel` steps: it
/// reaches a name the table does not hold, or a game without `clone_of`.
/// With fuel one past the number of games, this fails exactly on chains
/// that revisit a game: a cycle in the clone graph.
pub open spec fn chain_resolves(games: Seq<Game>, name: Seq<char>, fuel: nat) -> bool
    decreases fuel,
{
    if fuel == 0 {
        false
    } else {
        match clone_of_spec(games, name) {
            Option::None => true,
            Option::Some(co) => match co {
                Option::None => true,
                Option::Some(p) => chain_resolves(games, p, (fuel - 1) as nat),
            },
        }
    }
}

/// The `clone_of` edge of the first game carrying this name.
fn clone_of_lookup(games: &Vec<Game>, name: &String) -> (r: Option<Option<String>>)
    ensures
        r is None <==> clone_of_spec(games@, name@) is None,
        r matches Option::Some(co) ==> clone_of_spec(games@, name@) == Option::Some(
            crate::files::opt_str_view(co),
        ),
{
    let n = games.len();
    let mut i: usize = 0;
    proof {
        assert(games@.skip(0) =~= games@);
    }
    while i < n
        invariant
            0 <= i <= n,
            n == games@.len(),
            clone_of_spec(games@, name@) == clone_of_spec(games@.skip(i as int), name@),
        decreases n - i,
    {
        proof {
            let cur = games@.skip(i as int);
            assert(cur[0] == games@[i as int]);
            assert(cur.drop_first() =~= games@.skip(i as int + 1));
        }
        if crate::files::string_eq(&games[i].name, name) {
            return Option::Some(crate::files::opt_string_clone(&games[i].clone_of));
        }
        i = i + 1;
    }
    proof {
        assert(games@.skip(n as int) =~= Seq::<Game>::empty());
    }
    Option::None
}

/// Whether the clone chain from this name ends within `fuel` steps.
fn chain_resolves_exec(games: &Vec<Game>, name: &String, fuel: usize) -> (r: bool)
    ensures
        r == chain_resolves(games@, name@, fuel as nat),
    decreases fuel,
{
    if fuel == 0 {
        return false;
    }
    match clone_of_lookup(games, name) {
        Option::None => true,
        Option::Some(co) => match co {
            Option::None => true,
            Option::Some(p) => chain_resolves_exec(games, &p, fuel - 1),
        },
    }
}

/// Whether the writer already holds a game of this name, committed or
/// buffered.
pub open spec fn game_known(w: IndexWriter, name: Seq<char>) -> bool {
    w.store.has_game(name) || buf_has_game(w.buffer.games@, name)
}

impl IndexWriter {
    /// What every writer operation preserves: the committed index is well
    /// formed; buffered content keys are unique and absent from the store;
    /// buffered ids are unique, unused by the store, and below the counter,
    /// which also bounds every committed id; buffered membership rows point
    /// at known ids; buffered game names are unique and absent from the
    /// store; buffered sample packs are unique; and the buffer stays within
    /// flushing distance of the threshold.
    pub open spec fn wf(self) -> bool {
        &&& self.store.wf()
        &&& forall|i: int, j: int|
            0 <= i < j < self.buffer.roms@.len() ==> !same_rom(
                (#[trigger] self.buffer.roms@[i]).0@,
                (#[trigger] self.buffer.roms@[j]).0@,
            )
        &&& forall|i: int|
            0 <= i < self.buffer.roms@.len() ==> !crate::store::has_rom_key(
                self.store.roms@,
                (#[trigger] self.buffer.roms@[i]).0@,
            )
        &&& forall|i: int, j: int|
            0 <= i < j < self.buffer.roms@.len() ==> (#[trigger] self.buffer.roms@[i]).1 != (
            #[trigger] self.buffer.roms@[j]).1
        &&& forall|i: int|
            0 <= i < self.buffer.roms@.len() ==> !has_rom_id(
                self.store.roms@,
                (#[trigger] self.buffer.roms@[i]).1,
            )
        &&& forall|i: int|
            0 <= i < self.buffer.roms@.len() ==> (#[trigger] self.buffer.roms@[i]).1
                < self.buffer.ids.rom
        &&& forall|i: int|
            0 <= i < self.store.roms@.len() ==> (#[trigger] self.store.roms@[i]).id
                < self.buffer.ids.rom
        &&& forall|i: int, k: int|
            0 <= i < self.buffer.game_roms@.len() && 0 <= k < (
            #[trigger] self.buffer.game_roms@[i]).1@.len() ==> id_known(
                self,
                (#[trigger] self.buffer.game_roms@[i].1@[k]).0,
            )
        &&& forall|i: int, j: int|
            0 <= i < j < self.buffer.games@.len() ==> (#[trigger] self.buffer.games@[i]).name@ != (
            #[trigger] self.buffer.games@[j]).name@
        &&& forall|i: int|
            0 <= i < self.buffer.games@.len() ==> !self.store.has_game(
                (#[trigger] self.buffer.games@[i]).name@,
            )
        &&& forall|i: int, j: int|
            0 <= i < j < self.buffer.samples@.len() ==> (#[trigger] self.buffer.samples@[i]).0@ != (
            #[trigger] self.buffer.samples@[j]).0@
        &&& forall|i: int, j: int|
            0 <= i < j < self.buffer.disks@.len() ==> !same_rom(
                (#[trigger] self.buffer.disks@[i]).0@,
                (#[trigger] self.buffer.disks@[j]).0@,
            )
        &&& forall|i: int|
            0 <= i < self.buffer.disks@.len() ==> !crate::store::has_rom_key(
                self.store.disks@,
                (#[trigger] self.buffer.disks@[i]).0@,
            )
        &&& forall|i: int, j: int|
            0 <= i < j < self.buffer.disks@.len() ==> (#[trigger] self.buffer.disks@[i]).1 != (
            #[trigger] self.buffer.disks@[j]).1
        &&& forall|i: int|
            0 <= i < self.buffer.disks@.len() ==> !has_rom_id(
                self.store.disks@,
                (#[trigger] self.buffer.disks@[i]).1,
            )
        &&& forall|i: int|
            0 <= i < self.buffer.disks@.len() ==> (#[trigger] self.buffer.disks@[i]).1
                < self.buffer.ids.disk
        &&& forall|i: int|
            0 <= i < self.store.disks@.len() ==> (#[trigger] self.store.disks@[i]).id
                < self.buffer.ids.disk
        &&& forall|i: int, k: int|
            0 <= i < self.buffer.game_disks@.len() && 0 <= k < (
            #[trigger] self.buffer.game_disks@[i]).1@.len() ==> disk_id_known(
                self,
                (#[trigger] self.buffer.game_disks@[i].1@[k]).0,
            )
    }

    /// The buffer is within flushing distance of the threshold, so one more
    /// entry cannot overflow the fill computation.
    pub open spec fn fill_ok(self) -> bool {
        self.buffer.games@.len() + self.buffer.samples@.len() <= 70000
    }

    /// A writer over an existing index. The buffer's id counter seeds one
    /// past the largest committed id, so fresh ids never collide.
    pub fn from_index(store: Index, buffer_size: u16) -> (r: IndexWriter)
        requires
            store.wf(),
            forall|i: int| 0 <= i < store.roms@.len() ==> (#[trigger] store.roms@[i]).id < u32::MAX,
            forall|i: int|
                0 <= i < store.disks@.len() ==> (#[trigger] store.disks@[i]).id < u32::MAX,
        ensures
            r.store == store,
            r.buffer_size == buffer_size,
            r.buffer.roms@.len() == 0,
            r.buffer.games@.len() == 0,
            r.buffer.game_roms@.len() == 0,
            r.buffer.disks@.len() == 0,
            r.buffer.game_disks@.len() == 0,
            r.buffer.samples@.len() == 0,
            r.buffer.device_refs@.len() == 0,
            r.buffer.ids.rom == next_id_spec(store.roms@),
            r.buffer.ids.disk == next_id_spec(store.disks@),
            r.wf(),
            r.fill_ok(),
    {
        let mut next: u32 = 0;
        let n = store.roms.len();
        let mut i: usize = 0;
        while i < n
            invariant
                0 <= i <= n,
                n == store.roms@.len(),
                forall|j: int|
                    0 <= j < store.roms@.len() ==> (#[trigger] store.roms@[j]).id < u32::MAX,
                next == next_id_spec(store.roms@.take(i as int)),
            decreases n - i,
        {
            proof {
                let pre = store.roms@.take(i as int + 1);
                assert(pre.drop_last() =~= store.roms@.take(i as int));
                assert(pre.last() == store.roms@[i as int]);
            }
            let id = store.roms[i].id;
            if id >= next {
                next = id + 1;
            }
            i = i + 1;
        }
        let mut next_disk: u32 = 0;
        let nd = store.disks.len();
        let mut i: usize = 0;
        while i < nd
            invariant
                0 <= i <= nd,
                nd == store.disks@.len(),
                forall|j: int|
                    0 <= j < store.disks@.len() ==> (#[trigger] store.disks@[j]).id < u32::MAX,
                next_disk == next_id_spec(store.disks@.take(i as int)),
            decreases nd - i,
        {
            proof {
                let pre = store.disks@.take(i as int + 1);
                assert(pre.drop_last() =~= store.disks@.take(i as int));
                assert(pre.last() == store.disks@[i as int]);
            }
            let id = store.disks[i].id;
            if id >= next_disk {
                next_disk = id + 1;
            }
            i = i + 1;
        }
        proof {
            assert(store.roms@.take(n as int) =~= store.roms@);
            crate::store::lemma_next_id_bound(store.roms@);
            assert(store.disks@.take(nd as int) =~= store.disks@);
            crate::store::lemma_next_id_bound(store.disks@);
        }
        let mut buffer = Buffer::new();
        buffer.ids.rom = next;
        buffer.ids.disk = next_disk;
        IndexWriter { store, buffer, buffer_size }
    }

    /// Resets the writer over a fresh, empty index, dropping whatever the
    /// store or the buffer held.
    pub fn init(&mut self)
        ensures
            final (self).store.roms@.len() == 0,
            final (self).store.games@.len() == 0,
            final (self).store.game_roms@.len() == 0,
            final (self).store.samples@.len() == 0,
            final (self).store.devices@.len() == 0,
            final (self).store.disks@.len() == 0,
            final (self).store.game_disks@.len() == 0,
            final (self).buffer.roms@.len() == 0,
            final (self).buffer.games@.len() == 0,
            final (self).buffer.game_roms@.len() == 0,
            final (self).buffer.disks@.len() == 0,
            final (self).buffer.game_disks@.len() == 0,
            final (self).buffer.samples@.len() == 0,
            final (self).buffer.device_refs@.len() == 0,
            final (self).buffer.ids.rom == 0,
            final (self).buffer.ids.disk == 0,
            final (self).buffer_size == old(self).buffer_size,
            final (self).wf(),
            final (self).fill_ok(),
    {
        self.store = Index::empty();
        self.buffer = Buffer::new();
    }

    /// Resolves each entry to its content id — committed rows first, then
    /// the session buffer, then a freshly allocated id — and hands back the
    /// (id, local name) pairs with exact repetitions removed.
    pub fn get_rom_ids(&mut self, roms: Vec<DataFile>) -> (r: Vec<(u32, String)>)
        requires
            old(self).wf(),
            old(self).buffer.ids.rom + roms@.len() <= u32::MAX,
        ensures
            final (self).wf(),
            final (self).store == old(self).store,
            final (self).buffer_size == old(self).buffer_size,
            final (self).buffer.games == old(self).buffer.games,
            final (self).buffer.game_roms == old(self).buffer.game_roms,
            final (self).buffer.disks == old(self).buffer.disks,
            final (self).buffer.game_disks == old(self).buffer.game_disks,
            final (self).buffer.samples == old(self).buffer.samples,
            final (self).buffer.device_refs == old(self).buffer.device_refs,
            final (self).buffer.ids.disk == old(self).buffer.ids.disk,
            final (self).buffer.ids.rom >= old(self).buffer.ids.rom,
            final (self).buffer.ids.rom <= old(self).buffer.ids.rom + roms@.len(),
            final (self).buffer.roms@.take(old(self).buffer.roms@.len() as int) == old(
                self,
            ).buffer.roms@,
            old(self).buffer.roms@.len() <= final (self).buffer.roms@.len(),
            final (self).buffer.roms@.len() <= old(self).buffer.roms@.len() + count_unseen(
                *old(self),
                roms@,
            ),
            forall|q: DataFileV|
                eff_id(*old(self), q) is Some ==> #[trigger] eff_id(*final (self), q) == eff_id(
                    *old(self),
                    q,
                ),
            forall|k: int|
                0 <= k < roms@.len() ==> eff_id(*final (self), (#[trigger] roms@[k])@) is Some,
            forall|k: int|
                0 <= k < roms@.len() ==> pair_in(
                    r@,
                    eff_id(*final (self), (#[trigger] roms@[k])@)->0,
                    roms@[k].name@,
                ),
            forall|a: int|
                0 <= a < r@.len() ==> exists|k: int|
                    0 <= k < roms@.len() && (#[trigger] roms@[k]).name@ == (#[trigger] r@[a]).1@
                        && eff_id(*final (self), roms@[k]@) == Option::Some(r@[a].0),
            forall|a: int, b: int|
                0 <= a < b < r@.len() ==> !((#[trigger] r@[a]).0 == (#[trigger] r@[b]).0 && r@[a].1@
                    == r@[b].1@),
            forall|a: int| 0 <= a < r@.len() ==> id_known(*final (self), (#[trigger] r@[a]).0),
            forall|a: int, b: int|
                0 <= a < b < r@.len() ==> (#[trigger] r@[a]).0 <= (#[trigger] r@[b]).0,
            r@.len() <= roms@.len(),
    {
        let mut raw: Vec<(u32, String)> = Vec::new();
        let n = roms.len();
        let mut k: usize = 0;
        let all = FileChecks::all();
        while k < n
            invariant
                0 <= k <= n,
                n == roms@.len(),
                all == FileChecks::all_spec(),
                self.wf(),
                self.store == old(self).store,
                self.buffer_size == old(self).buffer_size,
                self.buffer.games == old(self).buffer.games,
                self.buffer.game_roms == old(self).buffer.game_roms,
                self.buffer.disks == old(self).buffer.disks,
                self.buffer.game_disks == old(self).buffer.game_disks,
                self.buffer.samples == old(self).buffer.samples,
                self.buffer.device_refs == old(self).buffer.device_refs,
                self.buffer.ids.disk == old(self).buffer.ids.disk,
                self.buffer.ids.rom >= old(self).buffer.ids.rom,
                self.buffer.ids.rom <= old(self).buffer.ids.rom + k,
                self.buffer.ids.rom + (n - k) <= u32::MAX,
                old(self).buffer.roms@.len() <= self.buffer.roms@.len(),
                self.buffer.roms@.len() <= old(self).buffer.roms@.len() + count_unseen(
                    *old(self),
                    roms@.take(k as int),
                ),
                forall|q: DataFileV|
                    eff_id(*old(self), q) is Some ==> #[trigger] eff_id(*self, q) == eff_id(
                        *old(self),
                        q,
                    ),
                self.buffer.roms@.take(old(self).buffer.roms@.len() as int) == old(
                    self,
                ).buffer.roms@,
                raw@.len() == k,
                forall|t: int| 0 <= t < k ==> eff_id(*self, (#[trigger] roms@[t])@) is Some,
                forall|t: int|
                    0 <= t < k ==> (#[trigger] raw@[t]).1 == roms@[t].name && Option::Some(
                        raw@[t].0,
                    ) == eff_id(*self, roms@[t]@),
            decreases n - k,
        {
            let ghost pre_self = *self;
            proof {
                let pre = roms@.take(k as int + 1);
                assert(pre.drop_last() =~= roms@.take(k as int));
                assert(pre.last() == roms@[k as int]);
            }
            let f = &roms[k];
            let found = match self.store.lookup_id(f, all) {
                Option::Some(id) => Option::Some(id),
                Option::None => self.buffer.rom_id_for(f),
            };
            match found {
                Option::Some(id) => {
                    proof {
                        crate::store::lemma_lookup_props(self.store.roms@, f@, all);
                        lemma_buf_lookup_props(self.buffer.roms@, f@);
                    }
                    raw.push((id, f.name.clone()));
                },
                Option::None => {
                    let id = self.buffer.ids.get_next_rom();
                    let nm = f.name.clone();
                    let fd = f.duplicate();
                    self.buffer.roms.push((fd, id));
                    raw.push((id, nm));
                    proof {
                        let buf0 = pre_self.buffer.roms@;
                        let buf1 = self.buffer.roms@;
                        assert(buf1 == buf0.push((fd, id)));
                        assert(buf1.drop_last() =~= buf0);
                        lemma_buf_lookup_props(buf0, f@);
                        // the new key is absent from the committed table
                        assert forall|i: int|
                            0 <= i < self.store.roms@.len() implies !same_rom(
                            (#[trigger] self.store.roms@[i]).file@,
                            f@,
                        ) by {
                            crate::store::lemma_lookup_props(self.store.roms@, f@, all);
                            if same_rom(self.store.roms@[i].file@, f@) {
                                crate::files::lemma_same_rom_matches(
                                    f@,
                                    self.store.roms@[i].file@,
                                    all,
                                );
                            }
                        }
                        // freshness of the id
                        assert(!has_rom_id(self.store.roms@, id));
                        assert(!buf_has_id(buf0, id));
                        // membership rows still point at known ids
                        assert forall|i: int, t: int|
                            0 <= i < self.buffer.game_roms@.len() && 0 <= t < (
                            #[trigger] self.buffer.game_roms@[i]).1@.len() implies id_known(
                            *self,
                            (#[trigger] self.buffer.game_roms@[i].1@[t]).0,
                        ) by {
                            assert(id_known(pre_self, self.buffer.game_roms@[i].1@[t].0));
                            let idt = self.buffer.game_roms@[i].1@[t].0;
                            if buf_has_id(buf0, idt) {
                                let w = choose|w: int|
                                    0 <= w < buf0.len() && (#[trigger] buf0[w]).1 == idt;
                                assert(buf1[w].1 == idt);
                            }
                        }
                        // any key resolved before keeps resolving to the same id
                        assert forall|q: DataFileV|
                            eff_id(pre_self, q) is Some implies #[trigger] eff_id(*self, q)
                            == eff_id(pre_self, q) by {
                            if same_rom(fd@, q) {
                                if lookup_spec(self.store.roms@, q, all) is Some {
                                    crate::store::lemma_lookup_same_key(
                                        self.store.roms@,
                                        fd@,
                                        q,
                                        all,
                                    );
                                    crate::store::lemma_lookup_props(self.store.roms@, fd@, all);
                                    assert(false);
                                } else {
                                    lemma_buf_lookup_props(buf0, q);
                                    let w = choose|w: int|
                                        0 <= w < buf0.len() && same_rom((#[trigger] buf0[w]).0@, q);
                                    assert(same_rom(buf0[w].0@, fd@));
                                    assert(false);
                                }
                            }
                        }
                        assert forall|t: int| 0 <= t < k implies eff_id(
                            *self,
                            (#[trigger] roms@[t])@,
                        ) == eff_id(pre_self, roms@[t]@) by {
                            assert(eff_id(pre_self, roms@[t]@) is Some);
                        }
                        // the allocated key was unseen when the call began
                        assert(eff_id(*old(self), roms@[k as int]@) is None) by {
                            if eff_id(*old(self), roms@[k as int]@) is Some {
                                assert(eff_id(pre_self, roms@[k as int]@) == eff_id(
                                    *old(self),
                                    roms@[k as int]@,
                                ));
                            }
                        }
                        let gl = old(self).buffer.roms@.len() as int;
                        assert(buf0.take(gl).len() == gl);
                        assert(gl <= buf0.len());
                        assert forall|x: int| 0 <= x < gl implies buf1[x] == buf0[x] by {}
                        assert(buf1.take(gl) =~= buf0.take(gl));
                    }
                },
            }
            k = k + 1;
        }
        let r = dedup_sort_pairs(raw);
        proof {
            assert(roms@.take(n as int) =~= roms@);
            assert forall|kk: int| 0 <= kk < roms@.len() implies pair_in(
                r@,
                eff_id(*self, (#[trigger] roms@[kk])@)->0,
                roms@[kk].name@,
            ) by {
                assert(raw@[kk].1 == roms@[kk].name && Option::Some(raw@[kk].0) == eff_id(
                    *self,
                    roms@[kk]@,
                ));
                assert(pair_in(raw@, raw@[kk].0, raw@[kk].1@));
            }
            assert forall|a: int| 0 <= a < r@.len() implies (exists|kk: int|
                0 <= kk < roms@.len() && (#[trigger] roms@[kk]).name@ == r@[a].1@ && eff_id(
                    *self,
                    roms@[kk]@,
                ) == Option::Some(r@[a].0)) && id_known(*self, r@[a].0) by {
                assert(is_input_pair(r@, raw@, a));
                let t = choose|t: int| 0 <= t < raw@.len() && r@[a] == #[trigger] raw@[t];
                assert(roms@[t].name@ == r@[a].1@);
                assert(eff_id(*self, roms@[t]@) == Option::Some(r@[a].0));
                match lookup_spec(self.store.roms@, roms@[t]@, FileChecks::all_spec()) {
                    Option::Some(_) => {
                        crate::store::lemma_lookup_props(
                            self.store.roms@,
                            roms@[t]@,
                            FileChecks::all_spec(),
                        );
                    },
                    Option::None => {
                        lemma_buf_lookup_props(self.buffer.roms@, roms@[t]@);
                    },
                }
            }
        }
        r
    }
    /// Commits the whole buffer in one batch: content rows, games,
    /// membership rows and device rows are appended; sample pairs are
    /// appended unless already stored; then the buffer is cleared. The id
    /// counters survive, so later allocations stay fresh.
    pub fn write_buffer(&mut self)
        requires
            old(self).wf(),
        ensures
            final (self).wf(),
            final (self).buffer_size == old(self).buffer_size,
            final (self).store.roms@ == old(self).store.roms@ + buf_rows(old(self).buffer.roms@),
            final (self).store.games@ == old(self).store.games@ + old(self).buffer.games@,
            final (self).store.game_roms@ == old(self).store.game_roms@ + expand_membership(
                old(self).buffer.game_roms@,
            ),
            final (self).store.disks@ == old(self).store.disks@ + buf_rows(
                old(self).buffer.disks@,
            ),
            final (self).store.game_disks@ == old(self).store.game_disks@ + expand_membership(
                old(self).buffer.game_disks@,
            ),
            final (self).store.devices@ == old(self).store.devices@ + expand_devices(
                old(self).buffer.device_refs@,
            ),
            forall|p: Seq<char>, s: Seq<char>|
                #[trigger] sample_in(final (self).store.samples@, p, s) == (sample_in(
                    old(self).store.samples@,
                    p,
                    s,
                ) || buffered_sample(old(self).buffer.samples@, p, s)),
            final (self).store.info_name == old(self).store.info_name,
            final (self).store.info_description == old(self).store.info_description,
            final (self).store.info_version == old(self).store.info_version,
            final (self).buffer.roms@.len() == 0,
            final (self).buffer.games@.len() == 0,
            final (self).buffer.game_roms@.len() == 0,
            final (self).buffer.disks@.len() == 0,
            final (self).buffer.game_disks@.len() == 0,
            final (self).buffer.samples@.len() == 0,
            final (self).buffer.device_refs@.len() == 0,
            final (self).buffer.ids == old(self).buffer.ids,
    {
        let ghost w0 = *self;

        // content rows
        let n_roms = self.buffer.roms.len();
        let mut i: usize = 0;
        while i < n_roms
            invariant
                0 <= i <= n_roms,
                n_roms == self.buffer.roms@.len(),
                self.buffer == w0.buffer,
                self.buffer_size == w0.buffer_size,
                self.store.roms@ == w0.store.roms@ + buf_rows(self.buffer.roms@.take(i as int)),
                self.store.games == w0.store.games,
                self.store.game_roms == w0.store.game_roms,
                self.store.samples == w0.store.samples,
                self.store.devices == w0.store.devices,
                self.store.disks == w0.store.disks,
                self.store.game_disks == w0.store.game_disks,
                self.store.info_name == w0.store.info_name,
                self.store.info_description == w0.store.info_description,
                self.store.info_version == w0.store.info_version,
            decreases n_roms - i,
        {
            proof {
                let pre = self.buffer.roms@.take(i as int + 1);
                assert(pre.drop_last() =~= self.buffer.roms@.take(i as int));
                assert(pre.last() == self.buffer.roms@[i as int]);
            }
            let f = self.buffer.roms[i].0.duplicate();
            let id = self.buffer.roms[i].1;
            self.store.roms.push(RomRow { id, file: f });
            proof {
                assert(self.store.roms@ =~= w0.store.roms@ + buf_rows(
                    self.buffer.roms@.take(i as int + 1),
                ));
            }
            i = i + 1;
        }
        proof {
            assert(self.buffer.roms@.take(n_roms as int) =~= self.buffer.roms@);
        }

        // games
        let n_games = self.buffer.games.len();
        let mut i: usize = 0;
        while i < n_games
            invariant
                0 <= i <= n_games,
                n_games == self.buffer.games@.len(),
                self.buffer == w0.buffer,
                self.buffer_size == w0.buffer_size,
                self.store.roms@ == w0.store.roms@ + buf_rows(self.buffer.roms@),
                self.store.games@ == w0.store.games@ + self.buffer.games@.take(i as int),
                self.store.game_roms == w0.store.game_roms,
                self.store.samples == w0.store.samples,
                self.store.devices == w0.store.devices,
                self.store.disks == w0.store.disks,
                self.store.game_disks == w0.store.game_disks,
                self.store.info_name == w0.store.info_name,
                self.store.info_description == w0.store.info_description,
                self.store.info_version == w0.store.info_version,
            decreases n_games - i,
        {
            let g = self.buffer.games[i].duplicate();
            self.store.games.push(g);
            proof {
                assert(self.store.games@ =~= w0.store.games@ + self.buffer.games@.take(
                    i as int + 1,
                ));
            }
            i = i + 1;
        }
        proof {
            assert(self.buffer.games@.take(n_games as int) =~= self.buffer.games@);
        }

        // membership rows
        let n_entries = self.buffer.game_roms.len();
        let mut i: usize = 0;
        while i < n_entries
            invariant
                0 <= i <= n_entries,
                n_entries == self.buffer.game_roms@.len(),
                self.buffer == w0.buffer,
                self.buffer_size == w0.buffer_size,
                self.store.roms@ == w0.store.roms@ + buf_rows(self.buffer.roms@),
                self.store.games@ == w0.store.games@ + self.buffer.games@,
                self.store.game_roms@ == w0.store.game_roms@ + expand_membership(
                    self.buffer.game_roms@.take(i as int),
                ),
                self.store.samples == w0.store.samples,
                self.store.devices == w0.store.devices,
                self.store.disks == w0.store.disks,
                self.store.game_disks == w0.store.game_disks,
                self.store.info_name == w0.store.info_name,
                self.store.info_description == w0.store.info_description,
                self.store.info_version == w0.store.info_version,
            decreases n_entries - i,
        {
            proof {
                let pre = self.buffer.game_roms@.take(i as int + 1);
                assert(pre.drop_last() =~= self.buffer.game_roms@.take(i as int));
                assert(pre.last() == self.buffer.game_roms@[i as int]);
            }
            let ghost base = self.store.game_roms@;
            let ghost entry = self.buffer.game_roms@[i as int];
            let m = self.buffer.game_roms[i].1.len();
            let mut k: usize = 0;
            while k < m
                invariant
                    0 <= k <= m,
                    0 <= i < self.buffer.game_roms@.len(),
                    m == self.buffer.game_roms@[i as int].1@.len(),
                    entry == self.buffer.game_roms@[i as int],
                    self.buffer == w0.buffer,
                    self.buffer_size == w0.buffer_size,
                    self.store.roms@ == w0.store.roms@ + buf_rows(self.buffer.roms@),
                    self.store.games@ == w0.store.games@ + self.buffer.games@,
                    self.store.game_roms@ == base + entry_rows(entry.0, entry.1@.take(k as int)),
                    self.store.samples == w0.store.samples,
                    self.store.devices == w0.store.devices,
                    self.store.disks == w0.store.disks,
                    self.store.game_disks == w0.store.game_disks,
                    self.store.info_name == w0.store.info_name,
                    self.store.info_description == w0.store.info_description,
                    self.store.info_version == w0.store.info_version,
                decreases m - k,
            {
                proof {
                    let pre = entry.1@.take(k as int + 1);
                    assert(pre.drop_last() =~= entry.1@.take(k as int));
                    assert(pre.last() == entry.1@[k as int]);
                }
                let game_name = self.buffer.game_roms[i].0.clone();
                let rom_id = self.buffer.game_roms[i].1[k].0;
                let local = self.buffer.game_roms[i].1[k].1.clone();
                self.store.game_roms.push(
                    GameRom { game: game_name, rom_id, name: local, parent: Option::None },
                );
                proof {
                    assert(self.store.game_roms@ =~= base + entry_rows(
                        entry.0,
                        entry.1@.take(k as int + 1),
                    ));
                }
                k = k + 1;
            }
            proof {
                assert(entry.1@.take(m as int) =~= entry.1@);
                assert(self.store.game_roms@ =~= w0.store.game_roms@ + expand_membership(
                    self.buffer.game_roms@.take(i as int + 1),
                ));
            }
            i = i + 1;
        }
        proof {
            assert(self.buffer.game_roms@.take(n_entries as int) =~= self.buffer.game_roms@);
        }

        // sample pairs, skipping those already stored
        let ghost samples0 = self.store.samples@;
        let n_packs = self.buffer.samples.len();
        let mut i: usize = 0;
        while i < n_packs
            invariant
                0 <= i <= n_packs,
                n_packs == self.buffer.samples@.len(),
                self.buffer == w0.buffer,
                self.buffer_size == w0.buffer_size,
                self.store.roms@ == w0.store.roms@ + buf_rows(self.buffer.roms@),
                self.store.games@ == w0.store.games@ + self.buffer.games@,
                self.store.game_roms@ == w0.store.game_roms@ + expand_membership(
                    self.buffer.game_roms@,
                ),
                forall|p: Seq<char>, s: Seq<char>|
                    #[trigger] sample_in(self.store.samples@, p, s) == (sample_in(samples0, p, s)
                        || buffered_sample(self.buffer.samples@.take(i as int), p, s)),
                self.store.devices == w0.store.devices,
                self.store.disks == w0.store.disks,
                self.store.game_disks == w0.store.game_disks,
                self.store.info_name == w0.store.info_name,
                self.store.info_description == w0.store.info_description,
                self.store.info_version == w0.store.info_version,
            decreases n_packs - i,
        {
            proof {
                let pre = self.buffer.samples@.take(i as int + 1);
                assert(pre.drop_last() =~= self.buffer.samples@.take(i as int));
                assert(pre.last() == self.buffer.samples@[i as int]);
            }
            let ghost mid_samples = self.store.samples@;
            let ghost pack_entry = self.buffer.samples@[i as int];
            let m = self.buffer.samples[i].1.len();
            let mut k: usize = 0;
            while k < m
                invariant
                    0 <= k <= m,
                    0 <= i < self.buffer.samples@.len(),
                    m == self.buffer.samples@[i as int].1@.len(),
                    pack_entry == self.buffer.samples@[i as int],
                    self.buffer == w0.buffer,
                    self.buffer_size == w0.buffer_size,
                    self.store.roms@ == w0.store.roms@ + buf_rows(self.buffer.roms@),
                    self.store.games@ == w0.store.games@ + self.buffer.games@,
                    self.store.game_roms@ == w0.store.game_roms@ + expand_membership(
                        self.buffer.game_roms@,
                    ),
                    forall|p: Seq<char>, s: Seq<char>|
                        #[trigger] sample_in(self.store.samples@, p, s) == (sample_in(
                            mid_samples,
                            p,
                            s,
                        ) || (p == pack_entry.0@ && names_has(pack_entry.1@.take(k as int), s))),
                    self.store.devices == w0.store.devices,
                    self.store.disks == w0.store.disks,
                    self.store.game_disks == w0.store.game_disks,
                    self.store.info_name == w0.store.info_name,
                    self.store.info_description == w0.store.info_description,
                    self.store.info_version == w0.store.info_version,
                decreases m - k,
            {
                proof {
                    let pre = pack_entry.1@.take(k as int + 1);
                    assert(pre.drop_last() =~= pack_entry.1@.take(k as int));
                    assert(pre.last() == pack_entry.1@[k as int]);
                }
                let ghost before = self.store.samples@;
                let pack = &self.buffer.samples[i].0;
                let sample = &self.buffer.samples[i].1[k];
                if !sample_row_in(&self.store.samples, pack, sample) {
                    let row = SampleRow { pack: pack.clone(), sample: sample.clone() };
                    self.store.samples.push(row);
                }
                proof {
                    assert forall|p: Seq<char>, s: Seq<char>|
                        #[trigger] sample_in(self.store.samples@, p, s) == (sample_in(
                            mid_samples,
                            p,
                            s,
                        ) || (p == pack_entry.0@ && names_has(
                            pack_entry.1@.take(k as int + 1),
                            s,
                        ))) by {
                        lemma_names_has_push(
                            pack_entry.1@.take(k as int),
                            pack_entry.1@[k as int],
                            s,
                        );
                        if self.store.samples@ != before {
                            lemma_sample_in_push(
                                before,
                                SampleRow { pack: pack_entry.0, sample: pack_entry.1@[k as int] },
                                p,
                                s,
                            );
                        }
                    }
                }
                k = k + 1;
            }
            proof {
                assert(pack_entry.1@.take(m as int) =~= pack_entry.1@);
                assert forall|p: Seq<char>, s: Seq<char>|
                    #[trigger] sample_in(self.store.samples@, p, s) == (sample_in(samples0, p, s)
                        || buffered_sample(
                        self.buffer.samples@.take(i as int + 1),
                        p,
                        s,
                    )) by {
                    assert(self.buffer.samples@.take(i as int + 1) =~= self.buffer.samples@.take(
                        i as int,
                    ).push(pack_entry));
                    lemma_buffered_sample_push(
                        self.buffer.samples@.take(i as int),
                        pack_entry,
                        p,
                        s,
                    );
                }
            }
            i = i + 1;
        }
        proof {
            assert(self.buffer.samples@.take(n_packs as int) =~= self.buffer.samples@);
        }

        // device rows
        let n_devs = self.buffer.device_refs.len();
        let mut i: usize = 0;
        while i < n_devs
            invariant
                0 <= i <= n_devs,
                n_devs == self.buffer.device_refs@.len(),
                self.buffer == w0.buffer,
                self.buffer_size == w0.buffer_size,
                self.store.roms@ == w0.store.roms@ + buf_rows(self.buffer.roms@),
                self.store.games@ == w0.store.games@ + self.buffer.games@,
                self.store.game_roms@ == w0.store.game_roms@ + expand_membership(
                    self.buffer.game_roms@,
                ),
                forall|p: Seq<char>, s: Seq<char>|
                    #[trigger] sample_in(self.store.samples@, p, s) == (sample_in(samples0, p, s)
                        || buffered_sample(self.buffer.samples@, p, s)),
                self.store.devices@ == w0.store.devices@ + expand_devices(
                    self.buffer.device_refs@.take(i as int),
                ),
                self.store.disks == w0.store.disks,
                self.store.game_disks == w0.store.game_disks,
                self.store.info_name == w0.store.info_name,
                self.store.info_description == w0.store.info_description,
                self.store.info_version == w0.store.info_version,
            decreases n_devs - i,
        {
            proof {
                let pre = self.buffer.device_refs@.take(i as int + 1);
                assert(pre.drop_last() =~= self.buffer.device_refs@.take(i as int));
                assert(pre.last() == self.buffer.device_refs@[i as int]);
            }
            let ghost base = self.store.devices@;
            let ghost entry = self.buffer.device_refs@[i as int];
            let m = self.buffer.device_refs[i].1.len();
            let mut k: usize = 0;
            while k < m
                invariant
                    0 <= k <= m,
                    0 <= i < self.buffer.device_refs@.len(),
                    m == self.buffer.device_refs@[i as int].1@.len(),
                    entry == self.buffer.device_refs@[i as int],
                    self.buffer == w0.buffer,
                    self.buffer_size == w0.buffer_size,
                    self.store.roms@ == w0.store.roms@ + buf_rows(self.buffer.roms@),
                    self.store.games@ == w0.store.games@ + self.buffer.games@,
                    self.store.game_roms@ == w0.store.game_roms@ + expand_membership(
                        self.buffer.game_roms@,
                    ),
                    forall|p: Seq<char>, s: Seq<char>|
                        #[trigger] sample_in(self.store.samples@, p, s) == (sample_in(
                            samples0,
                            p,
                            s,
                        ) || buffered_sample(self.buffer.samples@, p, s)),
                    self.store.devices@ == base + device_rows(entry.0, entry.1@.take(k as int)),
                    self.store.disks == w0.store.disks,
                    self.store.game_disks == w0.store.game_disks,
                    self.store.info_name == w0.store.info_name,
                    self.store.info_description == w0.store.info_description,
                    self.store.info_version == w0.store.info_version,
                decreases m - k,
            {
                proof {
                    let pre = entry.1@.take(k as int + 1);
                    assert(pre.drop_last() =~= entry.1@.take(k as int));
                    assert(pre.last() == entry.1@[k as int]);
                }
                let game_name = self.buffer.device_refs[i].0.clone();
                let device_ref = self.buffer.device_refs[i].1[k].clone();
                self.store.devices.push(DeviceRow { game: game_name, device_ref });
                proof {
                    assert(self.store.devices@ =~= base + device_rows(
                        entry.0,
                        entry.1@.take(k as int + 1),
                    ));
                }
                k = k + 1;
            }
            proof {
                assert(entry.1@.take(m as int) =~= entry.1@);
                assert(self.store.devices@ =~= w0.store.devices@ + expand_devices(
                    self.buffer.device_refs@.take(i as int + 1),
                ));
            }
            i = i + 1;
        }
        proof {
            assert(self.buffer.device_refs@.take(n_devs as int) =~= self.buffer.device_refs@);
        }

        // disk rows
        let n_disks = self.buffer.disks.len();
        let mut i: usize = 0;
        while i < n_disks
            invariant
                0 <= i <= n_disks,
                n_disks == self.buffer.disks@.len(),
                self.buffer == w0.buffer,
                self.buffer_size == w0.buffer_size,
                self.store.roms@ == w0.store.roms@ + buf_rows(self.buffer.roms@),
                self.store.games@ == w0.store.games@ + self.buffer.games@,
                self.store.game_roms@ == w0.store.game_roms@ + expand_membership(
                    self.buffer.game_roms@,
                ),
                forall|p: Seq<char>, s: Seq<char>|
                    #[trigger] sample_in(self.store.samples@, p, s) == (sample_in(samples0, p, s)
                        || buffered_sample(self.buffer.samples@, p, s)),
                self.store.devices@ == w0.store.devices@ + expand_devices(
                    self.buffer.device_refs@,
                ),
                self.store.disks@ == w0.store.disks@ + buf_rows(self.buffer.disks@.take(i as int)),
                self.store.game_disks == w0.store.game_disks,
                self.store.info_name == w0.store.info_name,
                self.store.info_description == w0.store.info_description,
                self.store.info_version == w0.store.info_version,
            decreases n_disks - i,
        {
            proof {
                let pre = self.buffer.disks@.take(i as int + 1);
                assert(pre.drop_last() =~= self.buffer.disks@.take(i as int));
                assert(pre.last() == self.buffer.disks@[i as int]);
            }
            let f = self.buffer.disks[i].0.duplicate();
            let id = self.buffer.disks[i].1;
            self.store.disks.push(RomRow { id, file: f });
            proof {
                assert(self.store.disks@ =~= w0.store.disks@ + buf_rows(
                    self.buffer.disks@.take(i as int + 1),
                ));
            }
            i = i + 1;
        }
        proof {
            assert(self.buffer.disks@.take(n_disks as int) =~= self.buffer.disks@);
        }

        // disk membership rows
        let n_dentries = self.buffer.game_disks.len();
        let mut i: usize = 0;
        while i < n_dentries
            invariant
                0 <= i <= n_dentries,
                n_dentries == self.buffer.game_disks@.len(),
                self.buffer == w0.buffer,
                self.buffer_size == w0.buffer_size,
                self.store.roms@ == w0.store.roms@ + buf_rows(self.buffer.roms@),
                self.store.games@ == w0.store.games@ + self.buffer.games@,
                self.store.game_roms@ == w0.store.game_roms@ + expand_membership(
                    self.buffer.game_roms@,
                ),
                forall|p: Seq<char>, s: Seq<char>|
                    #[trigger] sample_in(self.store.samples@, p, s) == (sample_in(samples0, p, s)
                        || buffered_sample(self.buffer.samples@, p, s)),
                self.store.devices@ == w0.store.devices@ + expand_devices(
                    self.buffer.device_refs@,
                ),
                self.store.disks@ == w0.store.disks@ + buf_rows(self.buffer.disks@),
                self.store.game_disks@ == w0.store.game_disks@ + expand_membership(
                    self.buffer.game_disks@.take(i as int),
                ),
                self.store.info_name == w0.store.info_name,
                self.store.info_description == w0.store.info_description,
                self.store.info_version == w0.store.info_version,
            decreases n_dentries - i,
        {
            proof {
                let pre = self.buffer.game_disks@.take(i as int + 1);
                assert(pre.drop_last() =~= self.buffer.game_disks@.take(i as int));
                assert(pre.last() == self.buffer.game_disks@[i as int]);
            }
            let ghost base = self.store.game_disks@;
            let ghost entry = self.buffer.game_disks@[i as int];
            let m = self.buffer.game_disks[i].1.len();
            let mut k: usize = 0;
            while k < m
                invariant
                    0 <= k <= m,
                    0 <= i < self.buffer.game_disks@.len(),
                    m == self.buffer.game_disks@[i as int].1@.len(),
                    entry == self.buffer.game_disks@[i as int],
                    self.buffer == w0.buffer,
                    self.buffer_size == w0.buffer_size,
                    self.store.roms@ == w0.store.roms@ + buf_rows(self.buffer.roms@),
                    self.store.games@ == w0.store.games@ + self.buffer.games@,
                    self.store.game_roms@ == w0.store.game_roms@ + expand_membership(
                        self.buffer.game_roms@,
                    ),
                    forall|p: Seq<char>, s: Seq<char>|
                        #[trigger] sample_in(self.store.samples@, p, s) == (sample_in(
                            samples0,
                            p,
                            s,
                        ) || buffered_sample(self.buffer.samples@, p, s)),
                    self.store.devices@ == w0.store.devices@ + expand_devices(
                        self.buffer.device_refs@,
                    ),
                    self.store.disks@ == w0.store.disks@ + buf_rows(self.buffer.disks@),
                    self.store.game_disks@ == base + entry_rows(entry.0, entry.1@.take(k as int)),
                    self.store.info_name == w0.store.info_name,
                    self.store.info_description == w0.store.info_description,
                    self.store.info_version == w0.store.info_version,
                decreases m - k,
            {
                proof {
                    let pre = entry.1@.take(k as int + 1);
                    assert(pre.drop_last() =~= entry.1@.take(k as int));
                    assert(pre.last() == entry.1@[k as int]);
                }
                let game_name = self.buffer.game_disks[i].0.clone();
                let disk_id = self.buffer.game_disks[i].1[k].0;
                let local = self.buffer.game_disks[i].1[k].1.clone();
                self.store.game_disks.push(
                    GameRom { game: game_name, rom_id: disk_id, name: local, parent: Option::None },
                );
                proof {
                    assert(self.store.game_disks@ =~= base + entry_rows(
                        entry.0,
                        entry.1@.take(k as int + 1),
                    ));
                }
                k = k + 1;
            }
            proof {
                assert(entry.1@.take(m as int) =~= entry.1@);
                assert(self.store.game_disks@ =~= w0.store.game_disks@ + expand_membership(
                    self.buffer.game_disks@.take(i as int + 1),
                ));
            }
            i = i + 1;
        }
        proof {
            assert(self.buffer.game_disks@.take(n_dentries as int) =~= self.buffer.game_disks@);
        }

        // clear the buffer; the id counters stay
        self.buffer.roms.clear();
        self.buffer.games.clear();
        self.buffer.game_roms.clear();
        self.buffer.disks.clear();
        self.buffer.game_disks.clear();
        self.buffer.samples.clear();
        self.buffer.device_refs.clear();

        proof {
            lemma_buf_rows(w0.buffer.roms@);
            let s0 = w0.store.roms@;
            let b = w0.buffer.roms@;
            let c = self.store.roms@;
            assert forall|x: int, y: int| 0 <= x < y < c.len() implies (#[trigger] c[x]).id != (
            #[trigger] c[y]).id && !same_rom(c[x].file@, c[y].file@) by {
                if y >= s0.len() {
                    assert(c[y] == buf_rows(b)[y - s0.len()]);
                    if x >= s0.len() {
                        assert(c[x] == buf_rows(b)[x - s0.len()]);
                    } else {
                        assert(c[x] == s0[x]);
                        if c[x].id == c[y].id {
                            assert(has_rom_id(s0, b[y - s0.len()].1));
                            assert(false);
                        }
                        if same_rom(c[x].file@, c[y].file@) {
                            assert(crate::store::has_rom_key(s0, b[y - s0.len()].0@));
                            assert(false);
                        }
                    }
                } else {
                    assert(c[x] == s0[x] && c[y] == s0[y]);
                }
            }
            let g0 = w0.store.games@;
            let gb = w0.buffer.games@;
            let gc = self.store.games@;
            assert forall|x: int, y: int| 0 <= x < y < gc.len() implies (#[trigger] gc[x]).name@
                != (#[trigger] gc[y]).name@ by {
                if y >= g0.len() {
                    assert(gc[y] == gb[y - g0.len()]);
                    if x >= g0.len() {
                        assert(gc[x] == gb[x - g0.len()]);
                    } else {
                        assert(gc[x] == g0[x]);
                        if gc[x].name@ == gc[y].name@ {
                            assert(w0.store.has_game(gb[y - g0.len()].name@));
                            assert(false);
                        }
                    }
                } else {
                    assert(gc[x] == g0[x] && gc[y] == g0[y]);
                }
            }
            lemma_expand_membership_rows(w0.buffer.game_roms@);
            let mr0 = w0.store.game_roms@;
            let mrc = self.store.game_roms@;
            assert forall|r: int| 0 <= r < mrc.len() implies has_rom_id(
                self.store.roms@,
                (#[trigger] mrc[r]).rom_id,
            ) by {
                if r < mr0.len() {
                    assert(mrc[r] == mr0[r]);
                    assert(has_rom_id(s0, mr0[r].rom_id));
                    let w = choose|w: int| 0 <= w < s0.len() && (#[trigger] s0[w]).id == mr0[
                        r].rom_id;
                    assert(c[w].id == mr0[r].rom_id);
                } else {
                    let row = mrc[r];
                    assert(row == expand_membership(w0.buffer.game_roms@)[r - mr0.len()]);
                    let (ei, ek) = choose|ei: int, ek: int|
                        0 <= ei < w0.buffer.game_roms@.len() && 0 <= ek < w0.buffer.game_roms@[
                            ei].1@.len() && #[trigger] expand_membership(w0.buffer.game_roms@)[r
                            - mr0.len()] == (GameRom {
                            game: w0.buffer.game_roms@[ei].0,
                            rom_id: w0.buffer.game_roms@[ei].1@[ek].0,
                            name: w0.buffer.game_roms@[ei].1@[ek].1,
                            parent: Option::None,
                        });
                    assert(id_known(w0, w0.buffer.game_roms@[ei].1@[ek].0));
                    let idv = w0.buffer.game_roms@[ei].1@[ek].0;
                    if has_rom_id(s0, idv) {
                        let w = choose|w: int| 0 <= w < s0.len() && (#[trigger] s0[w]).id == idv;
                        assert(c[w].id == idv);
                    } else {
                        let w = choose|w: int| 0 <= w < b.len() && (#[trigger] b[w]).1 == idv;
                        assert(c[s0.len() + w] == buf_rows(b)[w]);
                        assert(c[s0.len() + w].id == idv);
                    }
                }
            }
            assert forall|x: int| 0 <= x < c.len() implies (#[trigger] c[x]).id
                < self.buffer.ids.rom by {
                if x >= s0.len() {
                    assert(c[x] == buf_rows(b)[x - s0.len()]);
                }
            }
            lemma_buf_rows(w0.buffer.disks@);
            let ds0 = w0.store.disks@;
            let db = w0.buffer.disks@;
            let dc = self.store.disks@;
            assert forall|x: int, y: int| 0 <= x < y < dc.len() implies (#[trigger] dc[x]).id != (
            #[trigger] dc[y]).id && !same_rom(dc[x].file@, dc[y].file@) by {
                if y >= ds0.len() {
                    assert(dc[y] == buf_rows(db)[y - ds0.len()]);
                    if x >= ds0.len() {
                        assert(dc[x] == buf_rows(db)[x - ds0.len()]);
                    } else {
                        assert(dc[x] == ds0[x]);
                        if dc[x].id == dc[y].id {
                            assert(has_rom_id(ds0, db[y - ds0.len()].1));
                            assert(false);
                        }
                        if same_rom(dc[x].file@, dc[y].file@) {
                            assert(crate::store::has_rom_key(ds0, db[y - ds0.len()].0@));
                            assert(false);
                        }
                    }
                } else {
                    assert(dc[x] == ds0[x] && dc[y] == ds0[y]);
                }
            }
            lemma_expand_membership_rows(w0.buffer.game_disks@);
            let dmr0 = w0.store.game_disks@;
            let dmrc = self.store.game_disks@;
            assert forall|r: int| 0 <= r < dmrc.len() implies has_rom_id(
                self.store.disks@,
                (#[trigger] dmrc[r]).rom_id,
            ) by {
                if r < dmr0.len() {
                    assert(dmrc[r] == dmr0[r]);
                    assert(has_rom_id(ds0, dmr0[r].rom_id));
                    let w = choose|w: int| 0 <= w < ds0.len() && (#[trigger] ds0[w]).id == dmr0[
                        r].rom_id;
                    assert(dc[w].id == dmr0[r].rom_id);
                } else {
                    let row = dmrc[r];
                    assert(row == expand_membership(w0.buffer.game_disks@)[r - dmr0.len()]);
                    let (ei, ek) = choose|ei: int, ek: int|
                        0 <= ei < w0.buffer.game_disks@.len() && 0 <= ek < w0.buffer.game_disks@[
                            ei].1@.len() && #[trigger] expand_membership(w0.buffer.game_disks@)[r
                            - dmr0.len()] == (GameRom {
                            game: w0.buffer.game_disks@[ei].0,
                            rom_id: w0.buffer.game_disks@[ei].1@[ek].0,
                            name: w0.buffer.game_disks@[ei].1@[ek].1,
                            parent: Option::None,
                        });
                    assert(disk_id_known(w0, w0.buffer.game_disks@[ei].1@[ek].0));
                    let idv = w0.buffer.game_disks@[ei].1@[ek].0;
                    if has_rom_id(ds0, idv) {
                        let w = choose|w: int| 0 <= w < ds0.len() && (#[trigger] ds0[w]).id == idv;
                        assert(dc[w].id == idv);
                    } else {
                        let w = choose|w: int| 0 <= w < db.len() && (#[trigger] db[w]).1 == idv;
                        assert(dc[ds0.len() + w] == buf_rows(db)[w]);
                        assert(dc[ds0.len() + w].id == idv);
                    }
                }
            }
            assert forall|x: int| 0 <= x < dc.len() implies (#[trigger] dc[x]).id
                < self.buffer.ids.disk by {
                if x >= ds0.len() {
                    assert(dc[x] == buf_rows(db)[x - ds0.len()]);
                }
            }
        }
    }

    /// Resolves each disk entry to its disk id — committed rows first, then
    /// the session buffer, then a freshly allocated id — and hands back the
    /// (id, local name) pairs with exact repetitions removed.
    pub fn get_disk_ids(&mut self, disks: Vec<DataFile>) -> (r: Vec<(u32, String)>)
        requires
            old(self).wf(),
            old(self).buffer.ids.disk + disks@.len() <= u32::MAX,
        ensures
            final (self).wf(),
            final (self).store == old(self).store,
            final (self).buffer_size == old(self).buffer_size,
            final (self).buffer.games == old(self).buffer.games,
            final (self).buffer.game_roms == old(self).buffer.game_roms,
            final (self).buffer.roms == old(self).buffer.roms,
            final (self).buffer.game_disks == old(self).buffer.game_disks,
            final (self).buffer.samples == old(self).buffer.samples,
            final (self).buffer.device_refs == old(self).buffer.device_refs,
            final (self).buffer.ids.rom == old(self).buffer.ids.rom,
            final (self).buffer.ids.disk >= old(self).buffer.ids.disk,
            final (self).buffer.ids.disk <= old(self).buffer.ids.disk + disks@.len(),
            final (self).buffer.disks@.take(old(self).buffer.disks@.len() as int) == old(
                self,
            ).buffer.disks@,
            old(self).buffer.disks@.len() <= final (self).buffer.disks@.len(),
            final (self).buffer.disks@.len() <= old(self).buffer.disks@.len() + count_unseen_disks(
                *old(self),
                disks@,
            ),
            forall|q: DataFileV|
                disk_eff_id(*old(self), q) is Some ==> #[trigger] disk_eff_id(*final (self), q)
                    == disk_eff_id(*old(self), q),
            forall|k: int|
                0 <= k < disks@.len() ==> disk_eff_id(*final (self), (#[trigger] disks@[k])@) is Some,
            forall|k: int|
                0 <= k < disks@.len() ==> pair_in(
                    r@,
                    disk_eff_id(*final (self), (#[trigger] disks@[k])@)->0,
                    disks@[k].name@,
                ),
            forall|a: int|
                0 <= a < r@.len() ==> exists|k: int|
                    0 <= k < disks@.len() && (#[trigger] disks@[k]).name@ == (#[trigger] r@[a]).1@
                        && disk_eff_id(*final (self), disks@[k]@) == Option::Some(r@[a].0),
            forall|a: int, b: int|
                0 <= a < b < r@.len() ==> !((#[trigger] r@[a]).0 == (#[trigger] r@[b]).0 && r@[a].1@
                    == r@[b].1@),
            forall|a: int| 0 <= a < r@.len() ==> disk_id_known(*final (self), (#[trigger] r@[a]).0),
            forall|a: int, b: int|
                0 <= a < b < r@.len() ==> (#[trigger] r@[a]).0 <= (#[trigger] r@[b]).0,
            r@.len() <= disks@.len(),
    {
        let mut raw: Vec<(u32, String)> = Vec::new();
        let n = disks.len();
        let mut k: usize = 0;
        let all = FileChecks::all();
        while k < n
            invariant
                0 <= k <= n,
                n == disks@.len(),
                all == FileChecks::all_spec(),
                self.wf(),
                self.store == old(self).store,
                self.buffer_size == old(self).buffer_size,
                self.buffer.games == old(self).buffer.games,
                self.buffer.game_roms == old(self).buffer.game_roms,
                self.buffer.roms == old(self).buffer.roms,
                self.buffer.game_disks == old(self).buffer.game_disks,
                self.buffer.samples == old(self).buffer.samples,
                self.buffer.device_refs == old(self).buffer.device_refs,
                self.buffer.ids.rom == old(self).buffer.ids.rom,
                self.buffer.ids.disk >= old(self).buffer.ids.disk,
                self.buffer.ids.disk <= old(self).buffer.ids.disk + k,
                self.buffer.ids.disk + (n - k) <= u32::MAX,
                old(self).buffer.disks@.len() <= self.buffer.disks@.len(),
                self.buffer.disks@.len() <= old(self).buffer.disks@.len() + count_unseen_disks(
                    *old(self),
                    disks@.take(k as int),
                ),
                forall|q: DataFileV|
                    disk_eff_id(*old(self), q) is Some ==> #[trigger] disk_eff_id(*self, q)
                        == disk_eff_id(*old(self), q),
                self.buffer.disks@.take(old(self).buffer.disks@.len() as int) == old(
                    self,
                ).buffer.disks@,
                raw@.len() == k,
                forall|t: int| 0 <= t < k ==> disk_eff_id(*self, (#[trigger] disks@[t])@) is Some,
                forall|t: int|
                    0 <= t < k ==> (#[trigger] raw@[t]).1 == disks@[t].name && Option::Some(
                        raw@[t].0,
                    ) == disk_eff_id(*self, disks@[t]@),
            decreases n - k,
        {
            let ghost pre_self = *self;
            proof {
                let pre = disks@.take(k as int + 1);
                assert(pre.drop_last() =~= disks@.take(k as int));
                assert(pre.last() == disks@[k as int]);
            }
            let f = &disks[k];
            let found = match self.store.lookup_disk_id(f, all) {
                Option::Some(id) => Option::Some(id),
                Option::None => self.buffer.disk_id_for(f),
            };
            match found {
                Option::Some(id) => {
                    proof {
                        crate::store::lemma_lookup_props(self.store.disks@, f@, all);
                        lemma_buf_lookup_props(self.buffer.disks@, f@);
                    }
                    raw.push((id, f.name.clone()));
                },
                Option::None => {
                    let id = self.buffer.ids.get_next_disk();
                    let nm = f.name.clone();
                    let fd = f.duplicate();
                    self.buffer.disks.push((fd, id));
                    raw.push((id, nm));
                    proof {
                        let buf0 = pre_self.buffer.disks@;
                        let buf1 = self.buffer.disks@;
                        assert(buf1 == buf0.push((fd, id)));
                        assert(buf1.drop_last() =~= buf0);
                        lemma_buf_lookup_props(buf0, f@);
                        // the new key is absent from the committed table
                        assert forall|i: int|
                            0 <= i < self.store.disks@.len() implies !same_rom(
                            (#[trigger] self.store.disks@[i]).file@,
                            f@,
                        ) by {
                            crate::store::lemma_lookup_props(self.store.disks@, f@, all);
                            if same_rom(self.store.disks@[i].file@, f@) {
                                crate::files::lemma_same_rom_matches(
                                    f@,
                                    self.store.disks@[i].file@,
                                    all,
                                );
                            }
                        }
                        // freshness of the id
                        assert(!has_rom_id(self.store.disks@, id));
                        assert(!buf_has_id(buf0, id));
                        // membership rows still point at known ids
                        assert forall|i: int, t: int|
                            0 <= i < self.buffer.game_disks@.len() && 0 <= t < (
                            #[trigger] self.buffer.game_disks@[i]).1@.len() implies disk_id_known(
                            *self,
                            (#[trigger] self.buffer.game_disks@[i].1@[t]).0,
                        ) by {
                            assert(disk_id_known(pre_self, self.buffer.game_disks@[i].1@[t].0));
                            let idt = self.buffer.game_disks@[i].1@[t].0;
                            if buf_has_id(buf0, idt) {
                                let w = choose|w: int|
                                    0 <= w < buf0.len() && (#[trigger] buf0[w]).1 == idt;
                                assert(buf1[w].1 == idt);
                            }
                        }
                        // any key resolved before keeps resolving to the same id
                        assert forall|q: DataFileV|
                            disk_eff_id(pre_self, q) is Some implies #[trigger] disk_eff_id(
                            *self,
                            q,
                        ) == disk_eff_id(pre_self, q) by {
                            if same_rom(fd@, q) {
                                if lookup_spec(self.store.disks@, q, all) is Some {
                                    crate::store::lemma_lookup_same_key(
                                        self.store.disks@,
                                        fd@,
                                        q,
                                        all,
                                    );
                                    crate::store::lemma_lookup_props(self.store.disks@, fd@, all);
                                    assert(false);
                                } else {
                                    lemma_buf_lookup_props(buf0, q);
                                    let w = choose|w: int|
                                        0 <= w < buf0.len() && same_rom((#[trigger] buf0[w]).0@, q);
                                    assert(same_rom(buf0[w].0@, fd@));
                                    assert(false);
                                }
                            }
                        }
                        assert forall|t: int| 0 <= t < k implies disk_eff_id(
                            *self,
                            (#[trigger] disks@[t])@,
                        ) == disk_eff_id(pre_self, disks@[t]@) by {
                            assert(disk_eff_id(pre_self, disks@[t]@) is Some);
                        }
                        assert(disk_eff_id(*old(self), disks@[k as int]@) is None) by {
                            if disk_eff_id(*old(self), disks@[k as int]@) is Some {
                                assert(disk_eff_id(pre_self, disks@[k as int]@) == disk_eff_id(
                                    *old(self),
                                    disks@[k as int]@,
                                ));
                            }
                        }
                        let gl = old(self).buffer.disks@.len() as int;
                        assert(buf0.take(gl).len() == gl);
                        assert(gl <= buf0.len());
                        assert forall|x: int| 0 <= x < gl implies buf1[x] == buf0[x] by {}
                        assert(buf1.take(gl) =~= buf0.take(gl));
                    }
                },
            }
            k = k + 1;
        }
        let r = dedup_sort_pairs(raw);
        proof {
            assert(disks@.take(n as int) =~= disks@);
            assert forall|kk: int| 0 <= kk < disks@.len() implies pair_in(
                r@,
                disk_eff_id(*self, (#[trigger] disks@[kk])@)->0,
                disks@[kk].name@,
            ) by {
                assert(raw@[kk].1 == disks@[kk].name && Option::Some(raw@[kk].0) == disk_eff_id(
                    *self,
                    disks@[kk]@,
                ));
                assert(pair_in(raw@, raw@[kk].0, raw@[kk].1@));
            }
            assert forall|a: int| 0 <= a < r@.len() implies (exists|kk: int|
                0 <= kk < disks@.len() && (#[trigger] disks@[kk]).name@ == r@[a].1@ && disk_eff_id(
                    *self,
                    disks@[kk]@,
                ) == Option::Some(r@[a].0)) && disk_id_known(*self, r@[a].0) by {
                assert(is_input_pair(r@, raw@, a));
                let t = choose|t: int| 0 <= t < raw@.len() && r@[a] == #[trigger] raw@[t];
                assert(disks@[t].name@ == r@[a].1@);
                assert(disk_eff_id(*self, disks@[t]@) == Option::Some(r@[a].0));
                match lookup_spec(self.store.disks@, disks@[t]@, FileChecks::all_spec()) {
                    Option::Some(_) => {
                        crate::store::lemma_lookup_props(
                            self.store.disks@,
                            disks@[t]@,
                            FileChecks::all_spec(),
                        );
                    },
                    Option::None => {
                        lemma_buf_lookup_props(self.buffer.disks@, disks@[t]@);
                    },
                }
            }
        }
        r
    }
    /// Buffers one game record and flushes once the buffer reaches the
    /// threshold. The caller has already ruled the name out as a duplicate.
    pub fn add_game(&mut self, game: Game)
        requires
            old(self).wf(),
            old(self).fill_ok(),
            !game_known(*old(self), game.name@),
        ensures
            final (self).wf(),
            final (self).fill_ok(),
            final (self).buffer_size == old(self).buffer_size,
            final (self).buffer.ids == old(self).buffer.ids,
            game_known(*final (self), game.name@),
            forall|n: Seq<char>|
                #[trigger] game_known(*final (self), n) == (game_known(*old(self), n) || n
                    == game.name@),
            final (self).buffer.samples@.len() <= old(self).buffer.samples@.len(),
            final (self).buffer.games@.len() + final (self).buffer.samples@.len() <= 65535,
            final (self).store.games@.len() + final (self).buffer.games@.len() == old(
                self,
            ).store.games@.len() + old(self).buffer.games@.len() + 1,
            rom_row_count(*final (self)) == rom_row_count(*old(self)),
            disk_row_count(*final (self)) == disk_row_count(*old(self)),
            membership_total(*final (self)) == membership_total(*old(self)),
            disk_membership_total(*final (self)) == disk_membership_total(*old(self)),
            forall|p: Seq<char>, sm: Seq<char>|
                #[trigger] sample_known(*final (self), p, sm) == sample_known(*old(self), p, sm),
            forall|g: Seq<char>, d: Seq<char>|
                #[trigger] device_known(*final (self), g, d) == device_known(*old(self), g, d),
            forall|q: DataFileV|
                eff_id(*old(self), q) is Some ==> #[trigger] eff_id(*final (self), q) is Some,
            forall|q: DataFileV|
                disk_eff_id(*old(self), q) is Some ==> #[trigger] disk_eff_id(
                    *final (self),
                    q,
                ) is Some,
            old(self).buffer.games@.len() + 1 + old(self).buffer.samples@.len() < old(
                self,
            ).buffer_size ==> {
                &&& final (self).store == old(self).store
                &&& final (self).buffer.games@ == old(self).buffer.games@.push(game)
                &&& final (self).buffer.roms == old(self).buffer.roms
                &&& final (self).buffer.game_roms == old(self).buffer.game_roms
                &&& final (self).buffer.disks == old(self).buffer.disks
                &&& final (self).buffer.game_disks == old(self).buffer.game_disks
                &&& final (self).buffer.samples == old(self).buffer.samples
                &&& final (self).buffer.device_refs == old(self).buffer.device_refs
            },
            old(self).buffer.games@.len() + 1 + old(self).buffer.samples@.len() >= old(
                self,
            ).buffer_size ==> {
                &&& final (self).buffer.games@.len() == 0
                &&& final (self).buffer.roms@.len() == 0
                &&& final (self).buffer.game_roms@.len() == 0
                &&& final (self).buffer.disks@.len() == 0
                &&& final (self).buffer.game_disks@.len() == 0
                &&& final (self).buffer.samples@.len() == 0
                &&& final (self).buffer.device_refs@.len() == 0
                &&& final (self).store.roms@ == old(self).store.roms@ + buf_rows(
                    old(self).buffer.roms@,
                )
                &&& final (self).store.games@ == old(self).store.games@ + old(
                    self,
                ).buffer.games@.push(game)
                &&& final (self).store.game_roms@ == old(self).store.game_roms@
                    + expand_membership(old(self).buffer.game_roms@)
                &&& final (self).store.disks@ == old(self).store.disks@ + buf_rows(
                    old(self).buffer.disks@,
                )
                &&& final (self).store.game_disks@ == old(self).store.game_disks@
                    + expand_membership(old(self).buffer.game_disks@)
                &&& final (self).store.devices@ == old(self).store.devices@ + expand_devices(
                    old(self).buffer.device_refs@,
                )
            },
            final (self).buffer.games@.len() + final (self).buffer.samples@.len() < old(
                self,
            ).buffer_size || final (self).buffer.games@.len() + final (self).buffer.samples@.len()
                == 0,
    {
        let ghost w0 = *self;
        self.buffer.add_game(game);
        proof {
            let gb = self.buffer.games@;
            assert forall|i: int, j: int| 0 <= i < j < gb.len() implies (#[trigger] gb[i]).name@
                != (#[trigger] gb[j]).name@ by {
                if j == gb.len() - 1 {
                    assert(gb[i] == w0.buffer.games@[i]);
                    assert(buf_has_game(w0.buffer.games@, gb[i].name@) ==> gb[i].name@
                        != game.name@) by {
                        if gb[i].name@ == game.name@ {
                            assert(buf_has_game(w0.buffer.games@, game.name@));
                        }
                    }
                    if gb[i].name@ == gb[j].name@ {
                        assert(buf_has_game(w0.buffer.games@, game.name@));
                        assert(false);
                    }
                } else {
                    assert(gb[i] == w0.buffer.games@[i] && gb[j] == w0.buffer.games@[j]);
                }
            }
            assert forall|i: int| 0 <= i < gb.len() implies !self.store.has_game(
                (#[trigger] gb[i]).name@,
            ) by {
                if i < gb.len() - 1 {
                    assert(gb[i] == w0.buffer.games@[i]);
                }
            }
            assert(gb[gb.len() - 1].name@ == game.name@);
            assert(buf_has_game(gb, game.name@));
            assert forall|nm: Seq<char>|
                #[trigger] game_known(*self, nm) == (game_known(w0, nm) || nm == game.name@) by {
                if buf_has_game(gb, nm) {
                    let i = choose|i: int|
                        0 <= i < gb.len() && (#[trigger] gb[i]).name@ == nm;
                    if i < gb.len() - 1 {
                        assert(w0.buffer.games@[i].name@ == nm);
                        assert(buf_has_game(w0.buffer.games@, nm));
                    }
                }
                if buf_has_game(w0.buffer.games@, nm) {
                    let i = choose|i: int|
                        0 <= i < w0.buffer.games@.len() && (#[trigger] w0.buffer.games@[i]).name@
                            == nm;
                    assert(gb[i].name@ == nm);
                }
            }
        }
        let ghost w_push = *self;
        let fill = self.buffer.len();
        if fill >= self.buffer_size as usize {
            let ghost w1 = *self;
            self.write_buffer();
            proof {
                assert(game_known(*self, game.name@)) by {
                    if buf_has_game(w1.buffer.games@, game.name@) {
                        let i = choose|i: int|
                            0 <= i < w1.buffer.games@.len() && (#[trigger] w1.buffer.games@[i]).name@
                                == game.name@;
                        let gc = self.store.games@;
                        assert(gc[w1.store.games@.len() + i] == w1.buffer.games@[i]);
                        assert(self.store.has_game(game.name@));
                    } else {
                        let i = choose|i: int|
                            0 <= i < w1.store.games@.len() && (#[trigger] w1.store.games@[i]).name@
                                == game.name@;
                        assert(self.store.games@[i] == w1.store.games@[i]);
                    }
                }
                lemma_buf_rows(w1.buffer.roms@);
                lemma_buf_rows(w1.buffer.disks@);
                lemma_expand_membership_len(w1.buffer.game_roms@);
                lemma_expand_membership_len(w1.buffer.game_disks@);
                assert(self.buffer.game_roms@ =~= Seq::<(String, Vec<(u32, String)>)>::empty());
                assert(self.buffer.game_disks@ =~= Seq::<(String, Vec<(u32, String)>)>::empty());
                assert forall|p: Seq<char>, sm: Seq<char>|
                    #[trigger] sample_known(*self, p, sm) == sample_known(w0, p, sm) by {
                    if buffered_sample(self.buffer.samples@, p, sm) {
                        let i = choose|i: int|
                            0 <= i < self.buffer.samples@.len() && (
                            #[trigger] self.buffer.samples@[i]).0@ == p && names_has(
                                self.buffer.samples@[i].1@,
                                sm,
                            );
                        assert(false);
                    }
                }
                assert forall|g: Seq<char>, d: Seq<char>|
                    #[trigger] device_known(*self, g, d) == device_known(w0, g, d) by {
                    lemma_expand_devices_membership(
                        w1.store.devices@,
                        w1.buffer.device_refs@,
                        g,
                        d,
                    );
                    if buffered_device(self.buffer.device_refs@, g, d) {
                        let i = choose|i: int|
                            0 <= i < self.buffer.device_refs@.len() && (
                            #[trigger] self.buffer.device_refs@[i]).0@ == g && names_has(
                                self.buffer.device_refs@[i].1@,
                                d,
                            );
                        assert(false);
                    }
                }
                lemma_flush_preserves_known(w1, *self);
                assert forall|nm: Seq<char>|
                    #[trigger] game_known(*self, nm) == game_known(w_push, nm) by {
                    let gc = self.store.games@;
                    if self.store.has_game(nm) {
                        let i = choose|i: int|
                            0 <= i < gc.len() && (#[trigger] gc[i]).name@ == nm;
                        if i < w1.store.games@.len() {
                            assert(w1.store.games@[i].name@ == nm);
                        } else {
                            assert(gc[i] == w1.buffer.games@[i - w1.store.games@.len()]);
                            assert(buf_has_game(w1.buffer.games@, nm));
                        }
                    }
                    if w_push.store.has_game(nm) {
                        let i = choose|i: int|
                            0 <= i < w_push.store.games@.len() && (
                            #[trigger] w_push.store.games@[i]).name@ == nm;
                        assert(gc[i].name@ == nm);
                    }
                    if buf_has_game(w_push.buffer.games@, nm) {
                        let i = choose|i: int|
                            0 <= i < w_push.buffer.games@.len() && (
                            #[trigger] w_push.buffer.games@[i]).name@ == nm;
                        assert(gc[w_push.store.games@.len() + i].name@ == nm);
                    }
                }
                assert forall|q: DataFileV|
                    eff_id(w0, q) is Some implies #[trigger] eff_id(*self, q) is Some by {
                    assert(eff_id(w1, q) == eff_id(w0, q));
                }
                assert forall|q: DataFileV|
                    disk_eff_id(w0, q) is Some implies #[trigger] disk_eff_id(*self, q) is Some by {
                    assert(disk_eff_id(w1, q) == disk_eff_id(w0, q));
                }
            }
        }
    }

    /// Accepts one parsed entry: the game record, its ROMs, its disks, its
    /// sample names and its device references. An entry naming itself as its
    /// clone parent or reusing a known game name is rejected whole;
    /// otherwise the game is buffered, each ROM is resolved to a content id
    /// (allocating fresh ids for unseen content), the membership pairs are
    /// recorded under the game, the samples are merged into the game's
    /// sample pack, and the device references are recorded.
    pub fn on_new_entry(
        &mut self,
        game: Game,
        roms: Vec<DataFile>,
        disks: Vec<DataFile>,
        samples: Vec<String>,
        device_refs: Vec<String>,
    ) -> (r: Result<(), RomstError>)
        requires
            old(self).wf(),
            old(self).fill_ok(),
            old(self).buffer.ids.rom + roms@.len() <= u32::MAX,
            old(self).buffer.ids.disk + disks@.len() <= u32::MAX,
        ensures
            final (self).wf(),
            final (self).fill_ok(),
            final (self).buffer_size == old(self).buffer_size,
            crate::files::opt_str_view(game.clone_of) == Option::Some(game.name@) ==> r
                == Result::<(), RomstError>::Err(
                RomstError::SelfReferencingParent { game: game.name },
            ),
            crate::files::opt_str_view(game.clone_of) != Option::Some(game.name@) && game_known(
                *old(self),
                game.name@,
            ) ==> r == Result::<(), RomstError>::Err(
                RomstError::DuplicateGame { game: game.name },
            ),
            r is Err ==> *final (self) == *old(self),
            r is Ok <==> (crate::files::opt_str_view(game.clone_of) != Option::Some(game.name@)
                && !game_known(*old(self), game.name@)),
            r is Ok ==> {
                &&& game_known(*final (self), game.name@)
                &&& forall|k: int|
                    0 <= k < roms@.len() ==> eff_id(*final (self), (#[trigger] roms@[k])@) is Some
                &&& final (self).buffer.game_roms@.len() >= 1
                &&& final (self).buffer.game_roms@.last().0 == game.name
                &&& forall|k: int|
                    0 <= k < roms@.len() ==> pair_in(
                        final (self).buffer.game_roms@.last().1@,
                        eff_id(*final (self), (#[trigger] roms@[k])@)->0,
                        roms@[k].name@,
                    )
                &&& forall|k: int|
                    0 <= k < disks@.len() ==> disk_eff_id(
                        *final (self),
                        (#[trigger] disks@[k])@,
                    ) is Some
                &&& final (self).buffer.game_disks@.len() >= 1
                &&& final (self).buffer.game_disks@.last().0 == game.name
                &&& forall|k: int|
                    0 <= k < disks@.len() ==> pair_in(
                        final (self).buffer.game_disks@.last().1@,
                        disk_eff_id(*final (self), (#[trigger] disks@[k])@)->0,
                        disks@[k].name@,
                    )
                &&& forall|p: Seq<char>, sm: Seq<char>|
                    #[trigger] sample_known(*final (self), p, sm) == (sample_known(
                        *old(self),
                        p,
                        sm,
                    ) || (match game.sample_of {
                        Option::Some(pk) => pk@ == p && names_has(samples@, sm),
                        Option::None => false,
                    }))
                &&& forall|g: Seq<char>, d: Seq<char>|
                    #[trigger] device_known(*final (self), g, d) == (device_known(*old(self), g, d)
                        || (g == game.name@ && names_has(device_refs@, d)))
                &&& final (self).buffer.device_refs@.len() >= 1
                &&& final (self).buffer.device_refs@.last().0 == game.name
                &&& final (self).buffer.device_refs@.last().1 == device_refs
                &&& final (self).store.games@.len() + final (self).buffer.games@.len() == old(
                    self,
                ).store.games@.len() + old(self).buffer.games@.len() + 1
                &&& final (self).buffer.ids.rom <= old(self).buffer.ids.rom + roms@.len()
                &&& final (self).buffer.ids.disk <= old(self).buffer.ids.disk + disks@.len()
                &&& rom_row_count(*old(self)) <= rom_row_count(*final (self))
                &&& rom_row_count(*final (self)) <= rom_row_count(*old(self)) + count_unseen(
                    *old(self),
                    roms@,
                )
                &&& disk_row_count(*old(self)) <= disk_row_count(*final (self))
                &&& disk_row_count(*final (self)) <= disk_row_count(*old(self))
                    + count_unseen_disks(*old(self), disks@)
                &&& membership_total(*final (self)) == membership_total(*old(self))
                    + final (self).buffer.game_roms@.last().1@.len()
                &&& final (self).buffer.game_roms@.last().1@.len() <= roms@.len()
                &&& (roms@.len() > 0 ==> final (self).buffer.game_roms@.last().1@.len() >= 1)
                &&& disk_membership_total(*final (self)) == disk_membership_total(*old(self))
                    + final (self).buffer.game_disks@.last().1@.len()
                &&& final (self).buffer.game_disks@.last().1@.len() <= disks@.len()
                &&& (disks@.len() > 0 ==> final (self).buffer.game_disks@.last().1@.len() >= 1)
                &&& (old(self).buffer.games@.len() + 1 + old(self).buffer.samples@.len() < old(
                    self,
                ).buffer_size ==> final (self).store == old(self).store)
                &&& (old(self).buffer.games@.len() + 1 + old(self).buffer.samples@.len() >= old(
                    self,
                ).buffer_size ==> final (self).store.games@.len() == old(self).store.games@.len()
                    + old(self).buffer.games@.len() + 1 && final (self).buffer.games@.len() == 0)
                &&& forall|n: Seq<char>|
                    #[trigger] game_known(*final (self), n) == (game_known(*old(self), n) || n
                        == game.name@)
            },
    {
        let selfref = match &game.clone_of {
            Option::Some(p) => crate::files::string_eq(p, &game.name),
            Option::None => false,
        };
        if selfref {
            return Result::Err(RomstError::SelfReferencingParent { game: game.name });
        }
        let known = match self.store.game_position(&game.name) {
            Option::Some(_) => true,
            Option::None => buffer_has_game(&self.buffer.games, &game.name),
        };
        if known {
            proof {
                assert(game_known(*old(self), game.name@));
            }
            return Result::Err(RomstError::DuplicateGame { game: game.name });
        }
        proof {
            assert(!game_known(*old(self), game.name@));
        }
        let game_name = game.name.clone();
        let sample_of = crate::files::opt_string_clone(&game.sample_of);
        self.add_game(game);
        let ghost wg = *self;
        let rom_list = self.get_rom_ids(roms);
        let ghost w_ids = *self;
        let ghost rom_list_g = rom_list@;
        self.buffer.add_roms_for_game(game_name, rom_list);
        let ghost w_rmem = *self;
        proof {
            let gr = self.buffer.game_roms@;
            assert forall|i: int, k: int|
                0 <= i < gr.len() && 0 <= k < (#[trigger] gr[i]).1@.len() implies id_known(
                *self,
                (#[trigger] gr[i].1@[k]).0,
            ) by {
                if i < gr.len() - 1 {
                    assert(gr[i] == w_ids.buffer.game_roms@[i]);
                    assert(id_known(w_ids, gr[i].1@[k].0));
                } else {
                    assert(gr[i].1@ == rom_list_g);
                    assert(id_known(w_ids, rom_list_g[k].0));
                }
            }
        }
        let disk_name = self.buffer.game_roms[self.buffer.game_roms.len() - 1].0.clone();
        let disk_list = self.get_disk_ids(disks);
        let ghost w_dids = *self;
        let ghost disk_list_g = disk_list@;
        self.buffer.add_disks_for_game(disk_name, disk_list);
        let ghost w_dmem = *self;
        proof {
            let gd = self.buffer.game_disks@;
            assert forall|i: int, k: int|
                0 <= i < gd.len() && 0 <= k < (#[trigger] gd[i]).1@.len() implies disk_id_known(
                *self,
                (#[trigger] gd[i].1@[k]).0,
            ) by {
                if i < gd.len() - 1 {
                    assert(gd[i] == w_dids.buffer.game_disks@[i]);
                    assert(disk_id_known(w_dids, gd[i].1@[k].0));
                } else {
                    assert(gd[i].1@ == disk_list_g);
                    assert(disk_id_known(w_dids, disk_list_g[k].0));
                }
            }
        }
        let ghost w_mem = *self;
        match sample_of {
            Option::Some(pack) => {
                self.buffer.add_sample_pack(pack, samples);
            },
            Option::None => {},
        }
        let ghost w_smp = *self;
        let device_list = device_refs;
        let game_name2 = self.buffer.game_roms[self.buffer.game_roms.len() - 1].0.clone();
        self.buffer.add_device_refs(game_name2, device_list);
        proof {
            assert(self.buffer.game_roms@.last().0 == game.name);
            assert forall|k: int| 0 <= k < roms@.len() implies eff_id(
                *self,
                (#[trigger] roms@[k])@,
            ) is Some && pair_in(
                self.buffer.game_roms@.last().1@,
                eff_id(*self, roms@[k]@)->0,
                roms@[k].name@,
            ) by {
                assert(eff_id(w_ids, roms@[k]@) is Some);
                assert(eff_id(*self, roms@[k]@) == eff_id(w_ids, roms@[k]@));
                assert(pair_in(rom_list_g, eff_id(w_ids, roms@[k]@)->0, roms@[k].name@));
            }
            assert(game_known(*self, game.name@)) by {
                assert(game_known(w_mem, game.name@));
            }
            assert forall|n: Seq<char>|
                #[trigger] game_known(*self, n) == (game_known(*old(self), n) || n
                    == game.name@) by {
                assert(game_known(*self, n) == game_known(wg, n));
            }
            // id counters grew by at most one fresh id per input
            assert(self.buffer.ids.rom <= old(self).buffer.ids.rom + roms@.len());
            assert(self.buffer.ids.disk <= old(self).buffer.ids.disk + disks@.len());
            // content rows: conserved by the flush, grown only by unseen keys
            lemma_count_unseen_mono(*old(self), wg, roms@);
            lemma_count_unseen_disks_mono(*old(self), wg, disks@);
            assert(rom_row_count(*self) == rom_row_count(w_ids));
            assert(rom_row_count(w_ids) <= rom_row_count(wg) + count_unseen(wg, roms@));
            assert(rom_row_count(*self) <= rom_row_count(*old(self)) + count_unseen(
                *old(self),
                roms@,
            ));
            assert(rom_row_count(*old(self)) <= rom_row_count(*self));
            assert(disk_row_count(*self) == disk_row_count(w_dids));
            assert forall|q: DataFileV|
                disk_eff_id(wg, q) is Some implies #[trigger] disk_eff_id(w_rmem, q) is Some by {}
            lemma_count_unseen_disks_mono(wg, w_rmem, disks@);
            assert(disk_row_count(w_dids) <= disk_row_count(w_rmem) + count_unseen_disks(
                w_rmem,
                disks@,
            ));
            assert(disk_row_count(w_rmem) == disk_row_count(wg));
            assert(disk_row_count(w_dids) <= disk_row_count(wg) + count_unseen_disks(wg, disks@));
            assert(disk_row_count(*self) <= disk_row_count(*old(self)) + count_unseen_disks(
                *old(self),
                disks@,
            ));
            assert(disk_row_count(*old(self)) <= disk_row_count(*self));
            // membership totals: one buffered entry per call
            assert(w_rmem.buffer.game_roms@.drop_last() =~= w_ids.buffer.game_roms@);
            assert(pair_count(w_rmem.buffer.game_roms@) == pair_count(w_ids.buffer.game_roms@)
                + rom_list_g.len());
            assert(membership_total(*self) == membership_total(*old(self)) + rom_list_g.len());
            assert(self.buffer.game_roms@.last().1@ == rom_list_g);
            if roms@.len() > 0 {
                assert(pair_in(rom_list_g, eff_id(w_ids, roms@[0]@)->0, roms@[0].name@));
                let w = choose|w: int|
                    0 <= w < rom_list_g.len() && (#[trigger] rom_list_g[w]).0 == eff_id(
                        w_ids,
                        roms@[0]@,
                    )->0 && rom_list_g[w].1@ == roms@[0].name@;
            }
            assert(w_dmem.buffer.game_disks@.drop_last() =~= w_dids.buffer.game_disks@);
            assert(pair_count(w_dmem.buffer.game_disks@) == pair_count(w_dids.buffer.game_disks@)
                + disk_list_g.len());
            assert(disk_membership_total(*self) == disk_membership_total(*old(self))
                + disk_list_g.len());
            assert(self.buffer.game_disks@.last().1@ == disk_list_g);
            if disks@.len() > 0 {
                assert(pair_in(disk_list_g, disk_eff_id(w_dids, disks@[0]@)->0, disks@[0].name@));
                let w = choose|w: int|
                    0 <= w < disk_list_g.len() && (#[trigger] disk_list_g[w]).0 == disk_eff_id(
                        w_dids,
                        disks@[0]@,
                    )->0 && disk_list_g[w].1@ == disks@[0].name@;
            }
            // samples: one pack merged, everything else untouched
            assert forall|p: Seq<char>, sm: Seq<char>|
                #[trigger] sample_known(*self, p, sm) == (sample_known(*old(self), p, sm) || (
                match game.sample_of {
                    Option::Some(pk) => pk@ == p && names_has(samples@, sm),
                    Option::None => false,
                })) by {
                assert(sample_known(w_mem, p, sm) == sample_known(wg, p, sm));
                assert(sample_known(wg, p, sm) == sample_known(*old(self), p, sm));
                assert(sample_known(*self, p, sm) == sample_known(w_smp, p, sm));
                match sample_of {
                    Option::Some(_) => {},
                    Option::None => {},
                }
            }
            // device references: one list recorded, everything else untouched
            assert forall|g: Seq<char>, d: Seq<char>|
                #[trigger] device_known(*self, g, d) == (device_known(*old(self), g, d) || (g
                    == game.name@ && names_has(device_refs@, d))) by {
                assert(device_known(w_smp, g, d) == device_known(wg, g, d));
                assert(device_known(wg, g, d) == device_known(*old(self), g, d));
                lemma_buffered_device_push(
                    w_smp.buffer.device_refs@,
                    self.buffer.device_refs@.last(),
                    g,
                    d,
                );
                assert(self.buffer.device_refs@ =~= w_smp.buffer.device_refs@.push(
                    self.buffer.device_refs@.last(),
                ));
            }
            // flush visibility
            if old(self).buffer.games@.len() + 1 + old(self).buffer.samples@.len() < old(
                self,
            ).buffer_size {
                assert(wg.store == old(self).store);
                assert(self.store == wg.store);
            } else {
                assert(wg.store.games@.len() == old(self).store.games@.len() + old(
                    self,
                ).buffer.games@.len() + 1);
                assert(self.store == wg.store);
                assert(self.buffer.games@.len() == 0);
            }
        }
        Result::Ok(())
    }

    /// Flushes what the buffer still holds, then runs the parent back-fill:
    /// a membership row of a game whose `clone_of` parent holds the same
    /// content id gets that parent written into its `parent` column; every
    /// other row keeps what it had.
    #[verifier::loop_isolation(false)]
    pub fn finish(&mut self) -> (r: Result<(), RomstError>)
        requires
            old(self).wf(),
            old(self).store.games@.len() + old(self).buffer.games@.len() < usize::MAX,
        ensures
            final (self).wf(),
            final (self).fill_ok(),
            final (self).buffer_size == old(self).buffer_size,
            final (self).buffer.roms@.len() == 0,
            final (self).buffer.games@.len() == 0,
            final (self).buffer.game_roms@.len() == 0,
            final (self).buffer.disks@.len() == 0,
            final (self).buffer.game_disks@.len() == 0,
            final (self).buffer.samples@.len() == 0,
            final (self).buffer.device_refs@.len() == 0,
            final (self).buffer.ids == old(self).buffer.ids,
            final (self).store.roms@ == old(self).store.roms@ + buf_rows(old(self).buffer.roms@),
            final (self).store.games@ == old(self).store.games@ + old(self).buffer.games@,
            final (self).store.disks@ == old(self).store.disks@ + buf_rows(
                old(self).buffer.disks@,
            ),
            final (self).store.game_disks@ == old(self).store.game_disks@ + expand_membership(
                old(self).buffer.game_disks@,
            ),
            final (self).store.devices@ == old(self).store.devices@ + expand_devices(
                old(self).buffer.device_refs@,
            ),
            forall|p: Seq<char>, s: Seq<char>|
                #[trigger] sample_in(final (self).store.samples@, p, s) == (sample_in(
                    old(self).store.samples@,
                    p,
                    s,
                ) || buffered_sample(old(self).buffer.samples@, p, s)),
            final (self).store.game_roms@.len() == (old(self).store.game_roms@
                + expand_membership(old(self).buffer.game_roms@)).len(),
            forall|x: int|
                0 <= x < final (self).store.game_roms@.len() ==> {
                    let mid = old(self).store.game_roms@ + expand_membership(
                        old(self).buffer.game_roms@,
                    );
                    &&& (#[trigger] final (self).store.game_roms@[x]).game == mid[x].game
                    &&& final (self).store.game_roms@[x].rom_id == mid[x].rom_id
                    &&& final (self).store.game_roms@[x].name == mid[x].name
                },
            r is Ok <==> (forall|gi: int|
                0 <= gi < final (self).store.games@.len() ==> chain_resolves(
                    final (self).store.games@,
                    (#[trigger] final (self).store.games@[gi]).name@,
                    (final (self).store.games@.len() + 1) as nat,
                )),
            r matches Result::Err(e) ==> (e matches RomstError::CloneCycle { game } && exists|
                gi: int,
            |
                0 <= gi < final (self).store.games@.len() && (
                #[trigger] final (self).store.games@[gi]).name == game && !chain_resolves(
                    final (self).store.games@,
                    game@,
                    (final (self).store.games@.len() + 1) as nat,
                )),
            r is Err ==> forall|x: int|
                0 <= x < final (self).store.game_roms@.len() ==> (
                #[trigger] final (self).store.game_roms@[x]).parent == (old(self).store.game_roms@
                    + expand_membership(old(self).buffer.game_roms@))[x].parent,
            r is Ok ==> forall|x: int, gi: int|
                0 <= x < final (self).store.game_roms@.len() && 0 <= gi < final (self).store.games@.len() && (#[trigger] final (self).store.games@[gi]).name@ == (
                #[trigger] final (self).store.game_roms@[x]).game@ ==> {
                    let mid = old(self).store.game_roms@ + expand_membership(
                        old(self).buffer.game_roms@,
                    );
                    final (self).store.game_roms@[x].parent == (match final (self).store.games@[gi].clone_of {
                        Option::Some(p) => if parent_has_rom(mid, p@, mid[x].rom_id) {
                            Option::Some(p)
                        } else {
                            mid[x].parent
                        },
                        Option::None => mid[x].parent,
                    })
                },
            r is Ok ==> forall|x: int|
                0 <= x < final (self).store.game_roms@.len() && !final (self).store.has_game(
                    (#[trigger] final (self).store.game_roms@[x]).game@,
                ) ==> final (self).store.game_roms@[x].parent == (old(self).store.game_roms@
                    + expand_membership(old(self).buffer.game_roms@))[x].parent,
    {
        self.write_buffer();
        // reject clone-graph cycles before any parent is written
        let ghost w_flush = *self;
        let gcount = self.store.games.len();
        let fuel = gcount + 1;
        let mut gi: usize = 0;
        while gi < gcount
            invariant
                0 <= gi <= gcount,
                *self == w_flush,
                gcount == self.store.games@.len(),
                fuel == gcount + 1,
                forall|x: int|
                    0 <= x < gi ==> chain_resolves(
                        self.store.games@,
                        (#[trigger] self.store.games@[x]).name@,
                        fuel as nat,
                    ),
            decreases gcount - gi,
        {
            let resolves = chain_resolves_exec(&self.store.games, &self.store.games[gi].name, fuel);
            if !resolves {
                let bad = self.store.games[gi].name.clone();
                return Result::Err(RomstError::CloneCycle { game: bad });
            }
            gi = gi + 1;
        }
        let ghost mid = self.store.game_roms@;
        let ghost games_g = self.store.games@;
        let n = self.store.game_roms.len();
        let mut x: usize = 0;
        while x < n
            invariant
                0 <= x <= n,
                n == self.store.game_roms@.len(),
                mid.len() == n,
                self.store.games@ == games_g,
                forall|g: int|
                    0 <= g < games_g.len() ==> chain_resolves(
                        games_g,
                        (#[trigger] games_g[g]).name@,
                        (games_g.len() + 1) as nat,
                    ),
                self.store.roms@ == (old(self).store.roms@ + buf_rows(old(self).buffer.roms@)),
                self.store.games@ == (old(self).store.games@ + old(self).buffer.games@),
                self.store.devices@ == (old(self).store.devices@ + expand_devices(
                    old(self).buffer.device_refs@,
                )),
                forall|p: Seq<char>, s: Seq<char>|
                    #[trigger] sample_in(self.store.samples@, p, s) == (sample_in(
                        old(self).store.samples@,
                        p,
                        s,
                    ) || buffered_sample(old(self).buffer.samples@, p, s)),
                self.store.info_name == old(self).store.info_name,
                self.store.info_description == old(self).store.info_description,
                self.store.info_version == old(self).store.info_version,
                self.buffer.roms@.len() == 0,
                self.buffer.games@.len() == 0,
                self.buffer.game_roms@.len() == 0,
                self.buffer.disks@.len() == 0,
                self.buffer.game_disks@.len() == 0,
                self.buffer.samples@.len() == 0,
                self.buffer.device_refs@.len() == 0,
                self.buffer.ids == old(self).buffer.ids,
                self.buffer_size == old(self).buffer_size,
                self.store.disks@ == (old(self).store.disks@ + buf_rows(old(self).buffer.disks@)),
                self.store.game_disks@ == (old(self).store.game_disks@ + expand_membership(
                    old(self).buffer.game_disks@,
                )),
                forall|i: int|
                    0 <= i < self.store.disks@.len() ==> (#[trigger] self.store.disks@[i]).id
                        < self.buffer.ids.disk,
                forall|i: int, j: int|
                    0 <= i < j < self.store.disks@.len() ==> (#[trigger] self.store.disks@[i]).id
                        != (#[trigger] self.store.disks@[j]).id,
                forall|i: int, j: int|
                    0 <= i < j < self.store.disks@.len() ==> !same_rom(
                        (#[trigger] self.store.disks@[i]).file@,
                        (#[trigger] self.store.disks@[j]).file@,
                    ),
                forall|i: int|
                    0 <= i < self.store.game_disks@.len() ==> has_rom_id(
                        self.store.disks@,
                        (#[trigger] self.store.game_disks@[i]).rom_id,
                    ),
                forall|y: int|
                    x <= y < n ==> #[trigger] self.store.game_roms@[y] == mid[y],
                forall|y: int|
                    0 <= y < n ==> (#[trigger] self.store.game_roms@[y]).game == mid[y].game
                        && self.store.game_roms@[y].rom_id == mid[y].rom_id
                        && self.store.game_roms@[y].name == mid[y].name,
                forall|y: int, gi: int|
                    0 <= y < x && 0 <= gi < games_g.len() && (#[trigger] games_g[gi]).name@ == (
                    #[trigger] self.store.game_roms@[y]).game@ ==> self.store.game_roms@[y].parent
                        == (match games_g[gi].clone_of {
                        Option::Some(p) => if parent_has_rom(mid, p@, mid[y].rom_id) {
                            Option::Some(p)
                        } else {
                            mid[y].parent
                        },
                        Option::None => mid[y].parent,
                    }),
                forall|y: int|
                    0 <= y < x && !self.store.has_game((#[trigger] self.store.game_roms@[y]).game@)
                        ==> self.store.game_roms@[y].parent == mid[y].parent,
                forall|i: int|
                    0 <= i < self.store.roms@.len() ==> (#[trigger] self.store.roms@[i]).id
                        < self.buffer.ids.rom,
                forall|i: int, j: int|
                    0 <= i < j < self.store.roms@.len() ==> (#[trigger] self.store.roms@[i]).id != (
                    #[trigger] self.store.roms@[j]).id,
                forall|i: int, j: int|
                    0 <= i < j < self.store.roms@.len() ==> !same_rom(
                        (#[trigger] self.store.roms@[i]).file@,
                        (#[trigger] self.store.roms@[j]).file@,
                    ),
                forall|i: int, j: int|
                    0 <= i < j < self.store.games@.len() ==> (#[trigger] self.store.games@[i]).name@
                        != (#[trigger] self.store.games@[j]).name@,
                forall|i: int|
                    0 <= i < self.store.game_roms@.len() ==> has_rom_id(
                        self.store.roms@,
                        (#[trigger] self.store.game_roms@[i]).rom_id,
                    ),
            decreases n - x,
        {
            let gname = self.store.game_roms[x].game.clone();
            let rid = self.store.game_roms[x].rom_id;
            let pos = self.store.game_position(&gname);
            let ghost pre_rows = self.store.game_roms@;
            match pos {
                Option::Some(gi) => {
                    let clone_of = crate::files::opt_string_clone(&self.store.games[gi].clone_of);
                    match clone_of {
                        Option::Some(p) => {
                            let has = rows_have_parent(&self.store.game_roms, &p, rid);
                            proof {
                                assert(parent_has_rom(self.store.game_roms@, p@, rid)
                                    == parent_has_rom(mid, p@, rid)) by {
                                    if parent_has_rom(self.store.game_roms@, p@, rid) {
                                        let w = choose|w: int|
                                            0 <= w < self.store.game_roms@.len() && (
                                            #[trigger] self.store.game_roms@[w]).game@ == p@
                                                && self.store.game_roms@[w].rom_id == rid;
                                        assert(mid[w].game@ == p@ && mid[w].rom_id == rid);
                                    }
                                    if parent_has_rom(mid, p@, rid) {
                                        let w = choose|w: int|
                                            0 <= w < mid.len() && (#[trigger] mid[w]).game@ == p@
                                                && mid[w].rom_id == rid;
                                        assert(self.store.game_roms@[w].game@ == p@
                                            && self.store.game_roms@[w].rom_id == rid);
                                    }
                                }
                            }
                            if has {
                                let old_row = &self.store.game_roms[x];
                                let new_row = GameRom {
                                    game: old_row.game.clone(),
                                    rom_id: old_row.rom_id,
                                    name: old_row.name.clone(),
                                    parent: Option::Some(p),
                                };
                                self.store.game_roms[x] = new_row;
                                proof {
                                    assert(self.store.game_roms@ == pre_rows.update(
                                        x as int,
                                        new_row,
                                    ));
                                }
                            }
                        },
                        Option::None => {},
                    }
                },
                Option::None => {},
            }
            proof {
                assert forall|y: int, gi2: int|
                    0 <= y < x + 1 && 0 <= gi2 < games_g.len() && (#[trigger] games_g[gi2]).name@
                        == (#[trigger] self.store.game_roms@[y]).game@ implies self.store.game_roms@[y].parent
                    == (match games_g[gi2].clone_of {
                    Option::Some(p) => if parent_has_rom(mid, p@, mid[y].rom_id) {
                        Option::Some(p)
                    } else {
                        mid[y].parent
                    },
                    Option::None => mid[y].parent,
                }) by {
                    if y == x {
                        match pos {
                            Option::Some(gi) => {
                                assert(games_g[gi as int].name@ == gname@);
                                assert(gi2 == gi) by {
                                    if gi2 != gi as int {
                                        if gi2 < gi as int {
                                            assert(games_g[gi2].name@ != games_g[gi as int].name@);
                                        } else {
                                            assert(games_g[gi as int].name@ != games_g[gi2].name@);
                                        }
                                    }
                                }
                            },
                            Option::None => {
                                assert(false);
                            },
                        }
                    } else {
                        assert(self.store.game_roms@[y] == pre_rows[y]);
                    }
                }
                assert forall|y: int|
                    0 <= y < x + 1 && !self.store.has_game(
                        (#[trigger] self.store.game_roms@[y]).game@,
                    ) implies self.store.game_roms@[y].parent == mid[y].parent by {
                    if y == x {
                        match pos {
                            Option::Some(gi) => {
                                assert(self.store.has_game(self.store.game_roms@[y].game@)) by {
                                    assert(games_g[gi as int].name@ == gname@);
                                }
                            },
                            Option::None => {},
                        }
                    } else {
                        assert(self.store.game_roms@[y] == pre_rows[y]);
                    }
                }
            }
            x = x + 1;
        }
        Result::Ok(())
    }

}

/// Whether some membership row gives this game this content id.
pub open spec fn parent_has_rom(rows: Seq<GameRom>, parent: Seq<char>, id: u32) -> bool {
    exists|k: int|
        0 <= k < rows.len() && (#[trigger] rows[k]).game@ == parent && rows[k].rom_id == id
}

/// Whether the membership table holds a row of this game with this id.
fn rows_have_parent(rows: &Vec<GameRom>, parent: &String, id: u32) -> (r: bool)
    ensures
        r == parent_has_rom(rows@, parent@, id),
{
    let n = rows.len();
    let mut i: usize = 0;
    let mut found = false;
    while i < n
        invariant
            0 <= i <= n,
            n == rows@.len(),
            found ==> parent_has_rom(rows@, parent@, id),
            !found ==> forall|j: int|
                0 <= j < i ==> !((#[trigger] rows@[j]).game@ == parent@ && rows@[j].rom_id == id),
        decreases n - i,
    {
        if !found && crate::files::string_eq(&rows[i].game, parent) && rows[i].rom_id == id {
            found = true;
        }
        i = i + 1;
    }
    found
}

/// Whether one of the buffered games carries this name.
fn buffer_has_game(games: &Vec<Game>, name: &String) -> (r: bool)
    ensures
        r == buf_has_game(games@, name@),
{
    let n = games.len();
    let mut i: usize = 0;
    let mut found = false;
    while i < n
        invariant
            0 <= i <= n,
            n == games@.len(),
            found ==> buf_has_game(games@, name@),
            !found ==> forall|j: int| 0 <= j < i ==> (#[trigger] games@[j]).name@ != name@,
        decreases n - i,
    {
        if !found && crate::files::string_eq(&games[i].name, name) {
            found = true;
        }
        i = i + 1;
    }
    found
}

/// Whether the element at `a` of the first list is one of the input pairs.
pub open spec fn is_input_pair(out: Seq<(u32, String)>, pairs: Seq<(u32, String)>, a: int) -> bool {
    exists|t: int| 0 <= t < pairs.len() && out[a] == #[trigger] pairs[t]
}

/// Removes exact (id, name) repetitions and hands the survivors back in
/// ascending content-id order; entries sharing an id keep their first-seen
/// order among themselves.
fn dedup_sort_pairs(pairs: Vec<(u32, String)>) -> (r: Vec<(u32, String)>)
    ensures
        r@.len() <= pairs@.len(),
        forall|a: int, b: int|
            0 <= a < b < r@.len() ==> (#[trigger] r@[a]).0 <= (#[trigger] r@[b]).0,
        forall|id: u32, nm: Seq<char>|
            #[trigger] pair_in(r@, id, nm) == pair_in(pairs@, id, nm),
        forall|a: int, b: int|
            0 <= a < b < r@.len() ==> !((#[trigger] r@[a]).0 == (#[trigger] r@[b]).0 && r@[a].1@
                == r@[b].1@),
        forall|a: int| 0 <= a < r@.len() ==> #[trigger] is_input_pair(r@, pairs@, a),
{
    let mut out: Vec<(u32, String)> = Vec::new();
    let n = pairs.len();
    let mut i: usize = 0;
    proof {
        assert(pairs@.take(0) =~= Seq::<(u32, String)>::empty());
    }
    while i < n
        invariant
            0 <= i <= n,
            n == pairs@.len(),
            out@.len() <= i,
            forall|a: int, b: int|
                0 <= a < b < out@.len() ==> (#[trigger] out@[a]).0 <= (#[trigger] out@[b]).0,
            forall|id: u32, nm: Seq<char>|
                #[trigger] pair_in(out@, id, nm) == pair_in(pairs@.take(i as int), id, nm),
            forall|a: int, b: int|
                0 <= a < b < out@.len() ==> !((#[trigger] out@[a]).0 == (#[trigger] out@[b]).0
                    && out@[a].1@ == out@[b].1@),
            forall|a: int| 0 <= a < out@.len() ==> #[trigger] is_input_pair(out@, pairs@, a),
        decreases n - i,
    {
        proof {
            let pre = pairs@.take(i as int + 1);
            assert(pre.drop_last() =~= pairs@.take(i as int));
            assert(pre.last() == pairs@[i as int]);
            assert(pre =~= pairs@.take(i as int).push(pairs@[i as int]));
        }
        let id = pairs[i].0;
        let nm = &pairs[i].1;
        let m = out.len();
        let mut found = false;
        let mut t: usize = 0;
        while t < m
            invariant
                0 <= t <= m,
                m == out@.len(),
                found ==> pair_in(out@, id, nm@),
                !found ==> forall|j: int|
                    0 <= j < t ==> !((#[trigger] out@[j]).0 == id && out@[j].1@ == nm@),
            decreases m - t,
        {
            if !found && out[t].0 == id && crate::files::string_eq(&out[t].1, nm) {
                found = true;
            }
            t = t + 1;
        }
        if !found {
            let m2 = out.len();
            let mut pos: usize = 0;
            let mut j: usize = 0;
            while j < m2
                invariant
                    0 <= pos <= j <= m2,
                    m2 == out@.len(),
                    forall|a: int, b: int|
                        0 <= a < b < out@.len() ==> (#[trigger] out@[a]).0 <= (
                        #[trigger] out@[b]).0,
                    forall|x: int| 0 <= x < pos ==> (#[trigger] out@[x]).0 <= id,
                    forall|x: int| pos <= x < j ==> (#[trigger] out@[x]).0 > id,
                decreases m2 - j,
            {
                if out[j].0 <= id {
                    proof {
                        assert forall|x: int| pos <= x < j implies (#[trigger] out@[x]).0
                            > u32::MAX by {
                            assert(out@[x].0 <= out@[j as int].0);
                            assert(out@[x].0 > id);
                        }
                        if pos < j {
                            assert(out@[pos as int].0 > u32::MAX);
                            assert(false);
                        }
                    }
                    pos = j + 1;
                }
                j = j + 1;
            }
            let nm2 = nm.clone();
            let ghost out0 = out@;
            let ghost inserted = (id, nm2);
            proof {
                assert(inserted == pairs@[i as int]) by {
                    assert(pairs@[i as int].0 == id);
                }
            }
            out.insert(pos, (id, nm2));
            proof {
                out0.insert_ensures(pos as int, inserted);
                assert(out@ == out0.insert(pos as int, inserted));
                assert forall|a: int, b: int|
                    0 <= a < b < out@.len() implies (#[trigger] out@[a]).0 <= (
                #[trigger] out@[b]).0 by {
                    if a < pos && b < pos {
                    } else if a == pos {
                        assert(out@[a] == inserted);
                        assert(out@[b] == out0[b - 1]);
                        assert(out0[b - 1].0 > id);
                    } else if b == pos {
                        assert(out@[b] == inserted);
                        assert(out@[a] == out0[a]);
                        assert(out0[a].0 <= id);
                    } else if a < pos {
                        assert(out@[a] == out0[a] && out@[b] == out0[b - 1]);
                        assert(out0[a].0 <= id && out0[b - 1].0 > id);
                    } else {
                        assert(out@[a] == out0[a - 1] && out@[b] == out0[b - 1]);
                    }
                }
                assert forall|id2: u32, nmv: Seq<char>|
                    #[trigger] pair_in(out@, id2, nmv) == (pair_in(out0, id2, nmv) || (id2 == id
                        && nmv == nm@)) by {
                    if pair_in(out@, id2, nmv) {
                        let w = choose|w: int|
                            0 <= w < out@.len() && (#[trigger] out@[w]).0 == id2 && out@[w].1@
                                == nmv;
                        if w < pos {
                            assert(out0[w].0 == id2 && out0[w].1@ == nmv);
                        } else if w > pos {
                            assert(out@[w] == out0[w - 1]);
                            assert(out0[w - 1].0 == id2 && out0[w - 1].1@ == nmv);
                        }
                    }
                    if pair_in(out0, id2, nmv) {
                        let w = choose|w: int|
                            0 <= w < out0.len() && (#[trigger] out0[w]).0 == id2 && out0[w].1@
                                == nmv;
                        if w < pos {
                            assert(out@[w].0 == id2 && out@[w].1@ == nmv);
                        } else {
                            assert(out@[w + 1] == out0[w]);
                            assert(out@[w + 1].0 == id2 && out@[w + 1].1@ == nmv);
                        }
                    }
                    if id2 == id && nmv == nm@ {
                        assert(out@[pos as int].0 == id2 && out@[pos as int].1@ == nmv);
                    }
                }
                assert forall|a: int, b: int|
                    0 <= a < b < out@.len() implies !((#[trigger] out@[a]).0 == (
                #[trigger] out@[b]).0 && out@[a].1@ == out@[b].1@) by {
                    let av = out@[a];
                    let bv = out@[b];
                    if a == pos {
                        if av.0 == bv.0 && av.1@ == bv.1@ {
                            assert(bv == out0[b - 1]);
                            assert(pair_in(out0, id, nm@));
                        }
                    } else if b == pos {
                        if av.0 == bv.0 && av.1@ == bv.1@ {
                            assert(av == out0[a]);
                            assert(pair_in(out0, id, nm@));
                        }
                    } else {
                        let a0: int = if a < pos {
                            a
                        } else {
                            a - 1
                        };
                        let b0: int = if b < pos {
                            b
                        } else {
                            b - 1
                        };
                        assert(out@[a] == out0[a0] && out@[b] == out0[b0]);
                    }
                }
                assert forall|a: int| 0 <= a < out@.len() implies #[trigger] is_input_pair(
                    out@,
                    pairs@,
                    a,
                ) by {
                    if a == pos {
                        assert(out@[a] == pairs@[i as int]);
                    } else {
                        let a0: int = if a < pos {
                            a
                        } else {
                            a - 1
                        };
                        assert(out@[a] == out0[a0]);
                        assert(is_input_pair(out0, pairs@, a0));
                        let t2 = choose|t2: int|
                            0 <= t2 < pairs@.len() && out0[a0] == #[trigger] pairs@[t2];
                        assert(out@[a] == pairs@[t2]);
                    }
                }
            }
        }
        proof {
            lemma_pair_in_push(pairs@.take(i as int), pairs@[i as int], 0, Seq::empty());
            assert forall|id2: u32, nmv: Seq<char>|
                #[trigger] pair_in(out@, id2, nmv) == pair_in(
                pairs@.take(i as int + 1),
                id2,
                nmv,
            ) by {
                lemma_pair_in_push(pairs@.take(i as int), pairs@[i as int], id2, nmv);
                if found && id2 == id && nmv == nm@ {
                    assert(pair_in(out@, id, nm@));
                }
            }
        }
        i = i + 1;
    }
    proof {
        assert(pairs@.take(n as int) =~= pairs@);
    }
    out
}

/// Buffered (entry, id) pairs as content rows, in buffer order.
pub open spec fn buf_rows(buf: Seq<(DataFile, u32)>) -> Seq<RomRow>
    decreases buf.len(),
{
    if buf.len() == 0 {
        Seq::empty()
    } else {
        buf_rows(buf.drop_last()).push(RomRow { id: buf.last().1, file: buf.last().0 })
    }
}

/// [`buf_rows`] maps the buffer pointwise.
pub proof fn lemma_buf_rows(buf: Seq<(DataFile, u32)>)
    ensures
        buf_rows(buf).len() == buf.len(),
        forall|i: int|
            0 <= i < buf.len() ==> #[trigger] buf_rows(buf)[i] == (RomRow {
                id: buf[i].1,
                file: buf[i].0,
            }),
    decreases buf.len(),
{
    if buf.len() > 0 {
        lemma_buf_rows(buf.drop_last());
        assert forall|i: int| 0 <= i < buf.len() implies #[trigger] buf_rows(buf)[i] == (RomRow {
            id: buf[i].1,
            file: buf[i].0,
        }) by {
            if i < buf.len() - 1 {
                assert(buf.drop_last()[i] == buf[i]);
            }
        }
    }
}

/// One buffered membership list as table rows, parent unset.
pub open spec fn entry_rows(game: String, list: Seq<(u32, String)>) -> Seq<GameRom>
    decreases list.len(),
{
    if list.len() == 0 {
        Seq::empty()
    } else {
        entry_rows(game, list.drop_last()).push(
            GameRom {
                game: game,
                rom_id: list.last().0,
                name: list.last().1,
                parent: Option::None,
            },
        )
    }
}

/// [`entry_rows`] maps the list pointwise.
pub proof fn lemma_entry_rows(game: String, list: Seq<(u32, String)>)
    ensures
        entry_rows(game, list).len() == list.len(),
        forall|i: int|
            0 <= i < list.len() ==> #[trigger] entry_rows(game, list)[i] == (GameRom {
                game: game,
                rom_id: list[i].0,
                name: list[i].1,
                parent: Option::None,
            }),
    decreases list.len(),
{
    if list.len() > 0 {
        lemma_entry_rows(game, list.drop_last());
        assert forall|i: int| 0 <= i < list.len() implies #[trigger] entry_rows(game, list)[i] == (
        GameRom {
            game: game,
            rom_id: list[i].0,
            name: list[i].1,
            parent: Option::None,
        }) by {
            if i < list.len() - 1 {
                assert(list.drop_last()[i] == list[i]);
            }
        }
    }
}

/// All buffered membership lists as table rows, in buffer order.
pub open spec fn expand_membership(entries: Seq<(String, Vec<(u32, String)>)>) -> Seq<GameRom>
    decreases entries.len(),
{
    if entries.len() == 0 {
        Seq::empty()
    } else {
        expand_membership(entries.drop_last()) + entry_rows(
            entries.last().0,
            entries.last().1@,
        )
    }
}

/// Every expanded membership row comes from one buffered pair.
pub proof fn lemma_expand_membership_rows(entries: Seq<(String, Vec<(u32, String)>)>)
    ensures
        forall|r: int|
            0 <= r < expand_membership(entries).len() ==> exists|i: int, k: int|
                0 <= i < entries.len() && 0 <= k < entries[i].1@.len()
                    && #[trigger] expand_membership(entries)[r] == (GameRom {
                    game: entries[i].0,
                    rom_id: entries[i].1@[k].0,
                    name: entries[i].1@[k].1,
                    parent: Option::None,
                }),
    decreases entries.len(),
{
    if entries.len() > 0 {
        let rest = entries.drop_last();
        let last = entries.last();
        lemma_expand_membership_rows(rest);
        lemma_entry_rows(last.0, last.1@);
        let prev = expand_membership(rest);
        let li = entries.len() - 1;
        assert forall|r: int| 0 <= r < expand_membership(entries).len() implies exists|
            i: int,
            k: int,
        |
            0 <= i < entries.len() && 0 <= k < entries[i].1@.len()
                && #[trigger] expand_membership(entries)[r] == (GameRom {
                game: entries[i].0,
                rom_id: entries[i].1@[k].0,
                name: entries[i].1@[k].1,
                parent: Option::None,
            }) by {
            if r < prev.len() {
                assert(expand_membership(entries)[r] == prev[r]);
                let (i0, k0) = choose|i0: int, k0: int|
                    0 <= i0 < rest.len() && 0 <= k0 < rest[i0].1@.len() && #[trigger] prev[r] == (
                    GameRom {
                        game: rest[i0].0,
                        rom_id: rest[i0].1@[k0].0,
                        name: rest[i0].1@[k0].1,
                        parent: Option::None,
                    });
                assert(rest[i0] == entries[i0]);
            } else {
                let k0 = r - prev.len();
                assert(expand_membership(entries)[r] == entry_rows(last.0, last.1@)[k0]);
                assert(entries[li] == last);
            }
        }
    }
}

/// One buffered device list as table rows.
pub open spec fn device_rows(game: String, list: Seq<String>) -> Seq<DeviceRow>
    decreases list.len(),
{
    if list.len() == 0 {
        Seq::empty()
    } else {
        device_rows(game, list.drop_last()).push(
            DeviceRow { game: game, device_ref: list.last() },
        )
    }
}

/// All buffered device lists as table rows, in buffer order.
pub open spec fn expand_devices(entries: Seq<(String, Vec<String>)>) -> Seq<DeviceRow>
    decreases entries.len(),
{
    if entries.len() == 0 {
        Seq::empty()
    } else {
        expand_devices(entries.drop_last()) + device_rows(entries.last().0, entries.last().1@)
    }
}

/// Pushing one samples row adds exactly that (pack, sample) pair.
pub proof fn lemma_sample_in_push(rows: Seq<SampleRow>, x: SampleRow, p: Seq<char>, s: Seq<char>)
    ensures
        sample_in(rows.push(x), p, s) == (sample_in(rows, p, s) || (x.pack@ == p && x.sample@
            == s)),
{
    let pushed = rows.push(x);
    if sample_in(pushed, p, s) {
        let i = choose|i: int|
            0 <= i < pushed.len() && (#[trigger] pushed[i]).pack@ == p && pushed[i].sample@ == s;
        if i < rows.len() {
            assert(rows[i].pack@ == p && rows[i].sample@ == s);
        }
    }
    if sample_in(rows, p, s) {
        let i = choose|i: int|
            0 <= i < rows.len() && (#[trigger] rows[i]).pack@ == p && rows[i].sample@ == s;
        assert(pushed[i].pack@ == p && pushed[i].sample@ == s);
    }
    if x.pack@ == p && x.sample@ == s {
        assert(pushed[rows.len() as int].pack@ == p && pushed[rows.len() as int].sample@ == s);
    }
}

/// Appending one pack entry extends [`buffered_sample`] by exactly that
/// pack's names.
pub proof fn lemma_buffered_sample_push(
    packs: Seq<(String, Vec<String>)>,
    x: (String, Vec<String>),
    p: Seq<char>,
    s: Seq<char>,
)
    ensures
        buffered_sample(packs.push(x), p, s) == (buffered_sample(packs, p, s) || (x.0@ == p
            && names_has(x.1@, s))),
{
    let pushed = packs.push(x);
    if buffered_sample(pushed, p, s) {
        let i = choose|i: int|
            0 <= i < pushed.len() && (#[trigger] pushed[i]).0@ == p && names_has(pushed[i].1@, s);
        if i < packs.len() {
            assert(packs[i].0@ == p && names_has(packs[i].1@, s));
        }
    }
    if buffered_sample(packs, p, s) {
        let i = choose|i: int|
            0 <= i < packs.len() && (#[trigger] packs[i]).0@ == p && names_has(packs[i].1@, s);
        assert(pushed[i].0@ == p && names_has(pushed[i].1@, s));
    }
    if x.0@ == p && names_has(x.1@, s) {
        assert(pushed[packs.len() as int].0@ == p && names_has(pushed[packs.len() as int].1@, s));
    }
}

/// Whether the samples table already holds the (pack, sample) pair.
fn sample_row_in(rows: &Vec<SampleRow>, pack: &String, sample: &String) -> (r: bool)
    ensures
        r == sample_in(rows@, pack@, sample@),
{
    let n = rows.len();
    let mut i: usize = 0;
    let mut found = false;
    while i < n
        invariant
            0 <= i <= n,
            n == rows@.len(),
            found ==> sample_in(rows@, pack@, sample@),
            !found ==> forall|j: int|
                0 <= j < i ==> !((#[trigger] rows@[j]).pack@ == pack@ && rows@[j].sample@
                    == sample@),
        decreases n - i,
    {
        if !found && crate::files::string_eq(&rows[i].pack, pack) && crate::files::string_eq(
            &rows[i].sample,
            sample,
        ) {
            found = true;
        }
        i = i + 1;
    }
    found
}

/// Progress sink that mirrors what a console reporter would show: the names
/// last seen and how many games and ROMs have passed through.
pub struct SysOutWriter {
    pub current_game: Option<String>,
    pub current_rom: Option<String>,
    pub games_seen: u64,
    pub roms_seen: u64,
}

impl SysOutWriter {
    /// A fresh progress sink: nothing seen yet.
    pub fn new() -> (r: SysOutWriter)
        ensures
            r.current_game is None,
            r.current_rom is None,
            r.games_seen == 0,
            r.roms_seen == 0,
    {
        SysOutWriter {
            current_game: Option::None,
            current_rom: Option::None,
            games_seen: 0,
            roms_seen: 0,
        }
    }

    /// Nothing to prepare; the sink starts ready.
    pub fn init(&self) -> (r: Result<(), RomstError>)
        ensures
            r is Ok,
    {
        Result::Ok(())
    }

    /// Notes a game passing through.
    pub fn on_new_game(&mut self, game: &Game) -> (r: Result<(), RomstError>)
        requires
            old(self).games_seen < u64::MAX,
        ensures
            r is Ok,
            final (self).current_game matches Option::Some(n) && n@ == game.name@,
            final (self).games_seen == old(self).games_seen + 1,
            final (self).roms_seen == old(self).roms_seen,
            final (self).current_rom == old(self).current_rom,
    {
        self.current_game = Option::Some(game.name.clone());
        self.games_seen = self.games_seen + 1;
        Result::Ok(())
    }

    /// Notes a batch of ROMs passing through.
    pub fn on_new_roms(&mut self, roms: &Vec<DataFile>) -> (r: Result<(), RomstError>)
        requires
            old(self).roms_seen + roms@.len() <= u64::MAX,
        ensures
            r is Ok,
            final (self).roms_seen == old(self).roms_seen + roms@.len(),
            roms@.len() > 0 ==> (final (self).current_rom matches Option::Some(n) && n@ == roms@[
                roms@.len() - 1].name@),
            roms@.len() == 0 ==> final (self).current_rom == old(self).current_rom,
            final (self).games_seen == old(self).games_seen,
            final (self).current_game == old(self).current_game,
    {
        let n = roms.len();
        let mut i: usize = 0;
        while i < n
            invariant
                0 <= i <= n,
                n == roms@.len(),
                old(self).roms_seen + n <= u64::MAX,
                self.roms_seen == old(self).roms_seen + i,
                i > 0 ==> (self.current_rom matches Option::Some(nm) && nm@ == roms@[i - 1].name@),
                i == 0 ==> self.current_rom == old(self).current_rom,
                self.games_seen == old(self).games_seen,
                self.current_game == old(self).current_game,
            decreases n - i,
        {
            self.current_rom = Option::Some(roms[i].name.clone());
            self.roms_seen = self.roms_seen + 1;
            i = i + 1;
        }
        Result::Ok(())
    }

    /// Nothing to flush; the sink keeps no buffer.
    pub fn finish(&mut self) -> (r: Result<(), RomstError>)
        ensures
            r is Ok,
            *final (self) == *old(self),
    {
        Result::Ok(())
    }
}

} // verus!
