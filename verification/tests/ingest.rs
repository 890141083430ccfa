use romst::{DataFile, Game, Index, IndexReader, IndexWriter, RomsetMode, RomstError};

fn df(name: &str, sha1: Option<&str>, md5: Option<&str>, crc: Option<&str>, size: Option<u64>) -> DataFile {
    DataFile {
        name: name.to_string(),
        sha1: sha1.map(|s| s.to_string()),
        md5: md5.map(|s| s.to_string()),
        crc: crc.map(|s| s.to_string()),
        size,
        status: None,
    }
}

fn game(name: &str) -> Game {
    Game::with_name(name.to_string())
}

fn writer() -> IndexWriter {
    IndexWriter::from_index(Index::empty(), 5000)
}

#[test]
fn single_game_ingest() {
    let mut w = writer();
    w.on_new_entry(
        game("pacman"),
        vec![df("pac.rom", Some("aa"), None, None, Some(8))],
        vec![],
        vec![],
        vec![],
    )
    .unwrap();
    w.finish().unwrap();

    assert_eq!(w.store.roms.len(), 1);
    assert_eq!(w.store.games.len(), 1);

    let reader = IndexReader::open(w.store);
    let roms = reader.get_romset_roms(&"pacman".to_string(), RomsetMode::NonMerged);
    assert_eq!(roms.len(), 1);
    assert_eq!(roms[0].name, "pac.rom");
    assert_eq!(roms[0].sha1.as_deref(), Some("aa"));
    assert_eq!(roms[0].size, Some(8));
}

#[test]
fn digest_dedup_across_games() {
    let mut w = writer();
    w.on_new_entry(
        game("pacman"),
        vec![df("pac.rom", Some("aa"), None, None, Some(8))],
        vec![],
        vec![],
        vec![],
    )
    .unwrap();
    w.on_new_entry(
        game("mspacman"),
        vec![df("mspac.rom", Some("aa"), None, None, Some(8))],
        vec![],
        vec![],
        vec![],
    )
    .unwrap();
    w.finish().unwrap();

    assert_eq!(w.store.roms.len(), 1);
    assert_eq!(w.store.game_roms.len(), 2);

    let reader = IndexReader::open(w.store);
    let usage = reader.find_rom_usage(
        &"pacman".to_string(),
        &"pac.rom".to_string(),
        RomsetMode::NonMerged,
    );
    assert_eq!(usage.set_results.len(), 2);
    let pac = usage.files_for_set(&"pacman".to_string()).unwrap();
    assert_eq!(pac.len(), 1);
    assert_eq!(pac[0].name, "pac.rom");
    let mspac = usage.files_for_set(&"mspacman".to_string()).unwrap();
    assert_eq!(mspac.len(), 1);
    assert_eq!(mspac[0].name, "mspac.rom");
}

#[test]
fn parent_inheritance_backfill() {
    let mut w = writer();
    w.on_new_entry(
        game("pacman"),
        vec![df("pac.rom", Some("aa"), None, None, Some(8))],
        vec![],
        vec![],
        vec![],
    )
    .unwrap();
    let mut jp = game("pacmanjp");
    jp.clone_of = Some("pacman".to_string());
    w.on_new_entry(
        jp,
        vec![df("pac_j.rom", Some("aa"), None, None, Some(8))],
        vec![],
        vec![],
        vec![],
    )
    .unwrap();
    w.finish().unwrap();

    let row = w
        .store
        .game_roms
        .iter()
        .find(|r| r.game == "pacmanjp")
        .expect("membership row for the clone");
    assert_eq!(row.parent.as_deref(), Some("pacman"));

    let reader = IndexReader::open(w.store);
    let split = reader.get_romset_roms(&"pacmanjp".to_string(), RomsetMode::Split);
    assert!(split.is_empty());
    let merged = reader.get_romset_roms(&"pacman".to_string(), RomsetMode::Merged);
    assert_eq!(merged.len(), 2);
    assert!(merged.iter().any(|f| f.name == "pac.rom"));
    assert!(merged.iter().any(|f| f.name == "pac_j.rom"));

    let merged_jp = reader.get_romset_roms(&"pacmanjp".to_string(), RomsetMode::Merged);
    assert!(merged_jp.iter().any(|f| f.sha1.as_deref() == Some("aa")));

    // the inherited ROM comes back under the clone's own local name
    let nonmerged_jp = reader.get_romset_roms(&"pacmanjp".to_string(), RomsetMode::NonMerged);
    assert_eq!(nonmerged_jp.len(), 1);
    assert_eq!(nonmerged_jp[0].name, "pac_j.rom");
    assert_eq!(nonmerged_jp[0].sha1.as_deref(), Some("aa"));
}

#[test]
fn unknown_file_lands_in_unknowns() {
    let mut w = writer();
    w.on_new_entry(
        game("pacman"),
        vec![df("pac.rom", Some("aa"), None, None, Some(8))],
        vec![],
        vec![],
        vec![],
    )
    .unwrap();
    w.finish().unwrap();

    let reader = IndexReader::open(w.store);
    let search = reader.get_romsets_from_roms(
        vec![df("mystery.bin", Some("zz"), None, None, None)],
        RomsetMode::NonMerged,
    );
    assert_eq!(search.unknowns.len(), 1);
    assert_eq!(search.unknowns[0].sha1.as_deref(), Some("zz"));
    assert!(search.set_results.is_empty());
}

#[test]
fn mask_adaptation_ignores_undeclared_column() {
    let mut w = writer();
    w.on_new_entry(
        game("pacman"),
        vec![df("pac.rom", Some("aa"), None, Some("cc"), Some(8))],
        vec![],
        vec![],
        vec![],
    )
    .unwrap();
    w.finish().unwrap();

    let reader = IndexReader::open(w.store);
    let counts = reader.get_file_checks();
    assert_eq!(counts.md5, 0);
    let mask = counts.get_file_checks();
    assert!(!mask.contains(&romst::FileChecks::md5()));

    // a query carrying an md5 the dataset never declared still matches
    let search = reader.get_romsets_from_roms(
        vec![df("found.bin", Some("aa"), Some("dd"), Some("cc"), Some(8))],
        RomsetMode::NonMerged,
    );
    assert!(search.unknowns.is_empty());
    let pac = search.files_for_set(&"pacman".to_string()).unwrap();
    assert_eq!(pac.len(), 1);
    assert_eq!(pac[0].name, "pac.rom");
}

fn ten_games() -> Vec<(Game, Vec<DataFile>)> {
    let mut entries = vec![];
    for i in 0..10 {
        let name = format!("game{}", i);
        let rom = df(&format!("rom{}.bin", i), Some(&format!("d{}", i)), None, None, Some(4));
        entries.push((game(&name), vec![rom]));
    }
    entries
}

#[test]
fn resume_after_partial_ingest() {
    // small threshold so batches commit during ingest
    let mut w = IndexWriter::from_index(Index::empty(), 3);
    for (g, roms) in ten_games() {
        w.on_new_entry(g, roms, vec![], vec![], vec![]).unwrap();
    }
    // the session stops before finish(): committed batches are visible,
    // nothing carries a parent yet
    assert!(w.store.games.len() >= 3);
    assert!(w.store.games.len() < 10);
    assert!(w.store.game_roms.iter().all(|r| r.parent.is_none()));

    // a fresh session over a reset index replays the same input
    w.init();
    for (g, roms) in ten_games() {
        w.on_new_entry(g, roms, vec![], vec![], vec![]).unwrap();
    }
    w.finish().unwrap();
    let replayed = w.store;

    // an uninterrupted run over identical input gives the same mapping
    let mut w2 = IndexWriter::from_index(Index::empty(), 5000);
    for (g, roms) in ten_games() {
        w2.on_new_entry(g, roms, vec![], vec![], vec![]).unwrap();
    }
    w2.finish().unwrap();
    let straight = w2.store;

    assert_eq!(replayed.roms.len(), straight.roms.len());
    for a in replayed.roms.iter() {
        let b = straight
            .roms
            .iter()
            .find(|b| b.file.sha1 == a.file.sha1)
            .expect("same digest present");
        assert_eq!(a.id, b.id);
    }
}

#[test]
fn clone_graph_cycles_are_rejected_at_finish() {
    let mut w = writer();
    let mut a = game("alpha");
    a.clone_of = Some("beta".to_string());
    let mut b = game("beta");
    b.clone_of = Some("alpha".to_string());
    w.on_new_entry(a, vec![], vec![], vec![], vec![]).unwrap();
    w.on_new_entry(b, vec![], vec![], vec![], vec![]).unwrap();
    let err = w.finish().unwrap_err();
    assert!(matches!(err, RomstError::CloneCycle { game } if game == "alpha" || game == "beta"));
}

#[test]
fn loaded_tables_can_be_validated() {
    let mut w = writer();
    w.on_new_entry(
        game("pacman"),
        vec![df("pac.rom", Some("aa"), None, None, Some(8))],
        vec![],
        vec![],
        vec![],
    )
    .unwrap();
    w.finish().unwrap();
    assert!(w.store.check_wf());

    // a corrupted copy fails the check: two rows with one id
    let mut broken = w.store;
    let dup = romst::store::RomRow {
        id: broken.roms[0].id,
        file: df("other", Some("bb"), None, None, Some(9)),
    };
    broken.roms.push(dup);
    assert!(!broken.check_wf());
}

#[test]
fn duplicate_game_name_is_rejected() {
    let mut w = writer();
    w.on_new_entry(game("pacman"), vec![], vec![], vec![], vec![]).unwrap();
    let err = w
        .on_new_entry(game("pacman"), vec![], vec![], vec![], vec![])
        .unwrap_err();
    assert!(matches!(err, RomstError::DuplicateGame { game } if game == "pacman"));
}

#[test]
fn self_referencing_parent_is_rejected() {
    let mut w = writer();
    let mut g = game("ouroboros");
    g.clone_of = Some("ouroboros".to_string());
    let err = w.on_new_entry(g, vec![], vec![], vec![], vec![]).unwrap_err();
    assert!(matches!(err, RomstError::SelfReferencingParent { game } if game == "ouroboros"));
}

#[test]
fn game_set_for_unknown_name_is_an_error() {
    let mut w = writer();
    w.on_new_entry(game("pacman"), vec![], vec![], vec![], vec![]).unwrap();
    w.finish().unwrap();
    let reader = IndexReader::open(w.store);
    let err = reader
        .get_game_set(&"galaga".to_string(), RomsetMode::NonMerged)
        .unwrap_err();
    assert!(matches!(err, RomstError::GameNotFound { game } if game == "galaga"));

    let ok = reader
        .get_game_set(&"pacman".to_string(), RomsetMode::NonMerged)
        .unwrap();
    assert_eq!(ok.game.name, "pacman");
    assert!(ok.disks.is_empty());
    assert!(ok.samples.is_empty());
}

#[test]
fn same_digests_under_new_name_reuse_the_id() {
    let mut w = writer();
    w.on_new_entry(
        game("alpha"),
        vec![df("a.bin", Some("aa"), Some("bb"), Some("cc"), Some(16))],
        vec![],
        vec![],
        vec![],
    )
    .unwrap();
    w.on_new_entry(
        game("beta"),
        vec![df("b.bin", Some("aa"), Some("bb"), Some("cc"), Some(16))],
        vec![],
        vec![],
        vec![],
    )
    .unwrap();
    w.finish().unwrap();
    assert_eq!(w.store.roms.len(), 1);
    let ids: Vec<u32> = w.store.game_roms.iter().map(|r| r.rom_id).collect();
    assert_eq!(ids, vec![0, 0]);
}

#[test]
fn devices_and_samples_are_recorded() {
    let mut w = writer();
    let mut g = game("driver");
    g.sample_of = Some("driverpack".to_string());
    w.on_new_entry(
        g,
        vec![df("d.bin", Some("11"), None, None, Some(2))],
        vec![],
        vec!["boom.wav".to_string(), "boom.wav".to_string(), "tick.wav".to_string()],
        vec!["z80dev".to_string()],
    )
    .unwrap();
    w.finish().unwrap();

    // the duplicated sample name collapses: pairs are a set
    assert_eq!(w.store.samples.len(), 2);
    let reader = IndexReader::open(w.store);
    let devs = reader.get_devices_for_game(&"driver".to_string());
    assert_eq!(devs, vec!["z80dev".to_string()]);

    let info = reader.get_db_info();
    assert_eq!(info.games, 1);
    assert_eq!(info.roms, 1);
    assert_eq!(info.roms_in_games, 1);
    assert_eq!(info.samples, 2);
    assert_eq!(info.device_refs, 1);
}

#[test]
fn nonmerged_includes_device_roms() {
    let mut w = writer();
    w.on_new_entry(
        game("z80dev"),
        vec![df("z80.bin", Some("ee"), None, None, Some(1))],
        vec![],
        vec![],
        vec![],
    )
    .unwrap();
    w.on_new_entry(
        game("driver"),
        vec![df("d.bin", Some("11"), None, None, Some(2))],
        vec![],
        vec![],
        vec!["z80dev".to_string()],
    )
    .unwrap();
    w.finish().unwrap();

    let reader = IndexReader::open(w.store);
    let roms = reader.get_romset_roms(&"driver".to_string(), RomsetMode::NonMerged);
    assert_eq!(roms.len(), 2);
    assert!(roms.iter().any(|f| f.name == "d.bin"));
    assert!(roms.iter().any(|f| f.name == "z80.bin"));
}

#[test]
fn disks_are_deduplicated_like_roms() {
    let mut w = writer();
    w.on_new_entry(
        game("racer"),
        vec![df("code.bin", Some("aa"), None, None, Some(8))],
        vec![df("track.chd", Some("d1"), None, None, None)],
        vec![],
        vec![],
    )
    .unwrap();
    w.on_new_entry(
        game("racerjp"),
        vec![df("code_j.bin", Some("bb"), None, None, Some(8))],
        vec![df("track_j.chd", Some("d1"), None, None, None)],
        vec![],
        vec![],
    )
    .unwrap();
    w.finish().unwrap();

    // two ROM contents, one shared disk content under two local names
    assert_eq!(w.store.roms.len(), 2);
    assert_eq!(w.store.disks.len(), 1);
    assert_eq!(w.store.game_disks.len(), 2);
    assert!(w.store.game_disks.iter().all(|r| r.rom_id == 0));
}

#[test]
fn shared_roms_lists_other_sets_only() {
    let mut w = writer();
    w.on_new_entry(
        game("pacman"),
        vec![df("pac.rom", Some("aa"), None, None, Some(8))],
        vec![],
        vec![],
        vec![],
    )
    .unwrap();
    w.on_new_entry(
        game("mspacman"),
        vec![df("mspac.rom", Some("aa"), None, None, Some(8))],
        vec![],
        vec![],
        vec![],
    )
    .unwrap();
    w.finish().unwrap();

    let reader = IndexReader::open(w.store);
    let shared = reader.get_romset_shared_roms(&"pacman".to_string(), RomsetMode::NonMerged);
    assert_eq!(shared.set_results.len(), 1);
    let other = shared.files_for_set(&"mspacman".to_string()).unwrap();
    assert_eq!(other.len(), 1);
    assert_eq!(other[0].name, "mspac.rom");
    assert!(shared.files_for_set(&"pacman".to_string()).is_none());
}
