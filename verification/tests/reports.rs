use romst::{
    DataFile, FileRename, FileReport, Report, RomSearch, SetNameReport, SetReport, SysOutWriter,
};

fn df(name: &str, sha1: &str) -> DataFile {
    DataFile {
        name: name.to_string(),
        sha1: Some(sha1.to_string()),
        md5: None,
        crc: None,
        size: None,
        status: None,
    }
}

#[test]
fn report_collects_file_reports() {
    let mut report = Report::new();
    assert!(report.files.is_empty());

    let mut fr = FileReport::new("roms.zip".to_string());
    let mut set = SetReport::new("pacman".to_string());
    set.add_having(df("pac.rom", "aa"));
    set.add_missing(df("pac2.rom", "bb"));
    fr.add_set(set);
    fr.add_unknown("garbage.bin".to_string());
    report.add_set(fr);

    assert_eq!(report.files.len(), 1);
    assert_eq!(report.files[0].file_name, "roms.zip");
    assert_eq!(report.files[0].sets.len(), 1);
    assert_eq!(report.files[0].sets[0].roms_have.len(), 1);
    assert_eq!(report.files[0].sets[0].roms_missing.len(), 1);
    assert_eq!(report.files[0].unknown, vec!["garbage.bin".to_string()]);

    let again = Report::from_files(report.files);
    assert_eq!(again.files.len(), 1);
}

#[test]
fn set_report_from_data_keeps_lists() {
    let have = vec![df("a", "11")];
    let rename = vec![FileRename::new(df("b", "22"), "c".to_string())];
    let missing = vec![df("d", "33")];
    let unneeded = vec![df("e", "44")];
    let set = SetReport::from_data(
        "galaga".to_string(),
        have,
        rename,
        missing,
        unneeded,
    );
    assert_eq!(set.name, "galaga");
    assert_eq!(set.roms_have[0].name, "a");
    assert_eq!(set.roms_to_rename[0].from.name, "b");
    assert_eq!(set.roms_to_rename[0].to, "c");
    assert_eq!(set.roms_missing[0].name, "d");
    assert_eq!(set.roms_unneeded[0].name, "e");
}

#[test]
fn set_name_report_distinguishes_rename() {
    let same = SetNameReport::new("pacman".to_string(), "pacman".to_string());
    assert!(matches!(same, SetNameReport::Name(n) if n == "pacman"));

    let renamed = SetNameReport::new("pacmna".to_string(), "pacman".to_string());
    assert!(
        matches!(renamed, SetNameReport::RenameFromTo(from, to) if from == "pacmna" && to == "pacman")
    );
}

#[test]
fn rom_search_deduplicates_per_set() {
    let mut search = RomSearch::new();
    search.add_file_for_set("pacman".to_string(), df("pac.rom", "aa"));
    search.add_file_for_set("pacman".to_string(), df("pac.rom", "aa"));
    search.add_file_for_set("pacman".to_string(), df("other.rom", "aa"));
    search.add_file_unknown(df("junk.bin", "zz"));

    assert_eq!(search.set_results.len(), 1);
    assert_eq!(search.set_results[0].0, "pacman");
    assert_eq!(search.set_results[0].1.len(), 2);
    assert_eq!(search.unknowns.len(), 1);
}

#[test]
fn sysout_writer_tracks_progress() {
    let mut sink = SysOutWriter::new();
    assert!(sink.init().is_ok());
    let g = romst::Game::with_name("pacman".to_string());
    sink.on_new_game(&g).unwrap();
    sink.on_new_roms(&vec![df("a", "11"), df("b", "22")]).unwrap();
    sink.finish().unwrap();
    assert_eq!(sink.games_seen, 1);
    assert_eq!(sink.roms_seen, 2);
    assert_eq!(sink.current_game.as_deref(), Some("pacman"));
    assert_eq!(sink.current_rom.as_deref(), Some("b"));
}

#[test]
fn ids_counter_hands_out_dense_ids() {
    let mut ids = romst::IdsCounter::new();
    assert_eq!(ids.get_next_rom(), 0);
    assert_eq!(ids.get_next_rom(), 1);
    assert_eq!(ids.get_next_rom(), 2);
}
