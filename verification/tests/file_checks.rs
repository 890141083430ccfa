use romst::{FileCheckSearch, FileChecks};

#[test]
fn should_check_with_all() {
    let file_check_search = FileCheckSearch { sha1: 1, md5: 1, crc: 1 };
    let file_checks = file_check_search.get_file_checks();

    assert!(file_checks.contains(&FileChecks::sha1()));
    assert!(file_checks.contains(&FileChecks::md5()));
    assert!(file_checks.contains(&FileChecks::crc()));
}

#[test]
fn should_check_without_md5() {
    let file_check_search = FileCheckSearch { sha1: 1, md5: 0, crc: 1 };
    let file_checks = file_check_search.get_file_checks();

    assert!(file_checks.contains(&FileChecks::sha1()));
    assert!(!file_checks.contains(&FileChecks::md5()));
    assert!(file_checks.contains(&FileChecks::crc()));
}

#[test]
fn should_check_without_sha1() {
    let file_check_search = FileCheckSearch { sha1: 0, md5: 1, crc: 1 };
    let file_checks = file_check_search.get_file_checks();

    assert!(!file_checks.contains(&FileChecks::sha1()));
    assert!(file_checks.contains(&FileChecks::md5()));
    assert!(file_checks.contains(&FileChecks::crc()));
}

#[test]
fn should_check_without_sha1_or_md5() {
    let file_check_search = FileCheckSearch { sha1: 0, md5: 0, crc: 1 };
    let file_checks = file_check_search.get_file_checks();

    assert!(!file_checks.contains(&FileChecks::sha1()));
    assert!(!file_checks.contains(&FileChecks::md5()));
    assert!(file_checks.contains(&FileChecks::crc()));
}

#[test]
fn should_check_without_crc() {
    let file_check_search = FileCheckSearch { sha1: 1, md5: 1, crc: 0 };
    let file_checks = file_check_search.get_file_checks();

    assert!(file_checks.contains(&FileChecks::sha1()));
    assert!(file_checks.contains(&FileChecks::md5()));
    assert!(!file_checks.contains(&FileChecks::crc()));
}

#[test]
fn mask_from_flags_sets_each_bit() {
    let only_sha1 = FileChecks::from_flags(true, false, false);
    assert!(only_sha1.contains(&FileChecks::sha1()));
    assert!(!only_sha1.contains(&FileChecks::md5()));
    assert!(!only_sha1.contains(&FileChecks::crc()));

    let all = FileChecks::all();
    assert!(all.contains(&FileChecks::sha1()));
    assert!(all.contains(&FileChecks::md5()));
    assert!(all.contains(&FileChecks::crc()));
    assert!(all.contains(&FileChecks::from_flags(true, true, true)));
}
