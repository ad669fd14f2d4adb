use calibraw_core::raw_loader::CameraProfileMode;
use calibraw_core::dcp_profiles::{
    choose_camera_profile, dcp_file_size_accepted, dcp_scan_enters, dcp_scan_start, dcp_scan_step,
    CameraProfileChoice, DcpEntryKind, DcpScanAction, DcpScanState, MAX_DCP_SCAN_DEPTH, MAX_DCP_SCAN_FILES,
    dcp_candidates, dcp_match_keys, dcp_match_score, dcp_profile_display_name,
    disambiguate_dcp_names, is_dcp_path, normalize_camera_name, MAX_DCP_FILE_BYTES, sort_dcp_matches, IndexedDcpProfile,
    MatchedDcpProfile,
};

fn matched(score: i32, name: &str, path: &str, profile: u8) -> MatchedDcpProfile<u8> {
    MatchedDcpProfile { score, path: path.to_owned(), name: name.to_owned(), profile }
}

fn indexed(path: &str, profile_name: Option<&str>, camera_model: Option<&str>) -> IndexedDcpProfile {
    IndexedDcpProfile {
        path: path.to_owned(),
        name: dcp_profile_display_name(profile_name, path),
        profile_name: profile_name.map(str::to_owned),
        camera_model: camera_model.map(str::to_owned),
    }
}

#[test]
fn camera_names_keep_lowercased_alphanumerics() {
    assert_eq!(normalize_camera_name("Canon EOS R5"), "canoneosr5");
    assert_eq!(normalize_camera_name("Ä-7 (Mk II)"), "ä7mkii");
    assert_eq!(normalize_camera_name(" -_/ "), "");
    let (make, model, combined) = dcp_match_keys("Sony", "ILCE-7M4");
    assert_eq!(make, "sony");
    assert_eq!(model, "ilce7m4");
    assert_eq!(combined, "sonyilce7m4");
}

#[test]
fn declared_camera_model_decides_the_base_score() {
    let score = dcp_match_score(
        Some("ILCE-7M4"),
        Some("Camera Standard"),
        "/profiles/Sony ILCE-7M4 Camera Standard.dcp",
        "sony",
        "ilce7m4",
        "sonyilce7m4",
    );
    assert_eq!(score, 1045);
    let contained = dcp_match_score(Some("Sony ILCE-7M4 v2"), None, "/p/x.dcp", "sony", "ilce7m4", "sonyilce7m4");
    assert_eq!(contained, 925);
    let other = dcp_match_score(Some("ILCE-7M3"), None, "/p/ILCE-7M4.dcp", "sony", "ilce7m4", "sonyilce7m4");
    assert_eq!(other, 0);
}

#[test]
fn file_stem_and_path_are_searched_without_a_declared_model() {
    assert_eq!(dcp_match_score(None, None, "/p/ILCE-7M4.dcp", "sony", "ilce7m4", "sonyilce7m4"), 700);
    assert_eq!(
        dcp_match_score(None, None, "/p/ILCE-7M4 Vivid.dcp", "", "ilce7m4", "sonyilce7m4"),
        600
    );
    assert_eq!(
        dcp_match_score(None, None, "/Sony/ILCE-7M4 set/x_Monochrome.dcp", "sony", "ilce7m4", "sonyilce7m4"),
        545
    );
    assert_eq!(
        dcp_match_score(None, Some("Adobe Standard"), "/p/ILCE-7M4.dcp", "sony", "ilce7m4", "sonyilce7m4"),
        715
    );
    assert_eq!(
        dcp_match_score(None, Some("Camera BW"), "/p/ILCE-7M4.dcp", "", "ilce7m4", "sonyilce7m4"),
        670
    );
}

#[test]
fn short_model_keys_only_match_exactly() {
    assert_eq!(dcp_match_score(Some("Sony A1 X"), None, "/p/a1.dcp", "sony", "a1", "sonya1"), 0);
    assert_eq!(dcp_match_score(None, None, "/p/Sony A1 extra.dcp", "sony", "a1", "sonya1"), 0);
    assert_eq!(dcp_match_score(None, None, "/p/A1.dcp", "sony", "a1", "sonya1"), 700);
}

#[test]
fn display_name_prefers_the_trimmed_profile_name() {
    assert_eq!(dcp_profile_display_name(Some("  Portrait  "), "/x/y.dcp"), "Portrait");
    assert_eq!(dcp_profile_display_name(Some("   "), "/x/y.dcp"), "y");
    assert_eq!(dcp_profile_display_name(None, "/x/Camera Neutral.dcp"), "Camera Neutral");
    assert_eq!(dcp_profile_display_name(None, ""), "Camera profile");
}

#[test]
fn candidates_are_the_positive_scores_in_index_order() {
    let index = vec![
        indexed("/p/ILCE-7M4.dcp", None, None),
        indexed("/p/ILCE-7M3.dcp", None, None),
        indexed("/p/other.dcp", Some("Camera Standard"), Some("ILCE-7M4")),
    ];
    assert_eq!(index[2].name, "Camera Standard");
    assert_eq!(dcp_candidates(&index, "Sony", "ILCE-7M4"), vec![(0, 700), (2, 1020)]);
    assert_eq!(dcp_candidates(&index, "Sony", " - "), Vec::new());
}

#[test]
fn matches_sort_by_score_then_name_then_path() {
    let sorted = sort_dcp_matches(vec![
        matched(900, "b", "/2", 0),
        matched(1000, "Z", "/1", 1),
        matched(900, "A", "/3", 2),
        matched(900, "a", "/0", 3),
    ]);
    let profiles: Vec<u8> = sorted.iter().map(|m| m.profile).collect();
    assert_eq!(profiles, vec![1, 3, 2, 0]);
    let tied = sort_dcp_matches(vec![matched(5, "x", "/p", 0), matched(5, "X", "/P", 1)]);
    assert_eq!(tied[0].profile, 0);
    assert_eq!(tied[1].profile, 1);
    assert!(sort_dcp_matches::<u8>(Vec::new()).is_empty());
}

#[test]
fn shared_names_get_their_file_name() {
    let named = disambiguate_dcp_names(vec![
        matched(1000, "Z", "/1.dcp", 0),
        matched(900, "a", "/dir/0.dcp", 1),
        matched(900, "A", "/3.dcp", 2),
        matched(900, "b", "/2.dcp", 3),
    ]);
    let names: Vec<&str> = named.iter().map(|m| m.name.as_str()).collect();
    assert_eq!(names, vec!["Z", "a \u{2014} 0.dcp", "A", "b"]);
    let three = disambiguate_dcp_names(vec![
        matched(1, "Std", "/a.dcp", 0),
        matched(1, "std", "/b.dcp", 1),
        matched(1, "STD", "/c.dcp", 2),
    ]);
    let names: Vec<&str> = three.iter().map(|m| m.name.as_str()).collect();
    assert_eq!(names, vec!["Std \u{2014} a.dcp", "std \u{2014} b.dcp", "STD"]);
}

#[test]
fn profile_files_are_found_by_extension() {
    assert!(is_dcp_path("/profiles/Sony ILCE-7M4 Camera Standard.dcp"));
    assert!(is_dcp_path("/profiles/NIKON.DCP"));
    assert!(!is_dcp_path("/profiles/readme.txt"));
    assert!(!is_dcp_path("/profiles/dcp"));
    assert_eq!(MAX_DCP_FILE_BYTES, 67_108_864);
}

#[test]
fn profile_scan_counts_entries_and_descends_into_folders() {
    let start = dcp_scan_start();
    assert_eq!(start, DcpScanState { scanned: 0 });
    assert_eq!(
        dcp_scan_step(start, 0, DcpEntryKind::Directory, "/p/Sony"),
        (DcpScanState { scanned: 1 }, DcpScanAction::Descend { depth: 1 })
    );
    assert_eq!(
        dcp_scan_step(start, 3, DcpEntryKind::File, "/p/a.DCP"),
        (DcpScanState { scanned: 1 }, DcpScanAction::CheckSize)
    );
    assert_eq!(
        dcp_scan_step(start, 3, DcpEntryKind::File, "/p/a.txt"),
        (DcpScanState { scanned: 1 }, DcpScanAction::Skip)
    );
    for kind in [DcpEntryKind::Symlink, DcpEntryKind::Unreadable, DcpEntryKind::Other] {
        assert_eq!(dcp_scan_step(start, 0, kind, "/p/x.dcp"), (DcpScanState { scanned: 1 }, DcpScanAction::Skip));
    }
    let full = DcpScanState { scanned: MAX_DCP_SCAN_FILES };
    assert_eq!(dcp_scan_step(full, 0, DcpEntryKind::File, "/p/a.dcp"), (full, DcpScanAction::Stop));
    assert!(dcp_scan_enters(MAX_DCP_SCAN_DEPTH));
    assert!(!dcp_scan_enters(MAX_DCP_SCAN_DEPTH + 1));
    assert!(dcp_file_size_accepted(Some(1)));
    assert!(dcp_file_size_accepted(Some(MAX_DCP_FILE_BYTES)));
    assert!(!dcp_file_size_accepted(Some(0)));
    assert!(!dcp_file_size_accepted(Some(MAX_DCP_FILE_BYTES + 1)));
    assert!(!dcp_file_size_accepted(None));
}

#[test]
fn requested_profile_wins_and_dcp_mode_falls_back_to_the_best_match() {
    let matches = vec![matched(1000, "A", "/p/a.dcp", 0), matched(900, "B", "/p/b.dcp", 1)];
    let choice = |mode, requested| choose_camera_profile(mode, &matches, requested);
    assert_eq!(
        choice(CameraProfileMode::Automatic, Some("/p//b.dcp")),
        CameraProfileChoice { chosen: Some(1), requested_missing: false }
    );
    assert_eq!(
        choice(CameraProfileMode::Automatic, None),
        CameraProfileChoice { chosen: None, requested_missing: false }
    );
    assert_eq!(
        choice(CameraProfileMode::DcpProfiles, Some("/p/c.dcp")),
        CameraProfileChoice { chosen: Some(0), requested_missing: true }
    );
    assert_eq!(
        choice(CameraProfileMode::MatrixOnly, Some("/p/a.dcp")),
        CameraProfileChoice { chosen: None, requested_missing: false }
    );
    assert_eq!(
        choose_camera_profile::<u8>(CameraProfileMode::DcpProfiles, &Vec::new(), None),
        CameraProfileChoice { chosen: None, requested_missing: false }
    );
}
