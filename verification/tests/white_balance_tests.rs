use calibraw_core::white_balance_presets::{
    check_unique_presets, find_duplicate_preset, normalized_camera_name, PresetKey,
};

fn key(maker: &str, model: &str, name: &str) -> PresetKey {
    PresetKey {
        maker: maker.to_owned(),
        model: model.to_owned(),
        name: name.to_owned(),
    }
}

#[test]
fn camera_names_keep_upper_case_letters_and_digits() {
    assert_eq!(normalized_camera_name("ILCE-7CM2"), "ILCE7CM2");
    assert_eq!(normalized_camera_name("Sony"), "SONY");
    assert_eq!(normalized_camera_name("dc-s9 (mk ii)"), "DCS9MKII");
    assert_eq!(normalized_camera_name("Ünïcode α7"), "NCODE7");
    assert_eq!(normalized_camera_name(""), "");
}

#[test]
fn repeated_preset_keys_are_reported() {
    let keys = vec![
        key("Panasonic", "DC-S9", "Daylight"),
        key("Panasonic", "DC-S9", "Shade"),
        key("Panasonic", "DC-S9", "Shade"),
    ];
    assert_eq!(find_duplicate_preset(&keys), Some(2));
    let error = check_unique_presets(&keys).unwrap_err();
    assert!(error.contains("Panasonic DC-S9: Shade"), "{error}");
    assert_eq!(error, "duplicate white-balance preset for Panasonic DC-S9: Shade");
}

#[test]
fn distinct_preset_keys_are_accepted() {
    let keys = vec![
        key("Panasonic", "DC-S9", "Shade"),
        key("Panasonic", "DC-S5", "Shade"),
        key("Sony", "DC-S9", "Shade"),
    ];
    assert_eq!(find_duplicate_preset(&keys), None);
    assert!(check_unique_presets(&keys).is_ok());
    assert!(check_unique_presets(&Vec::new()).is_ok());
}

#[test]
fn duplicate_camera_preset_names_are_rejected() {
    let keys = vec![key("Panasonic", "DC-S9", "Shade"), key("Panasonic", "DC-S9", "Shade")];
    let error = match check_unique_presets(&keys) {
        Ok(_) => panic!("duplicate preset names must fail"),
        Err(error) => error,
    };
    assert!(error.contains("Panasonic DC-S9: Shade"));
}
