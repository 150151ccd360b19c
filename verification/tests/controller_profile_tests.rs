use shr_daw::controller_profile::{validate_catalog, Catalog, ControllerProfile};
use shr_daw::pads::{ControllerLayout, PadAction, PadConfig};
use std::collections::HashMap;

fn minimal_profile() -> ControllerProfile {
    ControllerProfile {
        id: "test-controller".into(),
        name: "Test Controller".into(),
        match_names: vec!["test controller".into()],
        layout: 4,
        controls: HashMap::new(),
        encoder_relative_cc: None,
        encoder_relative_reverse: false,
        encoder_press_cc: None,
        encoder_press_note: None,
        lock_cc: None,
        note_buttons: HashMap::new(),
        note_button_channels: HashMap::new(),
        cc_buttons: HashMap::new(),
        cc_button_channels: HashMap::new(),
        source: "hardware verification".into(),
    }
}

#[test]
fn catalog_rejects_out_of_range_and_conflicting_physical_messages() {
    let mut profile = minimal_profile();
    profile.controls.insert(128, 74);
    assert!(profile.validate().is_err());

    profile = minimal_profile();
    profile.encoder_press_note = Some(36);
    profile.note_buttons.insert(36, "item-1".into());
    assert!(profile.validate().is_err());

    profile = minimal_profile();
    profile.encoder_press_cc = Some(118);
    profile.encoder_press_note = Some(36);
    assert!(profile.validate().is_err());

    profile = minimal_profile();
    profile.note_button_channels.insert(36, 10);
    assert!(profile.validate().is_err());

    profile = minimal_profile();
    profile.note_buttons.insert(36, "item-1".into());
    profile.note_button_channels.insert(36, 17);
    assert!(profile.validate().is_err());

    profile = minimal_profile();
    profile.cc_buttons.insert(44, "item-1".into());
    profile.cc_button_channels.insert(44, 0);
    assert!(profile.validate().is_err());
}

#[test]
fn equally_specific_controller_profiles_do_not_auto_select() {
    let mut first = minimal_profile();
    first.id = "first".into();
    let mut second = minimal_profile();
    second.id = "second".into();
    let catalog = Catalog::from_found(vec![first, second]);

    assert!(catalog.matching("Test Controller MIDI").is_none());
}

#[test]
fn validation_messages_name_the_problem() {
    let mut profile = minimal_profile();
    profile.id = "  ".into();
    assert_eq!(
        profile.validate().unwrap_err(),
        "controller profile needs a non-empty id and name"
    );
    profile = minimal_profile();
    profile.match_names = vec!["--".into()];
    assert_eq!(
        profile.validate().unwrap_err(),
        "controller profile test-controller needs a match name"
    );
    profile = minimal_profile();
    profile.layout = 6;
    assert_eq!(
        profile.validate().unwrap_err(),
        "controller profile test-controller layout must be 4, 5, or 8"
    );
    profile = minimal_profile();
    profile.controls.insert(20, 99);
    assert_eq!(
        profile.validate().unwrap_err(),
        "controller profile test-controller has unknown target CC 99"
    );
    profile = minimal_profile();
    profile.cc_buttons.insert(44, "jump".into());
    assert_eq!(
        profile.validate().unwrap_err(),
        "controller profile test-controller has invalid action jump"
    );
    profile = minimal_profile();
    profile.controls.insert(20, 74);
    profile.encoder_relative_cc = Some(20);
    assert_eq!(
        profile.validate().unwrap_err(),
        "controller profile test-controller reuses CC 20"
    );
    profile = minimal_profile();
    profile.lock_cc = Some(200);
    assert_eq!(
        profile.validate().unwrap_err(),
        "controller profile lock CC 200 is outside the MIDI range 0..=127"
    );
}

#[test]
fn applying_a_profile_installs_its_mapping_with_zero_based_channels() {
    let mut profile = minimal_profile();
    profile.layout = 8;
    profile.controls.insert(20, 74);
    profile.note_buttons.insert(36, "page-1".into());
    profile.note_button_channels.insert(36, 10);
    profile.cc_buttons.insert(44, "item-1".into());
    profile.cc_button_channels.insert(44, 3);
    profile.encoder_relative_cc = Some(28);
    profile.encoder_press_cc = Some(118);
    let mut config = PadConfig::unmapped(String::new());
    profile.apply(&mut config, "Test Controller MIDI").unwrap();
    assert_eq!(config.input_match.as_deref(), Some("Test Controller MIDI"));
    assert_eq!(config.layout, ControllerLayout::Eight);
    assert_eq!(config.controls, HashMap::from([(20, 74)]));
    assert_eq!(config.pads, HashMap::from([(36, PadAction::Page1)]));
    assert_eq!(config.pad_channels, HashMap::from([(36, 9)]));
    assert_eq!(config.cc_buttons, HashMap::from([(44, PadAction::Item1)]));
    assert_eq!(config.cc_button_channels, HashMap::from([(44, 2)]));
    assert_eq!(config.encoder_relative_cc, Some(28));
    assert_eq!(config.encoder_press_cc, Some(118));
}

#[test]
fn matching_prefers_the_most_specific_name_and_ignores_punctuation() {
    let mut generic = minimal_profile();
    generic.id = "generic".into();
    generic.match_names = vec!["minilab".into()];
    let mut specific = minimal_profile();
    specific.id = "specific".into();
    specific.match_names = vec!["MiniLab 3".into(), "nothing".into()];
    let mut invalid = minimal_profile();
    invalid.id = "invalid".into();
    invalid.layout = 7;
    invalid.match_names = vec!["arturia minilab 3".into()];
    let catalog = Catalog::from_found(vec![generic, specific, invalid]);
    assert_eq!(catalog.profiles().len(), 2);
    assert_eq!(
        catalog.matching("20:0 Arturia MiniLab3 MIDI 1").unwrap().id,
        "specific"
    );
    assert_eq!(catalog.matching("MiniLab MkII").unwrap().id, "generic");
    assert!(catalog.matching("Launchkey").is_none());
    assert!(minimal_profile().matches("TEST-CONTROLLER port"));
}

#[test]
fn downloaded_catalog_profiles_are_all_checked() {
    let profile = minimal_profile();
    assert_eq!(validate_catalog(&[profile.clone()]), Ok(1));
    assert_eq!(
        validate_catalog(&[profile.clone(), profile.clone()]),
        Err("duplicate controller profile id test-controller".to_string())
    );
    let mut bad = profile.clone();
    bad.layout = 3;
    assert!(validate_catalog(&[profile, bad]).is_err());
}
