use shr_daw::control::{control_cc, CONTROL_COUNT};
use shr_daw::controller_learn::{
    map_button, map_control, map_encoder, map_encoder_press, reset_buttons, unmapped_controls,
    button_from_message, resolve_input_name, stable_input_match, Button, LearnAction, LearnRole,
    LearnSession, ENTRY_QUIET_MILLIS, GESTURE_SETTLE_MILLIS,
};
use shr_daw::pads::{ControllerButton, ControllerLayout, PadAction, PadConfig};
use std::collections::HashSet;
use std::time::{Duration, Instant};

fn entry_quiet() -> Duration {
    Duration::from_millis(ENTRY_QUIET_MILLIS)
}

fn gesture_settle() -> Duration {
    Duration::from_millis(GESTURE_SETTLE_MILLIS)
}

struct Harness {
    learn: LearnSession,
    now: Instant,
}

impl Harness {
    fn new() -> Self {
        let start = Instant::now();
        let mut learn = LearnSession::new_at("Test Controller MIDI 44:0", start);
        let now = start + entry_quiet();
        learn.tick(now);
        Self { learn, now }
    }

    fn send(&mut self, message: &[u8]) -> LearnAction {
        self.now += Duration::from_millis(1);
        self.learn.receive(message, self.now)
    }

    fn settle(&mut self) {
        self.now += gesture_settle() + Duration::from_millis(1);
        self.learn.tick(self.now);
    }

    fn learn_master(&mut self, rotary: u8, click: u8, high_low: bool) {
        let (left, right, neutral) = if high_low { (125, 1, 0) } else { (63, 65, 64) };
        self.send(&[0xb0, rotary, left]);
        self.send(&[0xb0, rotary, neutral]);
        self.settle();
        assert_eq!(self.learn.role(), LearnRole::EncoderClockwise);
        self.send(&[0xb0, rotary, right]);
        self.send(&[0xb0, rotary, neutral]);
        self.settle();
        assert_eq!(self.learn.role(), LearnRole::EncoderClick);
        self.send(&[0xb0, click, 127]);
        assert!(self.learn.feedback().contains("OK"));
        self.send(&[0xb0, click, 0]);
        assert_eq!(self.learn.role(), LearnRole::AbsoluteControl(0));
    }

    fn skip_controls(&mut self) {
        for _ in 0..CONTROL_COUNT {
            assert!(self.learn.skip());
        }
        assert_eq!(self.learn.role(), LearnRole::Pad(0));
    }
}

#[test]
fn unstable_alsa_address_is_removed_from_saved_match() {
    assert_eq!(
        stable_input_match("MiniLab3 MIDI:MiniLab3 MIDI 1 24:0"),
        "MiniLab3 MIDI:MiniLab3 MIDI 1"
    );
}

#[test]
fn button_learning_retains_observed_note_and_cc_channels() {
    match button_from_message(&[0x99, 36, 100], &HashSet::new(), &HashSet::new()).unwrap() {
        Button::Note { note, channel } => {
            assert_eq!((note, channel), (36, 9));
        }
        Button::Cc { .. } => panic!("learned note as CC"),
    }

    match button_from_message(&[0xb2, 44, 127], &HashSet::new(), &HashSet::new()).unwrap() {
        Button::Cc { cc, channel } => {
            assert_eq!((cc, channel), (44, 2));
        }
        Button::Note { .. } => panic!("learned CC as note"),
    }
}

#[test]
fn opening_click_release_is_quarantined_before_rotary_left_arms() {
    let start = Instant::now();
    let mut learn = LearnSession::new_at("Controller", start);
    learn.receive(&[0xb0, 118, 0], start + Duration::from_millis(20));
    learn.tick(start + entry_quiet());
    assert_eq!(learn.role(), LearnRole::EncoderCounterClockwise);
    assert_eq!(learn.draft().encoder_relative_cc, None);
    learn.tick(start + Duration::from_millis(20) + entry_quiet());
    learn.receive(&[0xb0, 28, 63], start + Duration::from_millis(141));
    assert_eq!(learn.draft().encoder_relative_cc, Some(28));
}

#[test]
fn left_neutral_cannot_satisfy_right_and_right_waits_for_settle() {
    let mut h = Harness::new();
    h.send(&[0xb0, 28, 63]);
    let success = h.learn.feedback().to_owned();
    h.send(&[0xb0, 28, 64]);
    h.send(&[0xb0, 28, 65]);
    assert_eq!(h.learn.role(), LearnRole::EncoderCounterClockwise);
    assert_eq!(h.learn.feedback(), success);
    h.settle();
    assert_eq!(h.learn.role(), LearnRole::EncoderClockwise);
    h.send(&[0xb0, 28, 65]);
    assert!(h.learn.feedback().contains("right"));
}

#[test]
fn click_press_release_is_consumed_before_control_one_arms() {
    let mut h = Harness::new();
    h.send(&[0xb0, 28, 63]);
    h.settle();
    h.send(&[0xb0, 28, 65]);
    h.settle();
    h.send(&[0xb0, 118, 127]);
    assert_eq!(h.learn.role(), LearnRole::EncoderClick);
    h.send(&[0xb0, 118, 127]);
    assert_eq!(h.learn.role(), LearnRole::EncoderClick);
    h.send(&[0xb0, 118, 0]);
    assert_eq!(h.learn.role(), LearnRole::AbsoluteControl(0));
    assert_eq!(h.learn.draft().encoder_press_cc, Some(118));
}

#[test]
fn absolute_stream_stays_on_control_one_then_advances_once() {
    let mut h = Harness::new();
    h.learn_master(28, 118, false);
    h.send(&[0xb0, 10, 20]);
    let success = h.learn.feedback().to_owned();
    for value in [21, 22, 23] {
        h.send(&[0xb0, 10, value]);
        assert_eq!(h.learn.role(), LearnRole::AbsoluteControl(0));
        assert_eq!(h.learn.feedback(), success);
    }
    h.settle();
    assert_eq!(h.learn.role(), LearnRole::AbsoluteControl(1));
    h.settle();
    assert_eq!(h.learn.role(), LearnRole::AbsoluteControl(1));
}

#[test]
fn next_control_packet_during_settle_is_not_taken_by_control_one() {
    let mut h = Harness::new();
    h.learn_master(28, 118, false);
    h.send(&[0xb0, 10, 20]);
    h.send(&[0xb0, 11, 30]);
    h.settle();
    assert_eq!(h.learn.role(), LearnRole::AbsoluteControl(1));
    assert_eq!(h.learn.draft().controls.len(), 1);
    h.send(&[0xb0, 11, 31]);
    assert_eq!(h.learn.draft().controls.len(), 2);
    assert_eq!(h.learn.draft().controls[&11], control_cc(1));
}

#[test]
fn cc_button_press_and_release_advance_exactly_once() {
    let mut h = Harness::new();
    h.learn_master(28, 118, false);
    h.skip_controls();
    h.send(&[0xb2, 44, 127]);
    h.send(&[0xb2, 44, 127]);
    assert_eq!(h.learn.role(), LearnRole::Pad(0));
    h.send(&[0xb2, 44, 0]);
    assert_eq!(h.learn.role(), LearnRole::Pad(1));
    h.send(&[0xb2, 44, 0]);
    assert_eq!(h.learn.role(), LearnRole::Pad(1));
}

#[test]
fn note_off_and_velocity_zero_release_each_advance_once() {
    let mut h = Harness::new();
    h.learn_master(28, 118, false);
    h.skip_controls();
    h.send(&[0x99, 36, 100]);
    h.send(&[0x89, 36, 0]);
    assert_eq!(h.learn.role(), LearnRole::Pad(1));
    h.send(&[0x99, 37, 100]);
    h.send(&[0x99, 37, 0]);
    assert_eq!(h.learn.role(), LearnRole::Pad(2));
    h.send(&[0x99, 37, 0]);
    assert_eq!(h.learn.role(), LearnRole::Pad(2));
}

#[test]
fn multi_packet_rotary_browse_gesture_skips_one_role() {
    let mut h = Harness::new();
    h.learn_master(28, 118, false);
    for value in [65, 66, 67, 64] {
        h.send(&[0xb0, 28, value]);
    }
    assert_eq!(h.learn.role(), LearnRole::AbsoluteControl(1));
    h.settle();
    assert_eq!(h.learn.role(), LearnRole::AbsoluteControl(1));
}

#[test]
fn save_click_repeats_and_release_produce_one_action() {
    let mut h = Harness::new();
    h.learn_master(28, 118, false);
    assert_eq!(h.send(&[0xb0, 118, 127]), LearnAction::Save);
    assert_eq!(h.send(&[0xb0, 118, 127]), LearnAction::Idle);
    h.learn.mark_save_result(true);
    assert_eq!(h.send(&[0xb0, 118, 0]), LearnAction::FinishSaved);
    assert_eq!(h.send(&[0xb0, 118, 0]), LearnAction::Idle);
}

#[test]
fn retry_clears_only_current_role_and_reentry_has_fresh_quarantine() {
    let mut h = Harness::new();
    h.learn_master(28, 118, false);
    h.send(&[0xb0, 10, 20]);
    h.learn.retry_at(h.now);
    assert_eq!(h.learn.draft().encoder_relative_cc, Some(28));
    assert_eq!(h.learn.draft().encoder_press_cc, Some(118));
    assert!(h.learn.draft().controls.is_empty());
    h.send(&[0xb0, 10, 21]);
    assert!(h.learn.draft().controls.is_empty());
    h.now += entry_quiet();
    h.learn.tick(h.now);
    h.send(&[0xb0, 11, 30]);
    assert_eq!(h.learn.draft().controls[&11], control_cc(0));

    let mut reentered = LearnSession::new_at("Controller", h.now);
    reentered.receive(&[0xb0, 118, 0], h.now + Duration::from_millis(1));
    assert_eq!(reentered.draft().encoder_relative_cc, None);
    assert_eq!(reentered.role(), LearnRole::EncoderCounterClockwise);
}

#[test]
fn minilab_daw_and_user_mode_encoder_pairs_both_learn() {
    for (rotary, click) in [(28, 118), (114, 115)] {
        let mut h = Harness::new();
        h.learn_master(rotary, click, false);
        let config = h.learn.validated_config().unwrap();
        assert_eq!(config.encoder_relative_cc, Some(rotary));
        assert_eq!(config.encoder_press_cc, Some(click));
    }
}

#[test]
fn high_low_encoder_reset_zero_is_part_of_the_gesture() {
    let mut h = Harness::new();
    h.learn_master(114, 115, true);
    assert!(h.learn.draft().encoder_relative_reverse);
    for value in [1, 2, 3, 0] {
        h.send(&[0xb0, 114, value]);
    }
    assert_eq!(h.learn.role(), LearnRole::AbsoluteControl(1));
    h.settle();
    assert_eq!(h.learn.role(), LearnRole::AbsoluteControl(1));
}

#[test]
fn trailing_traffic_cannot_replace_accepted_success_with_conflict() {
    let mut h = Harness::new();
    h.learn_master(28, 118, false);
    h.send(&[0xb0, 10, 20]);
    let success = h.learn.feedback().to_owned();
    h.send(&[0xb0, 10, 21]);
    h.send(&[0xb0, 28, 64]);
    assert_eq!(h.learn.feedback(), success);
    assert!(success.contains("OK"));
}

#[test]
fn optional_command_roles_still_infer_five_button_layout() {
    let mut h = Harness::new();
    h.learn_master(28, 118, false);
    h.skip_controls();
    for _ in 0..4 {
        assert!(h.learn.skip());
    }
    assert_eq!(h.learn.role(), LearnRole::Pad(4));
    h.send(&[0x99, 40, 100]);
    h.send(&[0x89, 40, 0]);
    h.send(&[0x99, 40, 100]);
    assert!(h.learn.draft().pads.is_empty());
    h.send(&[0x89, 40, 0]);
    assert_eq!(h.learn.draft().layout, ControllerLayout::Five);
    assert_eq!(h.learn.draft().pads[&40], PadAction::CyclePage);
}

#[test]
fn four_dedicated_page_buttons_bypass_page_cycle_role() {
    let mut h = Harness::new();
    h.learn_master(28, 118, false);
    h.skip_controls();
    for note in 36..=39 {
        h.send(&[0x99, note, 100]);
        h.send(&[0x89, note, 0]);
    }
    assert_eq!(h.learn.role(), LearnRole::Pad(5));
    assert_eq!(h.learn.draft().layout, ControllerLayout::Eight);
    assert!(!h
        .learn
        .draft()
        .pads
        .values()
        .any(|action| *action == PadAction::CyclePage));
}

#[test]
fn page_cycle_appears_only_after_all_four_page_buttons_are_skipped() {
    let mut h = Harness::new();
    h.learn_master(28, 118, false);
    h.skip_controls();
    for _ in 0..4 {
        assert!(h.learn.skip());
    }
    assert_eq!(h.learn.role(), LearnRole::Pad(4));

    h.send(&[0xb0, 44, 127]);
    h.send(&[0xb0, 44, 0]);
    assert_eq!(h.learn.role(), LearnRole::Pad(4));
    assert!(h.learn.draft().cc_buttons.is_empty());
    h.send(&[0xb0, 44, 127]);
    h.send(&[0xb0, 44, 0]);
    h.settle();
    assert_eq!(h.learn.role(), LearnRole::Pad(5));
    assert_eq!(h.learn.draft().cc_buttons[&44], PadAction::CyclePage);
}

#[test]
fn page_cycle_chord_ignores_modifier_press_and_may_reuse_a_control() {
    let mut h = Harness::new();
    h.learn_master(28, 118, false);
    h.send(&[0xb0, 10, 40]);
    h.settle();
    for _ in 1..CONTROL_COUNT {
        assert!(h.learn.skip());
    }
    assert_eq!(h.learn.role(), LearnRole::Pad(0));
    for _ in 0..4 {
        assert!(h.learn.skip());
    }
    assert_eq!(h.learn.role(), LearnRole::Pad(4));

    h.send(&[0xb0, 27, 127]);
    h.send(&[0xb0, 27, 0]);
    assert_eq!(h.learn.draft().page_cycle_modifier, None);
    h.send(&[0xb0, 27, 127]);
    assert_eq!(h.learn.draft().page_cycle_modifier, None);
    h.send(&[0xb0, 10, 70]);
    assert_eq!(
        h.learn.draft().page_cycle_modifier,
        Some(ControllerButton::Cc { channel: 0, cc: 27 })
    );
    assert_eq!(
        h.learn.draft().page_cycle_trigger,
        Some(ControllerButton::Cc { channel: 0, cc: 10 })
    );
    assert!(h.learn.feedback().contains("OK"));
    h.send(&[0xb0, 10, 71]);
    assert_eq!(h.learn.role(), LearnRole::Pad(4));
    h.send(&[0xb0, 27, 0]);
    assert_eq!(h.learn.role(), LearnRole::Pad(5));
    h.learn.validated_config().unwrap();
}

#[test]
fn input_selection_reports_missing_and_ambiguous_matches() {
    let names = vec![
        "Midi Through:Midi Through Port-0 14:0".to_string(),
        "MiniLab3:MiniLab3 MIDI 24:0".to_string(),
        "Casio:Casio MIDI 28:0".to_string(),
    ];
    assert_eq!(
        resolve_input_name(&names, Some("minilab")),
        Ok("MiniLab3:MiniLab3 MIDI 24:0".to_string())
    );
    assert_eq!(
        resolve_input_name(&names, Some("korg")),
        Err("MIDI input not found: korg".to_string())
    );
    assert_eq!(
        resolve_input_name(&names, Some("MIDI")),
        Err("MIDI input match is ambiguous: MIDI".to_string())
    );
    assert_eq!(
        resolve_input_name(&names, None),
        Err("more than one MIDI input detected; pass part of the port name:\n  MiniLab3:MiniLab3 MIDI 24:0\n  Casio:Casio MIDI 28:0".to_string())
    );
    assert_eq!(
        resolve_input_name(&names[..2], None),
        Ok("MiniLab3:MiniLab3 MIDI 24:0".to_string())
    );
}

#[test]
fn saved_session_ignores_retry_and_further_messages() {
    let mut h = Harness::new();
    h.learn_master(28, 118, false);
    assert!(!h.learn.save_committed());
    assert_eq!(h.send(&[0xb0, 118, 127]), LearnAction::Save);
    h.learn.mark_save_result(true);
    assert!(h.learn.save_committed());
    assert_eq!(h.send(&[0xb0, 118, 0]), LearnAction::FinishSaved);
    h.learn.retry_at(h.now);
    assert_eq!(h.learn.feedback(), "Profile saved · release the encoder to exit");
    assert_eq!(h.learn.draft().encoder_relative_cc, Some(28));
    assert_eq!(h.send(&[0xb0, 10, 20]), LearnAction::Idle);
    assert!(h.learn.draft().controls.is_empty());
}

#[test]
fn master_encoder_roles_cannot_be_skipped_and_progress_counts_steps() {
    let mut h = Harness::new();
    assert_eq!(h.learn.progress(), (1, 21));
    assert!(!h.learn.skip());
    assert_eq!(h.learn.feedback(), "Learn the master encoder first · Esc cancels");
    assert!(h.learn.validated_config().is_err());
    h.learn_master(28, 118, false);
    assert_eq!(h.learn.progress(), (4, 21));
    assert!(!h.learn.previous());
    assert_eq!(LearnRole::AbsoluteControl(0).label(), "CONTROL 1 · Filter cutoff");
    assert_eq!(LearnRole::Pad(4).label(), "PAGE SWITCH · BUTTON OR MODIFIER + CONTROL");
    assert_eq!(LearnRole::Pad(0).label(), "COMMAND BUTTON · page-1");
}

#[test]
fn console_learning_maps_controls_encoder_and_buttons() {
    let mut config = PadConfig::unmapped("Pad".into());
    assert_eq!(unmapped_controls(&config), (0..CONTROL_COUNT).collect::<Vec<_>>());
    map_control(&mut config, 20, 1);
    assert_eq!(config.controls.get(&20), Some(&control_cc(1)));
    assert_eq!(unmapped_controls(&config), [0, 2, 3, 4, 5, 6, 7]);

    assert_eq!(
        map_encoder(&mut config, 30, 64).unwrap_err(),
        "encoder sent only its stationary value; turn it farther and retry"
    );
    assert_eq!(config.encoder_relative_cc, None);
    map_encoder(&mut config, 30, 127).unwrap();
    assert_eq!(config.encoder_relative_cc, Some(30));
    assert!(!config.encoder_relative_reverse);
    map_encoder(&mut config, 31, 1).unwrap();
    assert!(config.encoder_relative_reverse);
    map_encoder_press(&mut config, Button::Note { note: 60, channel: 0 });
    assert_eq!(config.encoder_press_note, Some(60));

    config.lock_cc = Some(90);
    assert_eq!(
        reset_buttons(&mut config, 3).unwrap_err(),
        "command-button count must be 0, 4, 5, or 8"
    );
    let actions = reset_buttons(&mut config, 5).unwrap();
    assert_eq!(
        actions,
        [PadAction::CyclePage, PadAction::Item1, PadAction::Item2, PadAction::Item3, PadAction::Item4]
    );
    assert_eq!(config.layout, ControllerLayout::Five);
    assert_eq!(config.lock_cc, Some(90));
    map_button(&mut config, PadAction::Item1, Button::Cc { cc: 40, channel: 2 });
    map_button(&mut config, PadAction::Item2, Button::Note { note: 36, channel: 9 });
    assert_eq!(config.cc_buttons.get(&40), Some(&PadAction::Item1));
    assert_eq!(config.cc_button_channels.get(&40), Some(&2));
    assert_eq!(config.pads.get(&36), Some(&PadAction::Item2));
    assert_eq!(config.pad_channels.get(&36), Some(&9));
    assert_eq!(reset_buttons(&mut config, 8).unwrap().len(), 8);
    assert!(config.pads.is_empty() && config.cc_buttons.is_empty());
    assert!(reset_buttons(&mut config, 0).unwrap().is_empty());
    assert_eq!(config.layout, ControllerLayout::Four);
    assert_eq!(config.lock_cc, None);
}

#[test]
fn a_learned_cc_cannot_serve_a_second_control() {
    let mut h = Harness::new();
    h.learn_master(21, 22, false);
    assert_eq!(h.learn.role(), LearnRole::AbsoluteControl(0));
    h.send(&[0xb0, 23, 40]);
    h.settle();
    assert_eq!(h.learn.role(), LearnRole::AbsoluteControl(1));
    h.send(&[0xb0, 23, 41]);
    assert_eq!(h.learn.role(), LearnRole::AbsoluteControl(1));
    assert!(h.learn.feedback().contains("Conflict · CC 23"));
    assert_eq!(h.learn.draft().controls.len(), 1);
    assert_eq!(h.learn.draft().controls.get(&23), Some(&control_cc(0)));
    assert_eq!(h.learn.draft().encoder_relative_cc, Some(21));
    assert_eq!(h.learn.draft().encoder_press_cc, Some(22));
}
