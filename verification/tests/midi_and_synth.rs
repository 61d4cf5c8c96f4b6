use toneframe::midi_input::{fallback_port_label, listed_midi_inputs, StreamRegistry};
use toneframe::permission::{
    media_type_unavailable, permission_answer, permission_step, PermissionStatus, PermissionStep,
};
use toneframe::synth_engine::{note_action, EngineTable, NoteAction, SynthNoteEvent};

fn event(kind: &str, note: Option<i32>, velocity: Option<i32>) -> SynthNoteEvent {
    SynthNoteEvent { kind: kind.to_string(), note, velocity, controller: None, value: None }
}

#[test]
fn midi_ports_listed_with_fallback_names() {
    let names = vec![Some("Keystation".to_string()), None, Some("Pads".to_string())];
    let out = listed_midi_inputs(&names);
    assert_eq!(out.len(), 3);
    assert_eq!((out[0].index, out[0].name.as_str()), (0, "Keystation"));
    assert_eq!((out[1].index, out[1].name.as_str()), (1, "MIDI input 1"));
    assert_eq!((out[2].index, out[2].name.as_str()), (2, "Pads"));
    assert_eq!(fallback_port_label(12), "MIDI input 12");
}

#[test]
fn registry_keeps_one_stream_per_input() {
    let mut r: StreamRegistry<u32> = StreamRegistry::new();
    assert_eq!(r.insert("kbd".to_string(), 1), None);
    assert_eq!(r.insert("pads".to_string(), 2), None);
    assert_eq!(r.remove("kbd"), Some(1));
    assert_eq!(r.insert("kbd".to_string(), 3), None);
    assert_eq!(r.insert("kbd".to_string(), 4), Some(3));
    assert_eq!(r.remove("kbd"), Some(4));
    assert_eq!(r.remove("kbd"), None);
    assert_eq!(r.remove("pads"), Some(2));
    assert_eq!(r.remove("missing"), None);
}

#[test]
fn engine_handles_start_at_one_and_count_up() {
    let mut t: EngineTable<&str> = EngineTable::new();
    assert_eq!(t.next_handle_value(), 1);
    assert_eq!(t.create("a"), 1);
    assert_eq!(t.next_handle_value(), 2);
    assert_eq!(t.create("b"), 2);
    assert_eq!(t.get(1), Some(&"a"));
    assert_eq!(t.release(1), Some("a"));
    assert_eq!(t.get(1), None);
    assert_eq!(t.release(1), None);
    assert_eq!(t.create("c"), 3);
    assert_eq!(t.get(2), Some(&"b"));
    assert_eq!(t.get(3), Some(&"c"));
}

#[test]
fn note_on_defaults_and_clamps() {
    assert_eq!(note_action(&event("noteOn", None, None)), NoteAction::NoteOn { note: 60, velocity: 100 });
    assert_eq!(note_action(&event("noteOn", Some(72), Some(64))), NoteAction::NoteOn { note: 72, velocity: 64 });
    assert_eq!(note_action(&event("noteOn", Some(40), Some(0))), NoteAction::NoteOn { note: 40, velocity: 1 });
    assert_eq!(note_action(&event("noteOn", Some(40), Some(300))), NoteAction::NoteOn { note: 40, velocity: 127 });
    assert_eq!(note_action(&event("noteOn", Some(40), Some(-5))), NoteAction::NoteOn { note: 40, velocity: 1 });
}

#[test]
fn note_off_and_other_kinds() {
    assert_eq!(note_action(&event("noteOff", Some(60), None)), NoteAction::NoteOff);
    assert_eq!(note_action(&event("cc", None, None)), NoteAction::Ignored);
    assert_eq!(note_action(&event("NoteOn", None, None)), NoteAction::Ignored);
}

#[test]
fn permission_steps() {
    assert_eq!(permission_step(PermissionStatus::Authorized), PermissionStep::Granted);
    assert_eq!(permission_step(PermissionStatus::Denied), PermissionStep::RefusedOpenSettings);
    assert_eq!(permission_step(PermissionStatus::Restricted), PermissionStep::RefusedOpenSettings);
    assert_eq!(permission_step(PermissionStatus::NotDetermined), PermissionStep::AskUser);
}

#[test]
fn permission_answers() {
    assert_eq!(permission_answer(Some(true)), Ok(true));
    assert_eq!(permission_answer(Some(false)), Err("denied".to_string()));
    assert_eq!(permission_answer(None), Err("permission request timed out".to_string()));
    assert_eq!(media_type_unavailable(), Err("AVMediaTypeAudio constant unavailable".to_string()));
}

#[test]
fn release_after_create_restores_live_set() {
    let mut t: EngineTable<u8> = EngineTable::new();
    let a = t.create(10);
    let b = t.create(20);
    assert_eq!(t.release(b), Some(20));
    assert_eq!(t.release(b), None);
    assert_eq!(t.get(a), Some(&10));
    assert_eq!(t.get(b), None);
    let c = t.create(30);
    assert!(c != a && c != b);
    assert_eq!(t.get(c), Some(&30));
}
