use toneframe::audio_input::{capture_index, capture_start_outcome, device_not_found, listed_audio_inputs};
use toneframe::decimal::render_decimal;
use toneframe::device_id::{native_device_id, parse_native_index};

#[test]
fn renders_decimal_like_display() {
    assert_eq!(render_decimal(0), "0");
    assert_eq!(render_decimal(7), "7");
    assert_eq!(render_decimal(10), "10");
    assert_eq!(render_decimal(1234567), "1234567");
    assert_eq!(render_decimal(usize::MAX), usize::MAX.to_string());
}

#[test]
fn builds_native_ids() {
    assert_eq!(native_device_id(0), "native:0");
    assert_eq!(native_device_id(12), "native:12");
}

#[test]
fn parses_native_ids() {
    assert_eq!(parse_native_index("native:0"), Some(0));
    assert_eq!(parse_native_index("native:3"), Some(3));
    assert_eq!(parse_native_index("native:42"), Some(42));
    assert_eq!(parse_native_index("native:007"), Some(7));
    assert_eq!(parse_native_index("native:+5"), Some(5));
}

#[test]
fn parse_agrees_with_std_on_odd_input() {
    let samples = [
        "native:", "native:+", "native:-1", "native:1 ", "native: 1", "Native:1", "native1",
        "nat", "", "native:1a", "native:++1", "native:٣", "native:18446744073709551616",
        "native:99999999999999999999999999", "xnative:1",
    ];
    for s in samples {
        let expected = s.strip_prefix("native:").and_then(|r| r.parse::<usize>().ok());
        assert_eq!(parse_native_index(s), expected, "input {:?}", s);
    }
    let max = format!("native:{}", usize::MAX);
    assert_eq!(parse_native_index(&max), Some(usize::MAX));
}

#[test]
fn native_id_round_trip() {
    for i in [0usize, 1, 9, 10, 99, 100, 65535, usize::MAX] {
        assert_eq!(parse_native_index(&native_device_id(i)), Some(i));
    }
}

#[test]
fn lists_named_devices_in_order() {
    let names = vec![Ok("Built-in Microphone".to_string()), Ok("USB Interface".to_string())];
    let out = listed_audio_inputs(&names).unwrap();
    assert_eq!(out.len(), 2);
    assert_eq!(out[0].id, "native:0");
    assert_eq!(out[0].name, "Built-in Microphone");
    assert_eq!(out[1].id, "native:1");
    assert_eq!(out[1].name, "USB Interface");
    assert_eq!(parse_native_index(&out[1].id), Some(1));
}

#[test]
fn empty_enumeration_is_an_error() {
    let names: Vec<Result<String, String>> = Vec::new();
    assert_eq!(listed_audio_inputs(&names).err().unwrap(), "no audio input devices found");
}

#[test]
fn first_unnamed_device_gives_the_error() {
    let names = vec![
        Ok("A".to_string()),
        Err("first failure".to_string()),
        Err("second failure".to_string()),
    ];
    assert_eq!(listed_audio_inputs(&names).err().unwrap(), "first failure");
}

#[test]
fn capture_index_accepts_native_ids_only() {
    assert_eq!(capture_index("native:2"), Ok(2));
    assert_eq!(capture_index("default").unwrap_err(), "invalid device id; expected native:N");
}

#[test]
fn start_outcomes() {
    assert_eq!(capture_start_outcome(Some(Ok(48000))).ok().unwrap().sample_rate, 48000);
    assert_eq!(capture_start_outcome(Some(Err("boom".to_string()))).err().unwrap(), "boom");
    assert_eq!(
        capture_start_outcome(None).err().unwrap(),
        "native capture thread failed before reporting status (channel closed)"
    );
}

#[test]
fn missing_device_message() {
    assert_eq!(device_not_found(4), "audio input device index 4 not found");
}
