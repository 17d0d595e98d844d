use walrs::terminal::{broadcast_warnings, device_payload, is_terminal_device_name, DeviceOutcome};

fn sample_palette() -> Vec<(u8, u8, u8)> {
    let mut p: Vec<(u8, u8, u8)> = Vec::new();
    p.push((0x00, 0x00, 0x00));
    p.push((0xff, 0x00, 0x00));
    for i in 2..16u8 {
        p.push((i, 16 + i, 32 + i));
    }
    p
}

fn expected_payload(p: &[(u8, u8, u8)]) -> Vec<u8> {
    let mut s = String::new();
    for (i, (r, g, b)) in p.iter().take(16).enumerate() {
        s.push_str(&format!("\x1b]4;{i};#{r:02x}{g:02x}{b:02x}\x1b\\"));
    }
    for (code, slot) in [(10, 7), (11, 0), (12, 15), (708, 5)] {
        let (r, g, b) = p[slot];
        s.push_str(&format!("\x1b]{code};#{r:02x}{g:02x}{b:02x}\x1b\\"));
    }
    s.into_bytes()
}

#[test]
fn payload_starts_with_slot_sequences_in_index_order() {
    let palette = sample_palette();
    let payload = device_payload(&palette);
    assert!(payload.starts_with(b"\x1b]4;0;#000000\x1b\\"));
    assert!(payload[15..].starts_with(b"\x1b]4;1;#ff0000\x1b\\"));
}

#[test]
fn payload_matches_protocol_byte_for_byte() {
    let palette = sample_palette();
    assert_eq!(device_payload(&palette), expected_payload(&palette));
}

#[test]
fn payload_ignores_entries_beyond_sixteen() {
    let mut palette = sample_palette();
    let base = device_payload(&palette);
    palette.push((9, 9, 9));
    assert_eq!(device_payload(&palette), base);
}

#[test]
fn fixed_mappings_use_slots_7_0_15_5() {
    let palette = sample_palette();
    let payload = device_payload(&palette);
    let tail = {
        let (r, g, b) = palette[7];
        let mut s = format!("\x1b]10;#{r:02x}{g:02x}{b:02x}\x1b\\");
        let (r, g, b) = palette[0];
        s.push_str(&format!("\x1b]11;#{r:02x}{g:02x}{b:02x}\x1b\\"));
        let (r, g, b) = palette[15];
        s.push_str(&format!("\x1b]12;#{r:02x}{g:02x}{b:02x}\x1b\\"));
        let (r, g, b) = palette[5];
        s.push_str(&format!("\x1b]708;#{r:02x}{g:02x}{b:02x}\x1b\\"));
        s.into_bytes()
    };
    assert!(payload.ends_with(&tail));
}

#[test]
fn device_names_must_be_plain_integers() {
    assert!(is_terminal_device_name(&b"0".to_vec()));
    assert!(is_terminal_device_name(&b"12".to_vec()));
    assert!(!is_terminal_device_name(&b"ptmx".to_vec()));
    assert!(!is_terminal_device_name(&b"".to_vec()));
    assert!(!is_terminal_device_name(&b"-1".to_vec()));
    assert!(!is_terminal_device_name(&b"1a".to_vec()));
}

#[test]
fn one_unwritable_device_only_warns_for_itself() {
    let results = vec![
        (b"3".to_vec(), DeviceOutcome::WriteFailed),
        (b"5".to_vec(), DeviceOutcome::Written),
    ];
    let warnings = broadcast_warnings(&results);
    assert_eq!(warnings, vec![b"3".to_vec()]);
}

#[test]
fn unopenable_devices_are_skipped_silently() {
    let results = vec![
        (b"2".to_vec(), DeviceOutcome::OpenFailed),
        (b"4".to_vec(), DeviceOutcome::WriteFailed),
        (b"6".to_vec(), DeviceOutcome::Written),
    ];
    assert_eq!(broadcast_warnings(&results), vec![b"4".to_vec()]);
}

#[test]
fn all_successes_warn_about_nothing() {
    let results = vec![
        (b"1".to_vec(), DeviceOutcome::Written),
        (b"2".to_vec(), DeviceOutcome::Written),
    ];
    assert_eq!(broadcast_warnings(&results), Vec::<Vec<u8>>::new());
}
