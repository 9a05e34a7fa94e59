//! Tests of the MIDI patch-bay parsing, over a captured listing.

use lv2_ctl::midi_actions::connect;
use lv2_ctl::midi_actions::disconnect;
use lv2_ctl::midi_actions::list_connections;
use lv2_ctl::midi_actions::list_devices;
use lv2_ctl::midi_actions::map_midi_ports;
use lv2_ctl::midi_actions::MidiError;

/// A patch-bay listing of the shape `aconnect -l` prints.
fn sample_listing() -> String {
    [
        "client 0: 'System' [type=kernel]",
        "    0 'Timer           '",
        "    1 'Announce        '",
        "client 14: 'Midi Through' [type=kernel]",
        "    0 'Midi Through Port-0'",
        "\tConnecting To: 128:0",
        "client 128: 'Synth' [type=user,pid=1018]",
        "    0 'Synth In        '",
    ]
    .join("\n")
}

#[test]
fn test_list_devices() {
    let devices = list_devices(sample_listing().as_str()).unwrap();
    for dev in devices.iter() {
        println!("Device: {dev}");
    }
    assert!(devices.len() > 0);
    assert_eq!(devices[0], "System:Timer");
    assert_eq!(devices[2], "Midi Through:Midi Through Port-0");
    assert_eq!(devices[3], "Synth:Synth In");
}

#[test]
fn test_number_name() {
    let binding = sample_listing();
    let numbers_name = map_midi_ports(binding.as_str());
    for (k, v) in numbers_name.iter() {
        println!("{}:{}\t{}", k.0, k.1, v);
    }
    assert!(numbers_name.contains(&((0, 0), "System:Timer           ".to_string())));
    assert!(numbers_name.contains(&((128, 0), "Synth:Synth In        ".to_string())));
}

#[test]
fn test_connections() {
    let binding = sample_listing();
    let connections = list_connections("Midi Through", binding.as_str()).unwrap();
    for connection in connections.iter() {
        println!("\t{connection:?}");
    }
    assert_eq!(connections.len(), 1);
    assert_eq!(connections[0].0, "Midi Through:Midi Through Port-0");
    assert_eq!(connections[0].1, "Synth:Synth In        ");
}

#[test]
fn bad_client_line_is_an_error() {
    let listing = "client 0: no quotes here";
    match list_devices(listing) {
        Err(MidiError::BadMidiDevice(l)) => assert_eq!(l, "client 0: no quotes here"),
        other => panic!("expected a bad-device error, got {other:?}"),
    }
}

#[test]
fn connect_checks_both_devices() {
    let devices = vec!["a:1".to_string(), "b:2".to_string()];
    assert!(connect("a:1", "b:2", &devices).is_ok());
    match connect("c:3", "b:2", &devices) {
        Err(MidiError::BadName(n)) => assert_eq!(n, "c:3"),
        other => panic!("expected a bad-name error, got {other:?}"),
    }
    match disconnect("a:1", "d:4", &devices) {
        Err(MidiError::BadName(n)) => assert_eq!(n, "d:4"),
        other => panic!("expected a bad-name error, got {other:?}"),
    }
}
