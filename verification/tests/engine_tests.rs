//! Tests of the command queue, the response correlator, and the
//! connection tracker.

use lv2_ctl::lv2::Lv2;
use lv2_ctl::lv2_simulator::Lv2Simulator;
use lv2_ctl::lv2_simulator::Status;
use lv2_ctl::mod_host_controller::ConDisconFlight;
use lv2_ctl::mod_host_controller::ModHostController;
use lv2_ctl::mod_host_controller::RespOutcome;
use lv2_ctl::mod_host_controller::rem_trail_0;
use lv2_ctl::port::ContinuousControlPort;
use lv2_ctl::port::ContinuousType;
use lv2_ctl::port::ControlPortProperties;
use lv2_ctl::port::Port;
use lv2_ctl::port::ScaleControlPort;
use lv2_ctl::port::PortType;
use lv2_ctl::port_table::value_from_scale_control;

fn empty_controller() -> ModHostController {
    ModHostController {
        simulators: Vec::new(),
        instances: Vec::new(),
        mh_command_queue: Vec::new(),
        sent_commands: Vec::new(),
        connections: Vec::new(),
        unrecognized: Vec::new(),
        buffer: String::new(),
    }
}

fn instance(url: &str, mh_id: usize, status: Status) -> Lv2Simulator {
    Lv2Simulator { name: "a name".to_string(), url: url.to_string(), status, mh_id }
}

#[test]
fn add_success_marks_instance_loaded() {
    // `add <url> 5` answered by `resp 5` settles the pending instance.
    let mut c = empty_controller();
    c.instances.push(instance("http://x", 5, Status::Pending));
    c.send_mh_cmd("add http://x 5");
    let line = c.pump_mh_queue().expect("a command to send");
    assert_eq!(line, "add http://x 5");
    assert_eq!(c.sent_commands.len(), 1);
    let outcome = c.on_response_line("resp 5");
    assert_eq!(outcome, RespOutcome::Success);
    assert_eq!(c.instances[0].status, Status::Loaded);
    assert_eq!(c.sent_commands.len(), 0);
}

#[test]
fn jack_creation_error_unloads_every_instance() {
    // `resp -201` names the client-creation failure: the host's state is
    // gone, so every tracked instance reverts to unloaded.
    let mut c = empty_controller();
    c.instances.push(instance("http://x", 5, Status::Pending));
    c.instances.push(instance("http://y", 7, Status::Loaded));
    c.send_mh_cmd("add http://x 5");
    c.pump_mh_queue().expect("a command to send");
    let outcome = c.on_response_line("resp -201");
    assert_eq!(outcome, RespOutcome::ProtocolError(-201));
    assert_eq!(c.instances[0].status, Status::Unloaded);
    assert_eq!(c.instances[1].status, Status::Unloaded);
    assert_eq!(c.sent_commands.len(), 0);
}

#[test]
fn other_error_reverts_only_the_added_instance() {
    let mut c = empty_controller();
    c.instances.push(instance("http://x", 5, Status::Pending));
    c.instances.push(instance("http://y", 7, Status::Loaded));
    c.send_mh_cmd("add http://x 5");
    c.pump_mh_queue().expect("a command to send");
    let outcome = c.on_response_line("resp -101");
    assert_eq!(outcome, RespOutcome::ProtocolError(-101));
    assert_eq!(c.instances[0].status, Status::Unloaded);
    assert_eq!(c.instances[1].status, Status::Loaded);
}

#[test]
fn remove_success_unloads_instance() {
    let mut c = empty_controller();
    c.instances.push(instance("http://x", 5, Status::Loaded));
    c.send_mh_cmd("remove 5");
    c.pump_mh_queue().expect("a command to send");
    let outcome = c.on_response_line("resp 0");
    assert_eq!(outcome, RespOutcome::Success);
    assert_eq!(c.instances[0].status, Status::Unloaded);
}

#[test]
fn duplicate_connect_is_suppressed() {
    // Queueing the same connect twice before any response leaves exactly
    // one queued command, and the tracker reads in-flight throughout.
    let mut c = empty_controller();
    c.send_mh_cmd("connect a b");
    assert_eq!(c.conn_find("a b"), Some(ConDisconFlight::InFlight));
    c.send_mh_cmd("connect a b");
    assert_eq!(c.get_queued_count(), 1);
    assert_eq!(c.conn_find("a b"), Some(ConDisconFlight::InFlight));
}

#[test]
fn connect_success_finalizes_connection() {
    let mut c = empty_controller();
    c.send_mh_cmd("connect a b");
    c.pump_mh_queue().expect("a command to send");
    let outcome = c.on_response_line("resp 0");
    assert_eq!(outcome, RespOutcome::Success);
    assert_eq!(c.conn_find("a b"), Some(ConDisconFlight::Connected));

    // A second connect of the same ports is now a no-op ...
    c.send_mh_cmd("connect a b");
    assert_eq!(c.get_queued_count(), 0);

    // ... but a disconnect goes through and marks the key in flight.
    c.send_mh_cmd("disconnect a b");
    assert_eq!(c.get_queued_count(), 1);
    assert_eq!(c.conn_find("a b"), Some(ConDisconFlight::InFlight));
}

#[test]
fn connect_error_reverts_connection() {
    let mut c = empty_controller();
    c.send_mh_cmd("connect a b");
    c.pump_mh_queue().expect("a command to send");
    let outcome = c.on_response_line("resp -205");
    assert_eq!(outcome, RespOutcome::ProtocolError(-205));
    assert_eq!(c.conn_find("a b"), Some(ConDisconFlight::Disconnected));
}

#[test]
fn single_command_in_flight() {
    // With one command awaiting its response the pump sends nothing.
    let mut c = empty_controller();
    c.send_mh_cmd("add http://x 1");
    c.send_mh_cmd("add http://y 2");
    assert!(c.pump_mh_queue().is_some());
    assert_eq!(c.sent_commands.len(), 1);
    assert!(c.pump_mh_queue().is_none());
    assert_eq!(c.get_queued_count(), 1);
    c.on_response_line("resp 1");
    assert!(c.pump_mh_queue().is_some());
    assert_eq!(c.sent_commands.len(), 1);
}

fn gain_plugin() -> Lv2 {
    Lv2 {
        types: Vec::new(),
        ports: vec![Port {
            name: "Gain".to_string(),
            symbol: "gain".to_string(),
            types: vec![PortType::Input, PortType::Control(
                ControlPortProperties::Continuous(ContinuousControlPort {
                    kind: ContinuousType::Decimal,
                    max: "1.0".to_string(),
                    min: "0.0".to_string(),
                    default: "0.5".to_string(),
                    logarithmic: false,
                    value: None,
                }),
            )],
            index: 0,
        }],
        name: "Echo".to_string(),
        url: "http://x".to_string(),
    }
}

#[test]
fn param_get_success_stores_port_value() {
    let mut c = empty_controller();
    c.simulators.push(gain_plugin());
    c.instances.push(instance("http://x", 3, Status::Loaded));
    c.send_mh_cmd("param_get 3 gain");
    c.pump_mh_queue().expect("a command to send");
    let outcome = c.on_response_line("resp 0 0.2500");
    assert_eq!(outcome, RespOutcome::Success);
    match &c.simulators[0].ports[0].types[1] {
        PortType::Control(ControlPortProperties::Continuous(cc)) => {
            assert_eq!(cc.value, Some("0.2500".to_string()));
        }
        _ => panic!("port lost its control type"),
    }
}

#[test]
fn param_set_success_mirrors_value() {
    let mut c = empty_controller();
    c.simulators.push(gain_plugin());
    c.instances.push(instance("http://x", 3, Status::Loaded));
    c.send_mh_cmd("param_set 3 gain 0.75");
    c.pump_mh_queue().expect("a command to send");
    let outcome = c.on_response_line("resp 0");
    assert_eq!(outcome, RespOutcome::Success);
    match &c.simulators[0].ports[0].types[1] {
        PortType::Control(ControlPortProperties::Continuous(cc)) => {
            assert_eq!(cc.value, Some("0.75".to_string()));
        }
        _ => panic!("port lost its control type"),
    }
}

#[test]
fn command_builders_format_the_wire_text() {
    let mut c = empty_controller();
    c.queue_add_command("http://x", 5);
    c.queue_remove_command(12);
    c.queue_param_get(3, "gain");
    c.queue_param_set(3, "gain", "0.75");
    c.queue_connect("a:out", "b:in");
    c.queue_disconnect("a:out", "b:in");
    assert_eq!(c.mh_command_queue[0], "add http://x 5");
    assert_eq!(c.mh_command_queue[1], "remove 12");
    assert_eq!(c.mh_command_queue[2], "param_get 3 gain");
    assert_eq!(c.mh_command_queue[3], "param_set 3 gain 0.75");
    assert_eq!(c.mh_command_queue[4], "connect a:out b:in");
    // The connect put its key in flight, so the disconnect was dropped.
    assert_eq!(c.get_queued_count(), 5);
    assert_eq!(c.conn_find("a:out b:in"), Some(ConDisconFlight::InFlight));
}

#[test]
fn audio_wiring_commands() {
    let audio_port = |name: &str, symbol: &str, dir: PortType| Port {
        name: name.to_string(),
        symbol: symbol.to_string(),
        types: vec![dir, PortType::Audio],
        index: 0,
    };
    let lv2 = Lv2 {
        types: Vec::new(),
        ports: vec![
            audio_port("In L", "in_l", PortType::Input),
            audio_port("In R", "in_r", PortType::Input),
            audio_port("Out L", "out_l", PortType::Output),
        ],
        name: "Echo".to_string(),
        url: "http://x".to_string(),
    };
    let (inputs, outputs) = ModHostController::audio_connect_commands(&lv2, 7);
    assert_eq!(
        inputs,
        vec![
            "connect system:capture_1 effect_7:in_l".to_string(),
            "connect system:capture_2 effect_7:in_r".to_string(),
        ]
    );
    assert_eq!(
        outputs,
        vec!["connect effect_7:out_l system:playback_1".to_string()]
    );
}

#[test]
fn queue_connect_suppresses_repeats() {
    let mut c = empty_controller();
    c.queue_connect("a", "b");
    c.queue_connect("a", "b");
    assert_eq!(c.get_queued_count(), 1);
}

#[test]
fn echo_and_noise_are_ignored() {
    let mut c = empty_controller();
    c.send_mh_cmd("add http://x 1");
    c.pump_mh_queue().expect("a command to send");
    assert_eq!(c.on_response_line("add http://x 1"), RespOutcome::Ignored);
    assert_eq!(c.on_response_line("using block size: 1024"), RespOutcome::Ignored);
    assert_eq!(c.on_response_line("chump"), RespOutcome::Ignored);
    assert_eq!(c.on_response_line("   "), RespOutcome::Ignored);
    // The command is still in flight.
    assert_eq!(c.sent_commands.len(), 1);
}

#[test]
fn unrecognized_line_reported_once() {
    let mut c = empty_controller();
    assert_eq!(
        c.on_response_line("strange words here"),
        RespOutcome::Unrecognized(true)
    );
    assert_eq!(
        c.on_response_line("strange words here"),
        RespOutcome::Unrecognized(false)
    );
}

#[test]
fn response_with_nothing_in_flight() {
    let mut c = empty_controller();
    assert_eq!(c.on_response_line("resp 0"), RespOutcome::NoCommand);
}

#[test]
fn prompt_prefix_is_stripped() {
    let mut c = empty_controller();
    c.instances.push(instance("http://x", 5, Status::Pending));
    c.send_mh_cmd("add http://x 5");
    c.pump_mh_queue().expect("a command to send");
    let outcome = c.on_response_line("mod-host> resp 5");
    assert_eq!(outcome, RespOutcome::Success);
    assert_eq!(c.instances[0].status, Status::Loaded);
}

#[test]
fn buffer_yields_lines() {
    let mut c = empty_controller();
    c.push_input("resp 0\npartial");
    assert_eq!(c.take_line(), Some("resp 0".to_string()));
    assert_eq!(c.take_line(), None);
    c.push_input(" line\r");
    assert_eq!(c.take_line(), Some("partial line".to_string()));
}

#[test]
fn controller_from_triple_lines() {
    let lines: Vec<String> = vec![
        "<http://example.org/p1> <http://www.w3.org/1999/02/22-rdf-syntax-ns#type> <http://lv2plug.in/ns/lv2core#Plugin> .".to_string(),
        "<http://example.org/p1> <http://usefulinc.com/ns/doap#name> \"Echo\" .".to_string(),
    ];
    let c = ModHostController::get_lv2_controller(&lines).unwrap();
    assert_eq!(c.simulators.len(), 1);
    assert_eq!(c.simulators[0].name, "Echo");
    assert_eq!(c.get_queued_count(), 0);
    assert!(c.get_lv2_by_url("http://example.org/p1").is_some());
    assert!(c.get_lv2_by_url("http://example.org/p2").is_none());
}

#[test]
fn controller_reports_bad_line() {
    let lines: Vec<String> = vec!["broken".to_string()];
    let err = ModHostController::get_lv2_controller(&lines).unwrap_err();
    assert_eq!(err, "broken");
}

#[test]
fn error_code_table() {
    assert_eq!(
        ModHostController::translate_error_code(-1),
        "ERR_INSTANCE_INVALID"
    );
    assert_eq!(
        ModHostController::translate_error_code(-201),
        "ERR_JACK_CLIENT_CREATION"
    );
    assert_eq!(
        ModHostController::translate_error_code(-902),
        "ERR_INVALID_OPERATION"
    );
    assert_eq!(
        ModHostController::translate_error_code(-7),
        "Unknown error code: -7"
    );
}

#[test]
fn get_default_continuous_and_scale() {
    let mut c = empty_controller();
    c.simulators.push(gain_plugin());
    assert_eq!(c.get_default("http://x", "gain"), "0.5");

    let scale_plugin = Lv2 {
        types: Vec::new(),
        ports: vec![Port {
            name: "Mode".to_string(),
            symbol: "mode".to_string(),
            types: vec![PortType::Control(ControlPortProperties::Scale(ScaleControlPort {
                labels_values: vec![
                    ("sine".to_string(), "0".to_string()),
                    ("square".to_string(), "1".to_string()),
                ],
                value: None,
            }))],
            index: 0,
        }],
        name: "Osc".to_string(),
        url: "http://y".to_string(),
    };
    c.simulators.push(scale_plugin);
    // The default of a scale port is its first label.
    assert_eq!(c.get_default("http://y", "mode"), "sine");
}

#[test]
fn save_is_not_implemented() {
    let c = empty_controller();
    assert!(!c.save_current_lv2("anything"));
}

#[test]
fn rem_trail_0_cuts_at_first_zero() {
    assert_eq!(rem_trail_0(vec![104, 105, 0, 33]), vec![104, 105]);
    assert_eq!(rem_trail_0(vec![104, 105]), vec![104, 105]);
    assert_eq!(rem_trail_0(vec![]), Vec::<u8>::new());
}

#[test]
fn scale_control_values_normalize() {
    assert_eq!(value_from_scale_control("0.000"), "0");
    assert_eq!(value_from_scale_control("2"), "2");
    assert_eq!(value_from_scale_control("2.5"), "3");
    assert_eq!(value_from_scale_control("-0.4"), "-0");
    assert_eq!(value_from_scale_control("not a number"), "");
}
