//! Tests of the triple parser, the plugin model builder, and the port
//! classifier.

use lv2_ctl::builder::build_simulators;
use lv2_ctl::builder::classify_control_port;
use lv2_ctl::builder::control_number;
use lv2_ctl::builder::get_mmdls;
use lv2_ctl::builder::get_number_from_object;
use lv2_ctl::builder::parse_lv2_data;
use lv2_ctl::builder::predicate_filter;
use lv2_ctl::builder::remove_quotes;
use lv2_ctl::lv2::Lv2Datum;
use lv2_ctl::lv2::Lv2Type;
use lv2_ctl::port::ContinuousType;
use lv2_ctl::port::ControlPortProperties;

fn datum(s: &str, p: &str, o: &str) -> Lv2Datum {
    Lv2Datum { subject: s.to_string(), predicate: p.to_string(), object: o.to_string() }
}

#[test]
fn parse_triple_lines() {
    let lines: Vec<String> = vec![
        "<http://x> <http://p> <http://o> .".to_string(),
        "".to_string(),
        "_:b1 <http://p> \"a literal with spaces\" .".to_string(),
    ];
    let data = parse_lv2_data(&lines).unwrap();
    assert_eq!(data.len(), 2);
    assert_eq!(data[0].subject, "<http://x>");
    assert_eq!(data[0].predicate, "<http://p>");
    assert_eq!(data[0].object, "<http://o>");
    assert_eq!(data[1].subject, "_:b1");
    assert_eq!(data[1].object, "\"a literal with spaces\"");
}

#[test]
fn parse_rejects_malformed_line() {
    let lines: Vec<String> = vec![
        "<http://x> <http://p> <http://o> .".to_string(),
        "<http://x> <http://p> no-terminator".to_string(),
    ];
    let err = parse_lv2_data(&lines).unwrap_err();
    assert_eq!(err, "<http://x> <http://p> no-terminator");
}

#[test]
fn builder_one_plugin_named_echo() {
    // A subject declared to be a plugin, with a name, appears once in the
    // output under that name.
    let data = vec![
        datum(
            "<http://example.org/p1>",
            "<http://www.w3.org/1999/02/22-rdf-syntax-ns#type>",
            "<http://lv2plug.in/ns/lv2core#Plugin>",
        ),
        datum("<http://example.org/p1>", "<http://usefulinc.com/ns/doap#name>", "\"Echo\""),
    ];
    let sims = build_simulators(&data);
    assert_eq!(sims.len(), 1);
    assert_eq!(sims[0].name, "Echo");
    assert_eq!(sims[0].url, "http://example.org/p1");
    assert_eq!(sims[0].types, vec![Lv2Type::Plugin]);
}

#[test]
fn builder_no_duplicates_for_repeated_subject() {
    // The same subject tagged as a plugin twice still builds one plugin.
    let data = vec![
        datum(
            "<http://example.org/p1>",
            "<http://www.w3.org/1999/02/22-rdf-syntax-ns#type>",
            "<http://lv2plug.in/ns/lv2core#Plugin>",
        ),
        datum("<http://example.org/p1>", "<http://usefulinc.com/ns/doap#name>", "\"Echo\""),
        datum(
            "<http://example.org/p1>",
            "<http://www.w3.org/1999/02/22-rdf-syntax-ns#type>",
            "<http://lv2plug.in/ns/lv2core#Plugin>",
        ),
    ];
    let sims = build_simulators(&data);
    assert_eq!(sims.len(), 1);
}

#[test]
fn builder_skips_nameless_plugin() {
    let data = vec![
        datum(
            "<http://example.org/p1>",
            "<http://www.w3.org/1999/02/22-rdf-syntax-ns#type>",
            "<http://lv2plug.in/ns/lv2core#Plugin>",
        ),
    ];
    let sims = build_simulators(&data);
    assert_eq!(sims.len(), 0);
}

#[test]
fn builder_unknown_category_is_preserved() {
    let data = vec![
        datum(
            "<http://example.org/p1>",
            "<http://www.w3.org/1999/02/22-rdf-syntax-ns#type>",
            "<http://lv2plug.in/ns/lv2core#Plugin>",
        ),
        datum(
            "<http://example.org/p1>",
            "<http://www.w3.org/1999/02/22-rdf-syntax-ns#type>",
            "<http://example.org/ns#FancyPlugin>",
        ),
        datum("<http://example.org/p1>", "<http://usefulinc.com/ns/doap#name>", "\"Echo\""),
    ];
    let sims = build_simulators(&data);
    assert_eq!(sims.len(), 1);
    assert_eq!(
        sims[0].types,
        vec![Lv2Type::Plugin, Lv2Type::Other("FancyPlugin".to_string())]
    );
}

#[test]
fn builder_reads_ports() {
    let data = vec![
        datum(
            "<http://example.org/p1>",
            "<http://www.w3.org/1999/02/22-rdf-syntax-ns#type>",
            "<http://lv2plug.in/ns/lv2core#Plugin>",
        ),
        datum("<http://example.org/p1>", "<http://usefulinc.com/ns/doap#name>", "\"Echo\""),
        datum("<http://example.org/p1>", "<http://lv2plug.in/ns/lv2core#port>", "_:port0"),
        datum("_:port0", "<http://lv2plug.in/ns/lv2core#name>", "\"Gain\"^^rest"),
        datum("_:port0", "<http://lv2plug.in/ns/lv2core#symbol>", "\"gain\"^^rest"),
        datum(
            "_:port0",
            "<http://lv2plug.in/ns/lv2core#index>",
            "\"2\"^^<http://www.w3.org/2001/XMLSchema#integer>",
        ),
        datum(
            "_:port0",
            "<http://www.w3.org/1999/02/22-rdf-syntax-ns#type>",
            "<http://lv2plug.in/ns/lv2core#InputPort>",
        ),
        datum(
            "_:port0",
            "<http://www.w3.org/1999/02/22-rdf-syntax-ns#type>",
            "<http://lv2plug.in/ns/lv2core#AudioPort>",
        ),
    ];
    let sims = build_simulators(&data);
    assert_eq!(sims.len(), 1);
    assert_eq!(sims[0].ports.len(), 1);
    let port = &sims[0].ports[0];
    assert_eq!(port.name, "Gain");
    assert_eq!(port.symbol, "gain");
    assert_eq!(port.index, 2);
    assert_eq!(port.types.len(), 2);
}

fn continuous_port_facts() -> Vec<Lv2Datum> {
    vec![
        datum(
            "_:port0",
            "<http://lv2plug.in/ns/lv2core#minimum>",
            "\"0.0\"^^<http://www.w3.org/2001/XMLSchema#decimal>",
        ),
        datum(
            "_:port0",
            "<http://lv2plug.in/ns/lv2core#maximum>",
            "\"1.0\"^^<http://www.w3.org/2001/XMLSchema#decimal>",
        ),
    ]
}

#[test]
fn classify_continuous_defaults_to_minimum() {
    // With no default fact the default falls back to the minimum's value
    // and type.
    let data = continuous_port_facts();
    let cpp = classify_control_port(&data, "_:port0");
    match cpp {
        ControlPortProperties::Continuous(c) => {
            assert_eq!(c.min, "0.0");
            assert_eq!(c.max, "1.0");
            assert_eq!(c.default, "0.0");
            assert_eq!(c.kind, ContinuousType::Decimal);
            assert!(!c.logarithmic);
            assert_eq!(c.value, None);
        }
        ControlPortProperties::Scale(_) => panic!("classified as a scale"),
    }
}

#[test]
fn classify_same_facts_twice_gives_same_result() {
    // Classification is a function of the facts alone.
    let data = continuous_port_facts();
    let first = classify_control_port(&data, "_:port0");
    let second = classify_control_port(&data, "_:port0");
    assert_eq!(first, second);
}

#[test]
fn classify_majority_vote_on_types() {
    // Two tags agree on integer; the default's tag is outvoted.
    let data = vec![
        datum(
            "_:p",
            "<http://lv2plug.in/ns/lv2core#minimum>",
            "\"0\"^^<http://www.w3.org/2001/XMLSchema#integer>",
        ),
        datum(
            "_:p",
            "<http://lv2plug.in/ns/lv2core#maximum>",
            "\"10\"^^<http://www.w3.org/2001/XMLSchema#integer>",
        ),
        datum(
            "_:p",
            "<http://lv2plug.in/ns/lv2core#default>",
            "\"5.0\"^^<http://www.w3.org/2001/XMLSchema#decimal>",
        ),
    ];
    let cpp = classify_control_port(&data, "_:p");
    match cpp {
        ControlPortProperties::Continuous(c) => {
            assert_eq!(c.kind, ContinuousType::Integer);
            assert_eq!(c.default, "5.0");
        }
        ControlPortProperties::Scale(_) => panic!("classified as a scale"),
    }
}

#[test]
fn classify_all_tags_differ_falls_back_to_double() {
    let data = vec![
        datum(
            "_:p",
            "<http://lv2plug.in/ns/lv2core#minimum>",
            "\"0\"^^<http://www.w3.org/2001/XMLSchema#integer>",
        ),
        datum(
            "_:p",
            "<http://lv2plug.in/ns/lv2core#maximum>",
            "\"10.0\"^^<http://www.w3.org/2001/XMLSchema#decimal>",
        ),
        datum(
            "_:p",
            "<http://lv2plug.in/ns/lv2core#default>",
            "\"5.0\"^^<http://www.w3.org/2001/XMLSchema#double>",
        ),
    ];
    let cpp = classify_control_port(&data, "_:p");
    match cpp {
        ControlPortProperties::Continuous(c) => assert_eq!(c.kind, ContinuousType::Double),
        ControlPortProperties::Scale(_) => panic!("classified as a scale"),
    }
}

#[test]
fn classify_scale_wins_over_continuous() {
    // A port carrying both range facts and valid scale points classifies
    // as a scale, and the scale is never empty.
    let mut data = continuous_port_facts();
    data.push(datum("_:port0", "<http://lv2plug.in/ns/lv2core#scalePoint>", "_:sp0"));
    data.push(datum("_:port0", "<http://lv2plug.in/ns/lv2core#scalePoint>", "_:sp1"));
    data.push(datum("_:sp0", "<http://www.w3.org/2000/01/rdf-schema#label>", "\"off\"^^x"));
    data.push(datum(
        "_:sp0",
        "<http://www.w3.org/1999/02/22-rdf-syntax-ns#value>",
        "\"0\"^^<http://www.w3.org/2001/XMLSchema#integer>",
    ));
    data.push(datum("_:sp1", "<http://www.w3.org/2000/01/rdf-schema#label>", "\"on\"^^x"));
    data.push(datum(
        "_:sp1",
        "<http://www.w3.org/1999/02/22-rdf-syntax-ns#value>",
        "\"1\"^^<http://www.w3.org/2001/XMLSchema#integer>",
    ));
    let cpp = classify_control_port(&data, "_:port0");
    match cpp {
        ControlPortProperties::Scale(s) => {
            assert_eq!(
                s.labels_values,
                vec![
                    ("off".to_string(), "0".to_string()),
                    ("on".to_string(), "1".to_string())
                ]
            );
            assert_eq!(s.value, None);
        }
        ControlPortProperties::Continuous(_) => panic!("classified as continuous"),
    }
}

#[test]
fn scale_point_without_value_is_skipped() {
    let mut data = continuous_port_facts();
    data.push(datum("_:port0", "<http://lv2plug.in/ns/lv2core#scalePoint>", "_:sp0"));
    data.push(datum("_:sp0", "<http://www.w3.org/2000/01/rdf-schema#label>", "\"off\"^^x"));
    let cpp = classify_control_port(&data, "_:port0");
    assert!(matches!(cpp, ControlPortProperties::Continuous(_)));
}

#[test]
fn logarithmic_flag_is_a_presence_test() {
    let mut data = continuous_port_facts();
    data.push(datum(
        "_:port0",
        "<http://lv2plug.in/ns/lv2core#portProperty>",
        "<http://lv2plug.in/ns/ext/port-props#logarithmic>",
    ));
    let (_, _, _, logarithmic, _, _) = get_mmdls(&data, "_:port0");
    assert!(logarithmic);
}

#[test]
fn helper_extractors() {
    assert_eq!(remove_quotes("\"1.0\"^^<http://x#decimal>"), "1.0");
    assert_eq!(
        get_number_from_object("\"29\"^^<http://www.w3.org/2001/XMLSchema#integer>"),
        "29"
    );
    let (num, schema) = control_number("\"0.5\"^^<http://www.w3.org/2001/XMLSchema#decimal>");
    assert_eq!(num, "0.5");
    assert_eq!(schema, "decimal");
}

#[test]
fn predicate_filter_keeps_matching_facts() {
    let data = vec![
        datum("a", "p1", "o1"),
        datum("b", "p2", "o2"),
        datum("c", "p1", "o3"),
    ];
    let filtered = predicate_filter(&data, "p1");
    assert_eq!(filtered.len(), 2);
    assert_eq!(filtered[0].subject, "a");
    assert_eq!(filtered[1].subject, "c");
}
