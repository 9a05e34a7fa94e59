//! Tests of pad sections and the instance lists.

use lv2_ctl::lv2::Lv2;
use lv2_ctl::lv2_simulator::Lv2Simulator;
use lv2_ctl::lv2_simulator::Status;
use lv2_ctl::lv2_stateful_list::Lv2StatefulList;
use lv2_ctl::modhost_resp::ModhostGet;
use lv2_ctl::modhost_resp::ModhostResp;
use lv2_ctl::section::Section;

fn section(pads: Vec<u8>, note: u8) -> Section {
    Section::new(pads, [0, 0, 0], [1, 1, 1], note)
}

/// Every pad of the 8 by 8 grid.
fn all_pads() -> Vec<u8> {
    let mut pads = Vec::new();
    for row in 1..=8u8 {
        for col in 1..=8u8 {
            pads.push(Section::row_col_to_pad(row, col));
        }
    }
    pads
}

#[test]
fn pad_arithmetic() {
    assert_eq!(Section::row_col_to_pad(3, 4), 34);
    assert_eq!(Section::pad_to_row(34), 3);
    assert_eq!(Section::pad_to_col(34), 4);
    assert!(Section::valid_pad(11));
    assert!(Section::valid_pad(88));
    assert!(!Section::valid_pad(10));
    assert!(!Section::valid_pad(19));
    assert!(!Section::valid_pad(89));
}

#[test]
fn section_membership_and_intersection() {
    let a = section(vec![11, 12, 13], 60);
    let b = section(vec![13, 14], 61);
    let c = section(vec![21, 22], 62);
    assert!(a.pad_in(12));
    assert!(!a.pad_in(14));
    assert!(a.intersect(&b));
    assert!(!a.intersect(&c));
    assert_eq!(a.pads(), &vec![11, 12, 13]);
    assert!(a.valid());
}

#[test]
fn sections_with_full_coverage_check_out() {
    let all = all_pads();
    let first: Vec<u8> = all[..32].to_vec();
    let second: Vec<u8> = all[32..].to_vec();
    let sections = vec![section(first, 60), section(second, 61)];
    assert!(Section::check_sections(&sections));
}

#[test]
fn overlapping_sections_fail_the_check() {
    let sections = vec![section(vec![11, 12], 60), section(vec![12, 13], 61)];
    assert!(!Section::check_sections(&sections));
}

#[test]
fn one_default_section_allows_partial_coverage() {
    let sections = vec![section(vec![11, 12], 60), section(vec![], 61)];
    assert!(Section::check_sections(&sections));
}

#[test]
fn two_default_sections_fail_the_check() {
    let sections = vec![section(vec![], 60), section(vec![], 61)];
    assert!(!Section::check_sections(&sections));
}

fn named_lv2(name: &str, url: &str) -> Lv2 {
    Lv2 { types: Vec::new(), ports: Vec::new(), name: name.to_string(), url: url.to_string() }
}

#[test]
fn stateful_list_selection_moves() {
    let items = vec![
        Lv2Simulator { name: "a".to_string(), url: "u1".to_string(), status: Status::Unloaded, mh_id: 0 },
        Lv2Simulator { name: "b".to_string(), url: "u2".to_string(), status: Status::Unloaded, mh_id: 1 },
    ];
    let mut list = Lv2StatefulList::new(items);
    assert_eq!(list.get_selected_url(), None);
    list.next();
    assert_eq!(list.get_selected_url(), Some("u1".to_string()));
    list.next();
    assert_eq!(list.get_selected_mh_id(), Some(1));
    list.next();
    // At the bottom the selection stays put.
    assert_eq!(list.get_selected_mh_id(), Some(1));
    list.previous();
    assert_eq!(list.get_selected_mh_id(), Some(0));
    list.unselect();
    assert_eq!(list.get_selected_url(), None);
    // The next move resumes from the remembered row.
    list.next();
    assert_eq!(list.get_selected_mh_id(), Some(0));
}

#[test]
fn new_simulator_takes_next_slot() {
    let items = vec![
        Lv2Simulator { name: "a".to_string(), url: "u1".to_string(), status: Status::Loaded, mh_id: 4 },
        Lv2Simulator { name: "b".to_string(), url: "u2".to_string(), status: Status::Loaded, mh_id: 2 },
    ];
    let mut list = Lv2StatefulList::new(items);
    let sim = list.mk_lv2_simulator(&named_lv2("Echo", "http://x")).unwrap();
    assert_eq!(sim.mh_id, 5);
    assert_eq!(sim.url, "http://x");
    assert_eq!(sim.name, "Echo");
    assert_eq!(sim.status, Status::Pending);

    let mut empty = Lv2StatefulList::empty();
    let sim = empty.mk_lv2_simulator(&named_lv2("Echo", "http://x")).unwrap();
    assert_eq!(sim.mh_id, 1);
}

#[test]
fn simulator_from_parts() {
    let parts = ("Echo".to_string(), "http://x".to_string(), Status::Unloaded);
    let sim = Lv2Simulator::from_parts(&parts);
    assert_eq!(sim.name, "Echo");
    assert_eq!(sim.url, "http://x");
    assert_eq!(sim.status, Status::Unloaded);
    assert_eq!(sim.mh_id, 0);
}

#[test]
fn modhost_get_reads_response_codes() {
    let get = ModhostGet::new(2, 0);
    assert!(get.validate_resp(0));
    assert!(get.validate_resp(5));
    assert!(!get.validate_resp(-101));
    assert_eq!(ModhostGet::get_resp_code("resp -201"), -201);
    assert_eq!(ModhostGet::get_resp_code("resp 0 0.5000"), 0);
    assert_eq!(get.act_on_response("resp 0 0.5000"), "");
    assert_eq!(get.act_on_response("resp -3"), "");
}
