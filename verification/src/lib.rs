//! Control engine for an external LV2 plugin host.
//!
//! The library turns a flat stream of subject/predicate/object triples
//! describing installed plugins into a structured model of plugins and
//! their ports, and drives a long-lived host process through a strictly
//! sequential line-oriented text protocol: commands are queued, sent one
//! at a time, and responses are correlated to the single in-flight
//! command.  All reading and writing of actual bytes is left to callers;
//! everything here is pure logic with verified contracts.

pub mod builder;
pub mod lv2;
pub mod lv2_simulator;
pub mod lv2_stateful_list;
pub mod midi_actions;
pub mod mod_host_controller;
pub mod modhost_resp;
pub mod port;
pub mod port_table;
pub mod section;
pub mod strutil;
