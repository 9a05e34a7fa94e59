//! A loaded (or loadable) instance of a plugin inside the external host,
//! as the front end tracks it.

use vstd::prelude::*;

verus! {

/// Whether the instance is loaded into the host.  An instance is
/// `Pending` from the moment a load command is queued until the host's
/// response settles it.
#[derive(Copy, Clone, Debug, PartialEq, Eq, Structural)]
pub enum Status {
    Loaded,
    Pending,
    Unloaded,
}

/// A control port as the front end displays it: a wire symbol, the value
/// to show, and the labels where the port is a scale.
#[derive(Clone, Debug, PartialEq)]
pub struct ControlPort {
    /// The name that identifies this port to the host.
    pub param_symbol: String,
    /// Port values travel as text whether they are symbolic, integer or
    /// decimal.
    pub value: Option<String>,
    /// A scale port has labels as well as values.
    pub label: Option<Vec<String>>,
}

/// All the information the front end needs to control one plugin
/// instance.
#[derive(Clone, Debug, PartialEq)]
pub struct Lv2Simulator {
    /// Display name.
    pub name: String,
    /// The plugin this is an instance of.
    pub url: String,
    /// Loaded, unloaded, or pending.
    pub status: Status,
    /// The slot number the host knows this instance by.
    pub mh_id: usize,
}

/// Mathematical image of `Lv2Simulator`.
pub ghost struct SimV {
    pub name: Seq<char>,
    pub url: Seq<char>,
    pub status: Status,
    pub mh_id: usize,
}

impl View for Lv2Simulator {
    type V = SimV;

    open spec fn view(&self) -> SimV {
        SimV { name: self.name@, url: self.url@, status: self.status, mh_id: self.mh_id }
    }
}

impl Lv2Simulator {
    /// An instance made from a (name, url, status) triple starts in slot
    /// zero.
    pub fn from_parts(t: &(String, String, Status)) -> (r: Self)
        ensures
            r@.name == t.0@,
            r@.url == t.1@,
            r@.status == t.2,
            r@.mh_id == 0,
    {
        Lv2Simulator { name: t.0.clone(), status: t.2, url: t.1.clone(), mh_id: 0 }
    }
}

} // verus!
