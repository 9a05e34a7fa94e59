//! Ports of a plugin.  A port can be audio or atom input/output, or a
//! control.  A control port is either continuous (a numeric range) or a
//! scale (a list of label/value pairs).  Numeric bounds are kept as the
//! decimal text they had in the source data; that is also the form in
//! which they travel over the host protocol.

use vstd::prelude::*;

verus! {

/// The numeric kind of a continuous control, from the schema tag of the
/// source literals.
#[derive(Clone, Copy, Debug, PartialEq, Eq, Structural)]
pub enum ContinuousType {
    Integer,
    Decimal,
    Double,
}

/// A control port with a numeric range.
#[derive(Clone, Debug, PartialEq)]
pub struct ContinuousControlPort {
    pub kind: ContinuousType,
    pub max: String,
    pub min: String,
    pub default: String,
    pub logarithmic: bool,
    /// Filled in when the host reports the port's current value.
    pub value: Option<String>,
}

/// A control port with a list of discrete (label, value) choices.
#[derive(Clone, Debug, PartialEq)]
pub struct ScaleControlPort {
    pub labels_values: Vec<(String, String)>,
    /// Index into `labels_values` of the current value, when known.
    pub value: Option<usize>,
}

#[derive(Clone, Debug, PartialEq)]
pub enum ControlPortProperties {
    Continuous(ContinuousControlPort),
    Scale(ScaleControlPort),
}

#[derive(Clone, Debug, PartialEq)]
pub enum PortType {
    Input,
    Output,
    Control(ControlPortProperties),
    Audio,
    AtomPort,
    Other(String),
}

#[derive(Clone, Debug, PartialEq)]
pub struct Port {
    /// For display.
    pub name: String,
    /// The wire identifier used in host commands.
    pub symbol: String,
    pub types: Vec<PortType>,
    /// Index from the plugin description.
    pub index: usize,
}

/// The labels and values of the scale points found for one port, in the
/// order they were found.  Always holds as many values as labels.
#[derive(Clone, Debug, PartialEq)]
pub struct ScaleDescription {
    pub labels: Vec<String>,
    pub values: Vec<String>,
}

/// Mathematical image of `ContinuousControlPort`.
pub ghost struct ContinuousV {
    pub kind: ContinuousType,
    pub max: Seq<char>,
    pub min: Seq<char>,
    pub default: Seq<char>,
    pub logarithmic: bool,
    pub value: Option<Seq<char>>,
}

/// Mathematical image of `ScaleControlPort`.
pub ghost struct ScaleV {
    pub labels_values: Seq<(Seq<char>, Seq<char>)>,
    pub value: Option<usize>,
}

pub ghost enum CppV {
    Continuous(ContinuousV),
    Scale(ScaleV),
}

pub ghost enum PortTypeV {
    Input,
    Output,
    Control(CppV),
    Audio,
    AtomPort,
    Other(Seq<char>),
}

pub ghost struct PortV {
    pub name: Seq<char>,
    pub symbol: Seq<char>,
    pub types: Seq<PortTypeV>,
    pub index: usize,
}

impl View for ContinuousControlPort {
    type V = ContinuousV;

    open spec fn view(&self) -> ContinuousV {
        ContinuousV {
            kind: self.kind,
            max: self.max@,
            min: self.min@,
            default: self.default@,
            logarithmic: self.logarithmic,
            value: match self.value {
                Some(v) => Some(v@),
                None => None,
            },
        }
    }
}

impl View for ScaleControlPort {
    type V = ScaleV;

    open spec fn view(&self) -> ScaleV {
        ScaleV { labels_values: self.labels_values.deep_view(), value: self.value }
    }
}

impl View for ControlPortProperties {
    type V = CppV;

    open spec fn view(&self) -> CppV {
        match self {
            ControlPortProperties::Continuous(c) => CppV::Continuous(c@),
            ControlPortProperties::Scale(s) => CppV::Scale(s@),
        }
    }
}

impl View for PortType {
    type V = PortTypeV;

    open spec fn view(&self) -> PortTypeV {
        match self {
            PortType::Input => PortTypeV::Input,
            PortType::Output => PortTypeV::Output,
            PortType::Control(c) => PortTypeV::Control(c@),
            PortType::Audio => PortTypeV::Audio,
            PortType::AtomPort => PortTypeV::AtomPort,
            PortType::Other(s) => PortTypeV::Other(s@),
        }
    }
}

impl View for Port {
    type V = PortV;

    open spec fn view(&self) -> PortV {
        PortV {
            name: self.name@,
            symbol: self.symbol@,
            types: self.types@.map_values(|t: PortType| t@),
            index: self.index,
        }
    }
}

impl ScaleDescription {
    /// The description is balanced: one value for each label.
    pub open spec fn wf(&self) -> bool {
        self.labels@.len() == self.values@.len()
    }

    /// The (label, value) pairs, in order.
    pub open spec fn pairs(&self) -> Seq<(Seq<char>, Seq<char>)> {
        Seq::new(self.labels@.len(), |i: int| (self.labels@[i]@, self.values@[i]@))
    }
}

impl ControlPortProperties {
    /// Assemble the classification of a control port: a scale when scale
    /// points were found, otherwise a continuous range.  The port's
    /// current value is unknown at construction.
    pub fn new(
        min: String,
        max: String,
        default: String,
        logarithmic: bool,
        scale: Option<ScaleDescription>,
        kind: ContinuousType,
    ) -> (r: ControlPortProperties)
        requires
            match scale {
                Some(sd) => sd.wf() && sd.labels@.len() > 0,
                None => true,
            },
        ensures
            r@ == match scale {
                Some(sd) => CppV::Scale(ScaleV { labels_values: sd.pairs(), value: None }),
                None => CppV::Continuous(
                    ContinuousV {
                        kind,
                        max: max@,
                        min: min@,
                        default: default@,
                        logarithmic,
                        value: None,
                    },
                ),
            },
    {
        match scale {
            Some(sd) => {
                let mut lv: Vec<(String, String)> = Vec::new();
                let n = sd.labels.len();
                let mut i: usize = 0;
                while i < n
                    invariant
                        i <= n,
                        n == sd.labels@.len(),
                        n == sd.values@.len(),
                        lv@.len() == i,
                        forall|k: int|
                            0 <= k < i ==> ((#[trigger] lv@[k]).0@ == sd.labels@[k]@
                                && lv@[k].1@ == sd.values@[k]@),
                    decreases n - i,
                {
                    let label = sd.labels[i].clone();
                    let value = sd.values[i].clone();
                    lv.push((label, value));
                    i += 1;
                }
                assert forall|k: int| 0 <= k < lv@.len() implies lv.deep_view()[k] == sd.pairs()[k]
                by {
                    assert(lv.deep_view()[k] == (lv@[k].0@, lv@[k].1@));
                }
                assert(lv.deep_view() =~= sd.pairs());
                ControlPortProperties::Scale(ScaleControlPort { labels_values: lv, value: None })
            },
            None => ControlPortProperties::Continuous(
                ContinuousControlPort { kind, min, max, default, logarithmic, value: None },
            ),
        }
    }
}

impl ScaleControlPort {
    /// The value parts of the scale, in order.
    pub fn values_list(&self) -> (r: Vec<String>)
        ensures
            r.deep_view() == self@.labels_values.map_values(|p: (Seq<char>, Seq<char>)| p.1),
    {
        let mut r: Vec<String> = Vec::new();
        let n = self.labels_values.len();
        let mut i: usize = 0;
        while i < n
            invariant
                i <= n,
                n == self.labels_values@.len(),
                r@.len() == i,
                forall|k: int|
                    0 <= k < i ==> (#[trigger] r@[k])@ == self.labels_values@[k].1@,
            decreases n - i,
        {
            r.push(self.labels_values[i].1.clone());
            i += 1;
        }
        assert forall|k: int| 0 <= k < r@.len() implies r.deep_view()[k] == self@.labels_values.map_values(
            |p: (Seq<char>, Seq<char>)| p.1,
        )[k] by {
            assert(self@.labels_values[k] == (self.labels_values@[k].0@, self.labels_values@[k].1@));
        }
        assert(r.deep_view() =~= self@.labels_values.map_values(|p: (Seq<char>, Seq<char>)| p.1));
        r
    }

    /// The label parts of the scale, in order.
    pub fn labels(&self) -> (r: Vec<String>)
        ensures
            r.deep_view() == self@.labels_values.map_values(|p: (Seq<char>, Seq<char>)| p.0),
    {
        let mut r: Vec<String> = Vec::new();
        let n = self.labels_values.len();
        let mut i: usize = 0;
        while i < n
            invariant
                i <= n,
                n == self.labels_values@.len(),
                r@.len() == i,
                forall|k: int|
                    0 <= k < i ==> (#[trigger] r@[k])@ == self.labels_values@[k].0@,
            decreases n - i,
        {
            r.push(self.labels_values[i].0.clone());
            i += 1;
        }
        assert forall|k: int| 0 <= k < r@.len() implies r.deep_view()[k] == self@.labels_values.map_values(
            |p: (Seq<char>, Seq<char>)| p.0,
        )[k] by {
            assert(self@.labels_values[k] == (self.labels_values@[k].0@, self.labels_values@[k].1@));
        }
        assert(r.deep_view() =~= self@.labels_values.map_values(|p: (Seq<char>, Seq<char>)| p.0));
        r
    }
}

impl Port {
    /// An empty port: every field at its zero value.
    pub fn new() -> (r: Self)
        ensures
            r@.name.len() == 0,
            r@.symbol.len() == 0,
            r@.types.len() == 0,
            r@.index == 0,
    {
        Self { name: String::new(), symbol: String::new(), types: Vec::new(), index: 0 }
    }
}

impl Default for Port {
    fn default() -> (r: Self)
        ensures
            r@.name.len() == 0,
            r@.symbol.len() == 0,
            r@.types.len() == 0,
            r@.index == 0,
    {
        Self::new()
    }
}

} // verus!
