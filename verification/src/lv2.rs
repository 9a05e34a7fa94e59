//! The plugin model: one triple of the input data, the closed set of
//! plugin categories, and the assembled plugin with its ports.

use crate::port::Port;
use crate::port::PortV;
use vstd::prelude::*;

verus! {

/// One subject/predicate/object fact from the input stream.
#[derive(Debug, PartialEq)]
pub struct Lv2Datum {
    pub subject: String,
    pub predicate: String,
    pub object: String,
}

/// Mathematical image of `Lv2Datum`.
pub ghost struct DatumV {
    pub subject: Seq<char>,
    pub predicate: Seq<char>,
    pub object: Seq<char>,
}

impl View for Lv2Datum {
    type V = DatumV;

    open spec fn view(&self) -> DatumV {
        DatumV { subject: self.subject@, predicate: self.predicate@, object: self.object@ }
    }
}

impl DeepView for Lv2Datum {
    type V = DatumV;

    open spec fn deep_view(&self) -> DatumV {
        self.view()
    }
}

impl Clone for Lv2Datum {
    fn clone(&self) -> (r: Self)
        ensures
            r@ == self@,
    {
        Lv2Datum {
            subject: self.subject.clone(),
            predicate: self.predicate.clone(),
            object: self.object.clone(),
        }
    }
}

/// The categories a plugin can declare.  Unrecognized category names are
/// preserved in `Other` rather than rejected.
#[derive(Clone, Debug, PartialEq, Eq, Hash, PartialOrd, Ord)]
pub enum Lv2Type {
    Plugin,
    ReverbPlugin,
    ChorusPlugin,
    FlangerPlugin,
    PhaserPlugin,
    WaveshaperPlugin,
    FunctionalProperty,
    SpectralPlugin,
    LimiterPlugin,
    AnalyserPlugnin,
    PitchPlugin,
    ObjectProperty,
    Property,
    SpatialPlugin,
    UtilityPlugin,
    AmplifierPlugin,
    ExpanderPlugin,
    CompressorPlugin,
    EQPlugin,
    ModulatorPlugin,
    InstrumentPlugin,
    SimulatorPlugin,
    FilterPlugin,
    DelayPlugin,
    DistortionPlugin,
    Class,
    Project,
    EnvelopePlugin,
    Other(String),
}

/// Mathematical image of `Lv2Type`.
pub ghost enum Lv2TypeV {
    Plugin,
    ReverbPlugin,
    ChorusPlugin,
    FlangerPlugin,
    PhaserPlugin,
    WaveshaperPlugin,
    FunctionalProperty,
    SpectralPlugin,
    LimiterPlugin,
    AnalyserPlugnin,
    PitchPlugin,
    ObjectProperty,
    Property,
    SpatialPlugin,
    UtilityPlugin,
    AmplifierPlugin,
    ExpanderPlugin,
    CompressorPlugin,
    EQPlugin,
    ModulatorPlugin,
    InstrumentPlugin,
    SimulatorPlugin,
    FilterPlugin,
    DelayPlugin,
    DistortionPlugin,
    Class,
    Project,
    EnvelopePlugin,
    Other(Seq<char>),
}

impl View for Lv2Type {
    type V = Lv2TypeV;

    open spec fn view(&self) -> Lv2TypeV {
        match self {
            Lv2Type::Plugin => Lv2TypeV::Plugin,
            Lv2Type::ReverbPlugin => Lv2TypeV::ReverbPlugin,
            Lv2Type::ChorusPlugin => Lv2TypeV::ChorusPlugin,
            Lv2Type::FlangerPlugin => Lv2TypeV::FlangerPlugin,
            Lv2Type::PhaserPlugin => Lv2TypeV::PhaserPlugin,
            Lv2Type::WaveshaperPlugin => Lv2TypeV::WaveshaperPlugin,
            Lv2Type::FunctionalProperty => Lv2TypeV::FunctionalProperty,
            Lv2Type::SpectralPlugin => Lv2TypeV::SpectralPlugin,
            Lv2Type::LimiterPlugin => Lv2TypeV::LimiterPlugin,
            Lv2Type::AnalyserPlugnin => Lv2TypeV::AnalyserPlugnin,
            Lv2Type::PitchPlugin => Lv2TypeV::PitchPlugin,
            Lv2Type::ObjectProperty => Lv2TypeV::ObjectProperty,
            Lv2Type::Property => Lv2TypeV::Property,
            Lv2Type::SpatialPlugin => Lv2TypeV::SpatialPlugin,
            Lv2Type::UtilityPlugin => Lv2TypeV::UtilityPlugin,
            Lv2Type::AmplifierPlugin => Lv2TypeV::AmplifierPlugin,
            Lv2Type::ExpanderPlugin => Lv2TypeV::ExpanderPlugin,
            Lv2Type::CompressorPlugin => Lv2TypeV::CompressorPlugin,
            Lv2Type::EQPlugin => Lv2TypeV::EQPlugin,
            Lv2Type::ModulatorPlugin => Lv2TypeV::ModulatorPlugin,
            Lv2Type::InstrumentPlugin => Lv2TypeV::InstrumentPlugin,
            Lv2Type::SimulatorPlugin => Lv2TypeV::SimulatorPlugin,
            Lv2Type::FilterPlugin => Lv2TypeV::FilterPlugin,
            Lv2Type::DelayPlugin => Lv2TypeV::DelayPlugin,
            Lv2Type::DistortionPlugin => Lv2TypeV::DistortionPlugin,
            Lv2Type::Class => Lv2TypeV::Class,
            Lv2Type::Project => Lv2TypeV::Project,
            Lv2Type::EnvelopePlugin => Lv2TypeV::EnvelopePlugin,
            Lv2Type::Other(s) => Lv2TypeV::Other(s@),
        }
    }
}

/// The assembled plugin with all the data needed to load it into the
/// host.
#[derive(Clone, Debug, PartialEq)]
pub struct Lv2 {
    /// The plugin's categories, without repeats.
    pub types: Vec<Lv2Type>,
    pub ports: Vec<Port>,
    pub name: String,
    /// Unique key of the plugin.
    pub url: String,
}

/// Mathematical image of `Lv2`.
pub ghost struct Lv2V {
    pub types: Seq<Lv2TypeV>,
    pub ports: Seq<PortV>,
    pub name: Seq<char>,
    pub url: Seq<char>,
}

impl View for Lv2 {
    type V = Lv2V;

    open spec fn view(&self) -> Lv2V {
        Lv2V {
            types: self.types@.map_values(|t: Lv2Type| t@),
            ports: self.ports@.map_values(|p: Port| p@),
            name: self.name@,
            url: self.url@,
        }
    }
}

} // verus!
