//! Schema-driven live options: what kind of value each declared option takes
//! and the value it starts from.

use vstd::prelude::*;

verus! {

#[derive(Clone, Copy, Debug)]
pub enum OptionKind {
    Bool,
    Enum(&'static [&'static str]),
    Str,
}

#[derive(Clone, Copy, Debug)]
pub enum OptionDefault {
    Bool(bool),
    Str(&'static str),
}

#[derive(Clone, Debug, PartialEq)]
pub enum OptionValue {
    Bool(bool),
    Str(String),
}

impl OptionDefault {
    /// The value an option starts from: its default, owned.
    pub fn to_value(self) -> (r: OptionValue)
        ensures
            match self {
                OptionDefault::Bool(b) => r == OptionValue::Bool(b),
                OptionDefault::Str(s) => r matches OptionValue::Str(v) && v@ == s@,
            },
    {
        match self {
            OptionDefault::Bool(b) => OptionValue::Bool(b),
            OptionDefault::Str(s) => OptionValue::Str(s.to_owned()),
        }
    }
}

/// One declared option.
#[derive(Clone, Copy, Debug)]
pub struct OptionSpec {
    /// Canonical registry key.
    pub key: &'static str,
    /// English label; the catalogue key is resolved instead where there is one.
    pub label: &'static str,
    pub help: Option<&'static str>,
    pub kind: OptionKind,
    pub default: OptionDefault,
}

impl OptionSpec {
    /// Whether `value` is of the kind this option takes: a switch for a
    /// boolean option, a string for the others.
    pub fn fits(&self, value: &OptionValue) -> (r: bool)
        ensures
            r == match (self.kind, value) {
                (OptionKind::Bool, OptionValue::Bool(_)) => true,
                (OptionKind::Enum(_), OptionValue::Str(_)) => true,
                (OptionKind::Str, OptionValue::Str(_)) => true,
                _ => false,
            },
    {
        match (self.kind, value) {
            (OptionKind::Bool, OptionValue::Bool(_)) => true,
            (OptionKind::Enum(_), OptionValue::Str(_)) => true,
            (OptionKind::Str, OptionValue::Str(_)) => true,
            _ => false,
        }
    }
}

/// Every declared option starts from a value of its own kind.
pub open spec fn default_fits(spec: OptionSpec) -> bool {
    match (spec.kind, spec.default) {
        (OptionKind::Bool, OptionDefault::Bool(_)) => true,
        (OptionKind::Enum(_), OptionDefault::Str(_)) => true,
        (OptionKind::Str, OptionDefault::Str(_)) => true,
        _ => false,
    }
}

/// The first five options the renderer declares, keys, kinds and defaults as
/// it declares them.
pub fn option_schema() -> (r: [OptionSpec; 5])
    ensures
        forall|i: int| 0 <= i < 5 ==> default_fits(#[trigger] r@[i]),
        r@[0].key@ == "surround_placement"@,
        r@[1].key@ == "synthetic_objects_enabled"@,
        r@[2].key@ == "output_channel_mapping"@,
        r@[3].key@ == "object_generator_id"@,
        r@[4].key@ == "phantom_extract_mode"@,
{
    [
        OptionSpec {
            key: "surround_placement",
            label: "Surround placement",
            help: None,
            kind: OptionKind::Enum(&["side", "back"]),
            default: OptionDefault::Str("side"),
        },
        OptionSpec {
            key: "synthetic_objects_enabled",
            label: "Synthetic objects",
            help: Some("Synthesize height/phantom objects from 2D sources."),
            kind: OptionKind::Bool,
            default: OptionDefault::Bool(false),
        },
        OptionSpec {
            key: "output_channel_mapping",
            label: "Output channel mapping",
            help: None,
            kind: OptionKind::Enum(&["by_index", "by_name"]),
            default: OptionDefault::Str("by_index"),
        },
        OptionSpec {
            key: "object_generator_id",
            label: "Object generator",
            help: Some("Registry id of the object generator backend."),
            kind: OptionKind::Str,
            default: OptionDefault::Str(""),
        },
        OptionSpec {
            key: "phantom_extract_mode",
            label: "Phantom extraction",
            help: Some("Extract phantom centre content from stereo pairs."),
            kind: OptionKind::Enum(&["off", "broadband", "spectral"]),
            default: OptionDefault::Str("off"),
        },
    ]
}

/// An option's default is a value of its kind, so a freshly built value is
/// always one its row can show.
pub proof fn lemma_default_value_fits(spec: OptionSpec, v: OptionValue)
    requires
        default_fits(spec),
        match spec.default {
            OptionDefault::Bool(b) => v == OptionValue::Bool(b),
            OptionDefault::Str(_) => v is Str,
        },
    ensures
        match (spec.kind, v) {
            (OptionKind::Bool, OptionValue::Bool(_)) => true,
            (OptionKind::Enum(_), OptionValue::Str(_)) => true,
            (OptionKind::Str, OptionValue::Str(_)) => true,
            _ => false,
        },
{
}

} // verus!
