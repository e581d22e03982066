//! The errors that the ledger answers a refused request with.

use vstd::prelude::*;
use vstd::std_specs::cmp::PartialEqSpecImpl;
use crate::float_bits::Float64;

verus! {

/// Why a request to the ledger was refused.
#[derive(Clone, Debug)]
pub enum KintsugiError {
    /// A repair named an artifact that is not registered.
    ArtifactNotFound(String),
    /// A repair with this identifier was already recorded on the artifact.
    AlreadyRepaired(String),
    /// A repair carried a golden value below zero.
    NegativeValue(Float64),
}

impl KintsugiError {
    /// The start of this error's message, which its payload completes.
    pub open spec fn prefix_view(self) -> Seq<char> {
        match self {
            KintsugiError::ArtifactNotFound(_) => "artifact not found: "@,
            KintsugiError::AlreadyRepaired(_) => "already repaired: "@,
            KintsugiError::NegativeValue(_) => "negative value: "@,
        }
    }

    /// The start of this error's message: `"artifact not found: "`,
    /// `"already repaired: "` or `"negative value: "`.
    pub fn message_prefix(&self) -> (r: &str)
        ensures
            r@ == self.prefix_view(),
    {
        match self {
            KintsugiError::ArtifactNotFound(_) => "artifact not found: ",
            KintsugiError::AlreadyRepaired(_) => "already repaired: ",
            KintsugiError::NegativeValue(_) => "negative value: ",
        }
    }

    /// The identifier that a textual error carries; `None` for a value error,
    /// whose payload is a number.
    pub fn payload_text(&self) -> (r: Option<&str>)
        ensures
            match (self, r) {
                (KintsugiError::ArtifactNotFound(id), Some(t)) => t@ == id@,
                (KintsugiError::AlreadyRepaired(id), Some(t)) => t@ == id@,
                (KintsugiError::NegativeValue(_), None) => true,
                _ => false,
            },
    {
        match self {
            KintsugiError::ArtifactNotFound(id) => Some(id.as_str()),
            KintsugiError::AlreadyRepaired(id) => Some(id.as_str()),
            KintsugiError::NegativeValue(_) => None,
        }
    }

    /// The message of a textual error: its prefix followed by the identifier
    /// it carries. `None` for a value error.
    pub fn text_message(&self) -> (r: Option<String>)
        ensures
            match (self, r) {
                (KintsugiError::ArtifactNotFound(id), Some(m)) => m@ == self.prefix_view() + id@,
                (KintsugiError::AlreadyRepaired(id), Some(m)) => m@ == self.prefix_view() + id@,
                (KintsugiError::NegativeValue(_), None) => true,
                _ => false,
            },
    {
        match self {
            KintsugiError::ArtifactNotFound(id) => {
                let mut m = "artifact not found: ".to_owned();
                m.append(id.as_str());
                Some(m)
            },
            KintsugiError::AlreadyRepaired(id) => {
                let mut m = "already repaired: ".to_owned();
                m.append(id.as_str());
                Some(m)
            },
            KintsugiError::NegativeValue(_) => None,
        }
    }
}

impl PartialEq for KintsugiError {
    fn eq(&self, other: &Self) -> (r: bool) {
        match (self, other) {
            (KintsugiError::ArtifactNotFound(a), KintsugiError::ArtifactNotFound(b)) => *a == *b,
            (KintsugiError::AlreadyRepaired(a), KintsugiError::AlreadyRepaired(b)) => *a == *b,
            (KintsugiError::NegativeValue(a), KintsugiError::NegativeValue(b)) => a.value_eq(b),
            _ => false,
        }
    }
}

impl PartialEqSpecImpl for KintsugiError {
    open spec fn obeys_eq_spec() -> bool {
        true
    }

    /// Equal variants with equal payloads; values compare as binary64 numbers.
    open spec fn eq_spec(&self, other: &Self) -> bool {
        match (*self, *other) {
            (KintsugiError::ArtifactNotFound(a), KintsugiError::ArtifactNotFound(b)) => a@ == b@,
            (KintsugiError::AlreadyRepaired(a), KintsugiError::AlreadyRepaired(b)) => a@ == b@,
            (KintsugiError::NegativeValue(a), KintsugiError::NegativeValue(b)) => a.same_value(b),
            _ => false,
        }
    }
}

} // verus!
