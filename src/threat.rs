//! The threat catalog: entries with status, severity and STRIDE class.

use vstd::prelude::*;

verus! {

/// Review status of a catalog threat.
#[derive(Debug, Clone, Copy, PartialEq, Eq, Structural)]
pub enum Status {
    Open,
    NotApplicable,
    Mitigated,
}

impl Status {
    pub open spec fn label(self) -> Seq<char> {
        match self {
            Status::Open => "Open"@,
            Status::NotApplicable => "NotApplicable"@,
            Status::Mitigated => "Mitigated"@,
        }
    }

    pub fn to_string(&self) -> (r: String)
        ensures
            r@ == self.label(),
    {
        match self {
            Status::Open => String::from_str("Open"),
            Status::NotApplicable => String::from_str("NotApplicable"),
            Status::Mitigated => String::from_str("Mitigated"),
        }
    }
}

/// Severity of a catalog threat.
#[derive(Debug, Clone, Copy, PartialEq, Eq, Structural)]
pub enum Severity {
    Low,
    Medium,
    High,
}

impl Severity {
    pub open spec fn label(self) -> Seq<char> {
        match self {
            Severity::Low => "Low"@,
            Severity::Medium => "Medium"@,
            Severity::High => "High"@,
        }
    }

    pub fn to_string(&self) -> (r: String)
        ensures
            r@ == self.label(),
    {
        match self {
            Severity::Low => String::from_str("Low"),
            Severity::Medium => String::from_str("Medium"),
            Severity::High => String::from_str("High"),
        }
    }
}

/// STRIDE classification of a catalog threat.
#[derive(Debug, Clone, Copy, PartialEq, Eq, Structural)]
pub enum TypeThreat {
    Spoofing,
    Tampering,
    Repudiation,
    InformationDisclosure,
    DenialOfService,
    ElevationOfPrivilege,
}

impl TypeThreat {
    pub open spec fn label(self) -> Seq<char> {
        match self {
            TypeThreat::Spoofing => "Spoofing"@,
            TypeThreat::Tampering => "Tampering"@,
            TypeThreat::Repudiation => "Repudiation"@,
            TypeThreat::InformationDisclosure => "Information disclosure"@,
            TypeThreat::DenialOfService => "Denial of service"@,
            TypeThreat::ElevationOfPrivilege => "Elevation of privilege"@,
        }
    }

    pub fn to_string(&self) -> (r: String)
        ensures
            r@ == self.label(),
    {
        match self {
            TypeThreat::Spoofing => String::from_str("Spoofing"),
            TypeThreat::Tampering => String::from_str("Tampering"),
            TypeThreat::Repudiation => String::from_str("Repudiation"),
            TypeThreat::InformationDisclosure => String::from_str("Information disclosure"),
            TypeThreat::DenialOfService => String::from_str("Denial of service"),
            TypeThreat::ElevationOfPrivilege => String::from_str("Elevation of privilege"),
        }
    }
}

/// An entry of the threat catalog; `title` is the key that nodes refer to.
#[derive(Debug)]
pub struct Threat {
    pub title: String,
    pub status: Status,
    pub severity: Severity,
    pub type_field: TypeThreat,
    pub description: String,
    pub mitigation: String,
    pub vector: Option<String>,
}

impl Clone for Threat {
    fn clone(&self) -> (r: Self)
        ensures
            r == *self,
    {
        Threat {
            title: self.title.clone(),
            status: self.status,
            severity: self.severity,
            type_field: self.type_field,
            description: self.description.clone(),
            mitigation: self.mitigation.clone(),
            vector: self.vector.clone(),
        }
    }
}

} // verus!
