use vstd::prelude::*;

verus! {

/// How serious a finding is.
#[derive(Debug, PartialEq, Eq, Hash, Clone, Copy, Structural)]
pub enum Severity {
    Critical,
    Enhancement,
    Medium,
    Minor,
}

/// The display name of a severity.
pub open spec fn severity_name(s: Severity) -> Seq<char> {
    match s {
        Severity::Critical => "Critical"@,
        Severity::Enhancement => "Enhancement"@,
        Severity::Medium => "Medium"@,
        Severity::Minor => "Minor"@,
    }
}

impl Severity {
    /// The display name of the severity.
    pub fn as_ref(&self) -> (r: &'static str)
        ensures
            r@ == severity_name(*self),
    {
        match self {
            Severity::Critical => "Critical",
            Severity::Enhancement => "Enhancement",
            Severity::Medium => "Medium",
            Severity::Minor => "Minor",
        }
    }
}

/// The family of vulnerabilities a detector belongs to.
#[derive(Debug, PartialEq, Eq, Hash, Clone, Copy, Structural)]
pub enum VulnerabilityClass {
    Arithmetic,
    Authorization,
    BestPractices,
    BlockAttributes,
    DoS,
    ErrorHandling,
    GasUsage,
    KnownBugs,
    MEV,
    Panic,
    Reentrancy,
    ResourceManagement,
    Upgradability,
}

/// The display name of a vulnerability class.
pub open spec fn vulnerability_class_name(c: VulnerabilityClass) -> Seq<char> {
    match c {
        VulnerabilityClass::Arithmetic => "Arithmetic"@,
        VulnerabilityClass::Authorization => "Authorization"@,
        VulnerabilityClass::BestPractices => "Best Practices"@,
        VulnerabilityClass::BlockAttributes => "Block Attributes"@,
        VulnerabilityClass::DoS => "DoS"@,
        VulnerabilityClass::ErrorHandling => "Error Handling"@,
        VulnerabilityClass::GasUsage => "Gas Usage"@,
        VulnerabilityClass::KnownBugs => "Known Bugs"@,
        VulnerabilityClass::MEV => "MEV"@,
        VulnerabilityClass::Panic => "Panic"@,
        VulnerabilityClass::Reentrancy => "Reentrancy"@,
        VulnerabilityClass::ResourceManagement => "Resource Management"@,
        VulnerabilityClass::Upgradability => "Upgradability"@,
    }
}

impl VulnerabilityClass {
    /// The display name of the vulnerability class.
    pub fn as_ref(&self) -> (r: &'static str)
        ensures
            r@ == vulnerability_class_name(*self),
    {
        match self {
            VulnerabilityClass::Arithmetic => "Arithmetic",
            VulnerabilityClass::Authorization => "Authorization",
            VulnerabilityClass::BestPractices => "Best Practices",
            VulnerabilityClass::BlockAttributes => "Block Attributes",
            VulnerabilityClass::DoS => "DoS",
            VulnerabilityClass::ErrorHandling => "Error Handling",
            VulnerabilityClass::GasUsage => "Gas Usage",
            VulnerabilityClass::KnownBugs => "Known Bugs",
            VulnerabilityClass::MEV => "MEV",
            VulnerabilityClass::Panic => "Panic",
            VulnerabilityClass::Reentrancy => "Reentrancy",
            VulnerabilityClass::ResourceManagement => "Resource Management",
            VulnerabilityClass::Upgradability => "Upgradability",
        }
    }
}

} // verus!
