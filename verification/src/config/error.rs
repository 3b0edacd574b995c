//! Configuration error taxonomy.

use vstd::prelude::*;
use vstd::string::*;

use crate::text::{decimal, push_decimal};

verus! {

/// Errors produced while parsing or validating configuration.
#[derive(Clone, Debug, PartialEq, Eq)]
pub enum ConfigError {
    /// Unsupported configuration schema version.
    UnsupportedVersion {
        /// Version found in YAML.
        found: u32,
        /// Supported versions.
        supported: Vec<u32>,
    },
    /// A required field is missing or empty.
    MissingField {
        /// Dotted path to the field.
        path: &'static str,
    },
    /// A field has an invalid value.
    InvalidValue {
        /// Dotted path to the field.
        path: &'static str,
        /// Human-readable reason.
        reason: String,
    },
    /// Duplicate identifier within a namespace.
    DuplicateId {
        /// Namespace, e.g. `partition` or `ipc`.
        namespace: &'static str,
        /// Duplicate name.
        name: String,
    },
    /// Referenced entity does not exist.
    UnknownReference {
        /// Reference kind.
        kind: &'static str,
        /// Referenced name.
        name: String,
    },
    /// Datapath topology violates unidirectional constraints.
    DatapathViolation {
        /// Explanation of the violation.
        reason: String,
    },
    /// PCI device ownership conflict.
    PciOwnershipConflict {
        /// Conflicting BDF string.
        bdf: String,
        /// First owner partition.
        first: String,
        /// Second owner partition.
        second: String,
    },
    /// Resource totals exceed declared platform minimums.
    ResourceBudgetExceeded {
        /// Resource kind.
        kind: &'static str,
        /// Required amount.
        required: u64,
        /// Available amount.
        available: u64,
    },
    /// YAML could not be parsed.
    YamlParse(String),
    /// I/O error while reading configuration.
    Io(String),
}

/// An `InvalidValue` error at `path` whose reason text is `reason`.
pub open spec fn is_invalid(e: ConfigError, path: &'static str, reason: Seq<char>) -> bool {
    e matches ConfigError::InvalidValue { path: p, reason: r } && p == path && r@ == reason
}

impl ConfigError {
    /// Helper for invalid value errors.
    pub fn invalid(path: &'static str, reason: &str) -> (r: Self)
        ensures
            is_invalid(r, path, reason@),
    {
        ConfigError::InvalidValue { path, reason: String::from_str(reason) }
    }
}

} // verus!

verus! {

/// Description of a configuration error by the views of its text fields.
pub ghost enum ConfigErrorSpec {
    /// `UnsupportedVersion` with the version found.
    UnsupportedVersion(u32),
    /// `MissingField` at a path.
    MissingField(&'static str),
    /// `InvalidValue` at a path with a reason text.
    Invalid(&'static str, Seq<char>),
    /// `DuplicateId` in a namespace with a name text.
    DuplicateId(&'static str, Seq<char>),
    /// `UnknownReference` of a kind with a name text.
    UnknownReference(&'static str, Seq<char>),
    /// `DatapathViolation` with a reason text.
    Datapath(Seq<char>),
    /// `PciOwnershipConflict` with BDF, first and second owner texts.
    PciConflict(Seq<char>, Seq<char>, Seq<char>),
    /// `ResourceBudgetExceeded` with kind, required and available amounts.
    Budget(&'static str, u64, u64),
}

/// The error `e` is the one `s` describes.
pub open spec fn error_is(e: ConfigError, s: ConfigErrorSpec) -> bool {
    match s {
        ConfigErrorSpec::UnsupportedVersion(found) => e matches ConfigError::UnsupportedVersion {
            found: f,
            supported,
        } && f == found && supported@ == seq![1u32],
        ConfigErrorSpec::MissingField(path) => e == ConfigError::MissingField { path },
        ConfigErrorSpec::Invalid(path, reason) => is_invalid(e, path, reason),
        ConfigErrorSpec::DuplicateId(ns, name) => e matches ConfigError::DuplicateId {
            namespace,
            name: n,
        } && namespace == ns && n@ == name,
        ConfigErrorSpec::UnknownReference(kind, name) => e matches ConfigError::UnknownReference {
            kind: k,
            name: n,
        } && k == kind && n@ == name,
        ConfigErrorSpec::Datapath(reason) => e matches ConfigError::DatapathViolation { reason: r }
            && r@ == reason,
        ConfigErrorSpec::PciConflict(bdf, first, second) => e matches ConfigError::PciOwnershipConflict {
            bdf: b,
            first: f,
            second: s2,
        } && b@ == bdf && f@ == first && s2@ == second,
        ConfigErrorSpec::Budget(kind, required, available) => e
            == ConfigError::ResourceBudgetExceeded { kind, required, available },
    }
}


/// Comma-separated decimal texts of `s`.
pub open spec fn joined_decimals(s: Seq<u32>) -> Seq<char>
    decreases s.len(),
{
    if s.len() == 0 {
        Seq::empty()
    } else if s.len() == 1 {
        decimal(s[0] as nat)
    } else {
        joined_decimals(s.drop_last()) + ", "@ + decimal(s.last() as nat)
    }
}

/// Human-readable description of a configuration error.
pub open spec fn config_error_text(e: ConfigError) -> Seq<char> {
    match e {
        ConfigError::UnsupportedVersion { found, supported } => "unsupported config version "@ + decimal(
            found as nat,
        ) + "; supported: "@ + seq!['['] + joined_decimals(supported@) + seq![']'],
        ConfigError::MissingField { path } => "missing required field `"@ + path@ + "`"@,
        ConfigError::InvalidValue { path, reason } => "invalid value at `"@ + path@ + "`: "@ + reason@,
        ConfigError::DuplicateId { namespace, name } => "duplicate "@ + namespace@ + " name `"@ + name@
            + "`"@,
        ConfigError::UnknownReference { kind, name } => "unknown "@ + kind@ + " `"@ + name@ + "`"@,
        ConfigError::DatapathViolation { reason } => "datapath violation: "@ + reason@,
        ConfigError::PciOwnershipConflict { bdf, first, second } => "PCI device `"@ + bdf@
            + "` assigned to both `"@ + first@ + "` and `"@ + second@ + "`"@,
        ConfigError::ResourceBudgetExceeded { kind, required, available } => kind@ + " budget exceeded: required "@
            + decimal(required as nat) + ", available "@ + decimal(available as nat),
        ConfigError::YamlParse(msg) => "yaml parse error: "@ + msg@,
        ConfigError::Io(msg) => "io error: "@ + msg@,
    }
}

fn push_decimal_list(out: &mut String, items: &Vec<u32>)
    ensures
        final(out)@ == old(out)@ + seq!['['] + joined_decimals(items@) + seq![']'],
{
    proof {
        reveal_strlit("[");
        reveal_strlit("]");
        reveal_strlit(", ");
    }
    out.append("[");
    let ghost start = out@;
    let mut i: usize = 0;
    while i < items.len()
        invariant
            i <= items@.len(),
            out@ == start + joined_decimals(items@.subrange(0, i as int)),
            start == old(out)@ + seq!['['],
        decreases items@.len() - i,
    {
        proof {
            assert(items@.subrange(0, i + 1).drop_last() =~= items@.subrange(0, i as int));
        }
        if i > 0 {
            out.append(", ");
        }
        push_decimal(out, items[i] as u64);
        proof {
            assert(out@ =~= start + joined_decimals(items@.subrange(0, i + 1)));
        }
        i = i + 1;
    }
    out.append("]");
    proof {
        assert(items@.subrange(0, items@.len() as int) =~= items@);
        assert(final(out)@ =~= old(out)@ + seq!['['] + joined_decimals(items@) + seq![']']);
    }
}

impl ConfigError {
    /// Human-readable description of the error.
    pub fn message(&self) -> (r: String)
        ensures
            r@ == config_error_text(*self),
    {
        match self {
            ConfigError::UnsupportedVersion { found, supported } => {
                let mut out = String::from_str("unsupported config version ");
                push_decimal(&mut out, *found as u64);
                out.append("; supported: ");
                push_decimal_list(&mut out, supported);
                out
            },
            ConfigError::MissingField { path } => {
                let mut out = String::from_str("missing required field `");
                out.append(path);
                out.append("`");
                out
            },
            ConfigError::InvalidValue { path, reason } => {
                let mut out = String::from_str("invalid value at `");
                out.append(path);
                out.append("`: ");
                out.append(reason.as_str());
                out
            },
            ConfigError::DuplicateId { namespace, name } => {
                let mut out = String::from_str("duplicate ");
                out.append(namespace);
                out.append(" name `");
                out.append(name.as_str());
                out.append("`");
                out
            },
            ConfigError::UnknownReference { kind, name } => {
                let mut out = String::from_str("unknown ");
                out.append(kind);
                out.append(" `");
                out.append(name.as_str());
                out.append("`");
                out
            },
            ConfigError::DatapathViolation { reason } => {
                let mut out = String::from_str("datapath violation: ");
                out.append(reason.as_str());
                out
            },
            ConfigError::PciOwnershipConflict { bdf, first, second } => {
                let mut out = String::from_str("PCI device `");
                out.append(bdf.as_str());
                out.append("` assigned to both `");
                out.append(first.as_str());
                out.append("` and `");
                out.append(second.as_str());
                out.append("`");
                out
            },
            ConfigError::ResourceBudgetExceeded { kind, required, available } => {
                let mut out = String::from_str(kind);
                out.append(" budget exceeded: required ");
                push_decimal(&mut out, *required);
                out.append(", available ");
                push_decimal(&mut out, *available);
                out
            },
            ConfigError::YamlParse(msg) => {
                let mut out = String::from_str("yaml parse error: ");
                out.append(msg.as_str());
                out
            },
            ConfigError::Io(msg) => {
                let mut out = String::from_str("io error: ");
                out.append(msg.as_str());
                out
            },
        }
    }
}

} // verus!
