//! Why a task operation was refused.

use crate::model::error::{DomainError, PortError};
use vstd::prelude::*;

verus! {

#[allow(inconsistent_fields)]
#[derive(Debug, PartialEq, Eq)]
pub enum ServiceError {
    Port(PortError),
    Domain(DomainError),
    BadId(String),
    BadEnum { field: &'static str, value: String },
    /// A composite id named one prefix, but the task's repository has another.
    PrefixMismatch { input_prefix: String, actual_prefix: String, hash: String },
    /// A task related to itself.
    SelfRelation,
    /// The relation would close a cycle; the request is named as it was given.
    RelationCycle { kind: String, from: String, to: String },
}

impl ServiceError {
    /// The message of a refusal; `None` for a failure that was passed on and
    /// shows its own text.
    pub open spec fn text(self) -> Option<Seq<char>> {
        match self {
            ServiceError::Port(_) | ServiceError::Domain(_) => None,
            ServiceError::BadId(id) => Some("invalid id: "@ + id@),
            ServiceError::BadEnum { field, value } => Some(
                "invalid enum value for "@ + field@ + ": "@ + value@,
            ),
            ServiceError::PrefixMismatch { input_prefix, actual_prefix, hash } => Some(
                "prefix mismatch: input '"@ + input_prefix@ + "-"@ + hash@ + "' but task "@ + hash@
                    + " lives under prefix '"@ + actual_prefix@ + "'"@,
            ),
            ServiceError::SelfRelation => Some("a task cannot be related to itself"@),
            ServiceError::RelationCycle { kind, from, to } => Some(
                "relation would close a cycle: "@ + from@ + " "@ + kind@ + " "@ + to@,
            ),
        }
    }

    /// The message of a refusal; `None` for a failure that was passed on and
    /// shows its own text.
    pub fn message(&self) -> (out: Option<String>)
        ensures
            match out {
                Some(m) => self.text() == Some(m@),
                None => self.text() is None,
            },
    {
        match self {
            ServiceError::Port(_) | ServiceError::Domain(_) => None,
            ServiceError::BadId(id) => {
                let mut out = "invalid id: ".to_owned();
                out.append(id.as_str());
                Some(out)
            },
            ServiceError::BadEnum { field, value } => {
                let mut out = "invalid enum value for ".to_owned();
                out.append(field);
                out.append(": ");
                out.append(value.as_str());
                Some(out)
            },
            ServiceError::PrefixMismatch { input_prefix, actual_prefix, hash } => {
                let mut out = "prefix mismatch: input '".to_owned();
                out.append(input_prefix.as_str());
                out.append("-");
                out.append(hash.as_str());
                out.append("' but task ");
                out.append(hash.as_str());
                out.append(" lives under prefix '");
                out.append(actual_prefix.as_str());
                out.append("'");
                Some(out)
            },
            ServiceError::SelfRelation => Some("a task cannot be related to itself".to_owned()),
            ServiceError::RelationCycle { kind, from, to } => {
                let mut out = "relation would close a cycle: ".to_owned();
                out.append(from.as_str());
                out.append(" ");
                out.append(kind.as_str());
                out.append(" ");
                out.append(to.as_str());
                Some(out)
            },
        }
    }
}

/// A refusal says what it is about: the field and the value that it does not
/// take, the prefix asked for and the one that the task has, and the relation
/// that would close a cycle; a failure that was passed on has its own text.
pub proof fn law_refusal_names_its_subject(e: ServiceError)
    ensures
        e.text() is None <==> e is Port || e is Domain,
        e matches ServiceError::BadId(id) ==> e.text() == Some("invalid id: "@ + id@),
        e matches ServiceError::BadEnum { field, value } ==> e.text() == Some(
            "invalid enum value for "@ + field@ + ": "@ + value@,
        ),
        e matches ServiceError::PrefixMismatch { input_prefix, actual_prefix, hash } ==> exists|
            a: Seq<char>,
            b: Seq<char>,
            c: Seq<char>,
        |
            e.text() == Some(
                #[trigger] (a + input_prefix@ + "-"@ + hash@ + b + hash@ + c + actual_prefix@
                    + "'"@),
            ),
        e matches ServiceError::RelationCycle { kind, from, to } ==> e.text() == Some(
            "relation would close a cycle: "@ + from@ + " "@ + kind@ + " "@ + to@,
        ),
        e == ServiceError::SelfRelation ==> e.text() == Some(
            "a task cannot be related to itself"@,
        ),
{
    if let ServiceError::PrefixMismatch { input_prefix, actual_prefix, hash } = e {
        assert(e.text()->0 == "prefix mismatch: input '"@ + input_prefix@ + "-"@ + hash@
            + "' but task "@ + hash@ + " lives under prefix '"@ + actual_prefix@ + "'"@);
    }
}

} // verus!
