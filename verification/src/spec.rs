//! Wardrobe document contract: version rule and the errors of parsing and validation.

use vstd::prelude::*;
use vstd::string::StringExecFns;
use crate::text::{decimal, push_decimal};

verus! {

/// Supported top-level contract revision (bump when breaking the JSON shape).
pub const WARDROBE_SPEC_VERSION: u32 = 1;

/// Why a wardrobe document was refused.
#[derive(Debug, PartialEq, Eq)]
pub enum SpecError {
    /// The text is not a well-formed document of the expected shape; holds the parser's message.
    Json(String),
    /// The document declares a contract revision this library does not read.
    UnsupportedVersion(u32),
    /// A shape rule was broken; holds the human-readable reason.
    Validation(String),
}

impl SpecError {
    /// The human-readable text of the error.
    pub open spec fn message_spec(&self) -> Seq<char> {
        match self {
            SpecError::Json(m) => "JSON parse error: "@ + m@,
            SpecError::UnsupportedVersion(v) => "unsupported spec version "@ + decimal(*v as nat)
                + " (supported: "@ + decimal(WARDROBE_SPEC_VERSION as nat) + ")"@,
            SpecError::Validation(m) => m@,
        }
    }

    /// Renders the error as the text shown to users.
    pub fn message(&self) -> (s: String)
        ensures
            s@ == self.message_spec(),
    {
        match self {
            SpecError::Json(m) => {
                let mut out = String::new();
                out.append("JSON parse error: ");
                out.append(m.as_str());
                assert(out@ =~= self.message_spec());
                out
            },
            SpecError::UnsupportedVersion(v) => {
                let mut out = String::new();
                out.append("unsupported spec version ");
                push_decimal(&mut out, *v as u64);
                out.append(" (supported: ");
                push_decimal(&mut out, WARDROBE_SPEC_VERSION as u64);
                out.append(")");
                assert(out@ =~= self.message_spec());
                out
            },
            SpecError::Validation(m) => m.clone(),
        }
    }
}

/// The version rule: only `WARDROBE_SPEC_VERSION` is read.
pub fn check_spec_version(version: u32) -> (r: Result<(), SpecError>)
    ensures
        r == (if version == WARDROBE_SPEC_VERSION {
            Ok(())
        } else {
            Err(SpecError::UnsupportedVersion(version))
        }),
{
    if version != WARDROBE_SPEC_VERSION {
        return Err(SpecError::UnsupportedVersion(version));
    }
    Ok(())
}

/// The text of the error for a count field (`shelf_count`, `rungs`, `bay_count`) below one.
pub open spec fn at_least_one_message(label: Seq<char>) -> Seq<char> {
    label + " must be at least 1"@
}

/// The counting rule shared by every shelf and bay mode: `count` must be at least 1.
pub fn require_at_least_one(label: &str, count: u32) -> (r: Result<(), String>)
    ensures
        count >= 1 <==> r is Ok,
        match r {
            Ok(_) => true,
            Err(m) => m@ == at_least_one_message(label@),
        },
{
    if count < 1 {
        let mut m = String::from_str(label);
        m.append(" must be at least 1");
        return Err(m);
    }
    Ok(())
}

} // verus!
