//! The reasons that the analyzer gives for a denial.

use vstd::prelude::*;

use crate::error::SelinuxError;
use crate::native;

verus! {

/// Why the policy decided as it did.
#[derive(Clone, Copy, Debug, PartialEq, Eq, Structural)]
pub enum WhyReason {
    Allow,
    DontAudit,
    TeRule,
    Boolean,
    Constraint,
    Rbac,
    Bounds,
}

/// The reason that the shim means by a number.
pub open spec fn reason_of(value: i32) -> Option<WhyReason> {
    if value == native::ALLOW {
        Some(WhyReason::Allow)
    } else if value == native::DONTAUDIT {
        Some(WhyReason::DontAudit)
    } else if value == native::TERULE {
        Some(WhyReason::TeRule)
    } else if value == native::BOOLEAN {
        Some(WhyReason::Boolean)
    } else if value == native::CONSTRAINT {
        Some(WhyReason::Constraint)
    } else if value == native::RBAC {
        Some(WhyReason::Rbac)
    } else if value == native::BOUNDS {
        Some(WhyReason::Bounds)
    } else {
        None
    }
}

/// The name under which a reason appears in an event.
pub open spec fn reason_name(reason: WhyReason) -> Seq<char> {
    match reason {
        WhyReason::Allow => "ALLOW"@,
        WhyReason::DontAudit => "DONTAUDIT"@,
        WhyReason::TeRule => "TERULE"@,
        WhyReason::Boolean => "BOOLEAN"@,
        WhyReason::Constraint => "CONSTRAINT"@,
        WhyReason::Rbac => "RBAC"@,
        WhyReason::Bounds => "BOUNDS"@,
    }
}

impl WhyReason {
    /// The reason that the shim means by `value`; any other number makes its result invalid.
    pub fn from_native(value: i32) -> (reason: Result<WhyReason, SelinuxError>)
        ensures
            reason == match reason_of(value) {
                Some(known) => Ok::<WhyReason, SelinuxError>(known),
                None => Err(SelinuxError::InvalidNativeResult),
            },
            reason == Ok::<WhyReason, SelinuxError>(WhyReason::Allow) <==> value == 0,
            reason == Ok::<WhyReason, SelinuxError>(WhyReason::DontAudit) <==> value == 1,
            reason == Ok::<WhyReason, SelinuxError>(WhyReason::TeRule) <==> value == 2,
            reason == Ok::<WhyReason, SelinuxError>(WhyReason::Boolean) <==> value == 3,
            reason == Ok::<WhyReason, SelinuxError>(WhyReason::Constraint) <==> value == 4,
            reason == Ok::<WhyReason, SelinuxError>(WhyReason::Rbac) <==> value == 5,
            reason == Ok::<WhyReason, SelinuxError>(WhyReason::Bounds) <==> value == 6,
            reason == Err::<WhyReason, SelinuxError>(SelinuxError::InvalidNativeResult) <==> value < 0
                || value > 6,
    {
        match value {
            native::ALLOW => Ok(WhyReason::Allow),
            native::DONTAUDIT => Ok(WhyReason::DontAudit),
            native::TERULE => Ok(WhyReason::TeRule),
            native::BOOLEAN => Ok(WhyReason::Boolean),
            native::CONSTRAINT => Ok(WhyReason::Constraint),
            native::RBAC => Ok(WhyReason::Rbac),
            native::BOUNDS => Ok(WhyReason::Bounds),
            _ => Err(SelinuxError::InvalidNativeResult),
        }
    }

    /// The name under which the reason appears in an event.
    pub fn as_str(self) -> (name: &'static str)
        ensures
            name@ == reason_name(self),
            self is Allow ==> name@ == "ALLOW"@,
            self is DontAudit ==> name@ == "DONTAUDIT"@,
            self is TeRule ==> name@ == "TERULE"@,
            self is Boolean ==> name@ == "BOOLEAN"@,
            self is Constraint ==> name@ == "CONSTRAINT"@,
            self is Rbac ==> name@ == "RBAC"@,
            self is Bounds ==> name@ == "BOUNDS"@,
    {
        match self {
            WhyReason::Allow => "ALLOW",
            WhyReason::DontAudit => "DONTAUDIT",
            WhyReason::TeRule => "TERULE",
            WhyReason::Boolean => "BOOLEAN",
            WhyReason::Constraint => "CONSTRAINT",
            WhyReason::Rbac => "RBAC",
            WhyReason::Bounds => "BOUNDS",
        }
    }
}

/// An explanation: the reason, and what more the shim had to say.
#[derive(Debug, PartialEq, Eq)]
pub struct WhyResult {
    pub reason: WhyReason,
    pub detail: Option<Vec<u8>>,
}

/// The mathematical value of a [`WhyResult`].
pub struct WhyModel {
    pub reason: WhyReason,
    pub detail: Option<Seq<u8>>,
}

impl View for WhyResult {
    type V = WhyModel;

    open spec fn view(&self) -> WhyModel {
        WhyModel {
            reason: self.reason,
            detail: match self.detail {
                Some(bytes) => Some(bytes@),
                None => None,
            },
        }
    }
}

impl Clone for WhyResult {
    fn clone(&self) -> (copy: WhyResult)
        ensures
            copy@ == self@,
    {
        let detail = match &self.detail {
            Some(bytes) => {
                let copied = bytes.clone();
                assert(copied@ =~= bytes@);
                Some(copied)
            },
            None => None,
        };
        WhyResult { reason: self.reason, detail }
    }
}

/// Every reason has a number that means it, and a name that no other reason has.
pub proof fn law_reasons_are_told_apart(a: WhyReason, b: WhyReason)
    ensures
        exists|value: i32| reason_of(value) == Some(a),
        reason_name(a) == reason_name(b) ==> a == b,
{
    let value = match a {
        WhyReason::Allow => native::ALLOW,
        WhyReason::DontAudit => native::DONTAUDIT,
        WhyReason::TeRule => native::TERULE,
        WhyReason::Boolean => native::BOOLEAN,
        WhyReason::Constraint => native::CONSTRAINT,
        WhyReason::Rbac => native::RBAC,
        WhyReason::Bounds => native::BOUNDS,
    };
    assert(reason_of(value) == Some(a));
    reveal_strlit("ALLOW");
    reveal_strlit("DONTAUDIT");
    reveal_strlit("TERULE");
    reveal_strlit("BOOLEAN");
    reveal_strlit("CONSTRAINT");
    reveal_strlit("RBAC");
    reveal_strlit("BOUNDS");
    assert("ALLOW"@.len() == 5 && "DONTAUDIT"@.len() == 9 && "TERULE"@.len() == 6);
    assert("BOOLEAN"@.len() == 7 && "CONSTRAINT"@.len() == 10 && "RBAC"@.len() == 4);
    assert("BOUNDS"@.len() == 6 && "TERULE"@[0] != "BOUNDS"@[0]);
}

/// The shim counts the reasons from zero on, in the order of their declaration; no other number
/// means a reason.
pub proof fn law_numbers_mean_reasons(value: i32)
    ensures
        reason_of(value) == Some(WhyReason::Allow) <==> value == 0,
        reason_of(value) == Some(WhyReason::DontAudit) <==> value == 1,
        reason_of(value) == Some(WhyReason::TeRule) <==> value == 2,
        reason_of(value) == Some(WhyReason::Boolean) <==> value == 3,
        reason_of(value) == Some(WhyReason::Constraint) <==> value == 4,
        reason_of(value) == Some(WhyReason::Rbac) <==> value == 5,
        reason_of(value) == Some(WhyReason::Bounds) <==> value == 6,
        reason_of(value) is None <==> value < 0 || value > 6,
{
}

/// An event names each reason in capitals, as the policy tools do.
pub proof fn law_reasons_are_named(reason: WhyReason)
    ensures
        reason is Allow ==> reason_name(reason) == "ALLOW"@,
        reason is DontAudit ==> reason_name(reason) == "DONTAUDIT"@,
        reason is TeRule ==> reason_name(reason) == "TERULE"@,
        reason is Boolean ==> reason_name(reason) == "BOOLEAN"@,
        reason is Constraint ==> reason_name(reason) == "CONSTRAINT"@,
        reason is Rbac ==> reason_name(reason) == "RBAC"@,
        reason is Bounds ==> reason_name(reason) == "BOUNDS"@,
{
}

/// An explanation stands for its reason and for the bytes of its detail, all of them.
pub proof fn law_explanation_is_whole(result: WhyResult)
    ensures
        result@.reason == result.reason,
        result@.detail is Some <==> result.detail is Some,
        result.detail matches Some(bytes) ==> result@.detail == Some(bytes@),
{
}

} // verus!
