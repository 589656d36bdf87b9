//! What passes between the analyzer and the native SELinux shim, as plain values.

use vstd::prelude::*;

verus! {

/// The call succeeded.
pub const OK: i32 = 0;

/// SELinux is not enabled on this host.
pub const DISABLED: i32 = 1;

/// Another analyzer holds the process-global policy state.
pub const BUSY: i32 = 2;

/// The shim rejected one of its arguments.
pub const INVALID_ARGUMENT: i32 = 3;

/// The shim ran out of memory.
pub const NOMEM: i32 = 4;

/// The active policy could not be loaded or inspected.
pub const POLICY_ERROR: i32 = 5;

/// The source context is not valid under the policy.
pub const BAD_SCON: i32 = 6;

/// The target context is not valid under the policy.
pub const BAD_TCON: i32 = 7;

/// The policy does not know the object class.
pub const BAD_CLASS: i32 = 8;

/// The object class does not have one of the permissions.
pub const BAD_PERMISSION: i32 = 9;

/// The access vector could not be computed.
pub const COMPUTE_ERROR: i32 = 10;

/// The policy allows the access.
pub const ALLOW: i32 = 0;

/// The denial is covered by a dontaudit rule.
pub const DONTAUDIT: i32 = 1;

/// No type enforcement rule allows the access.
pub const TERULE: i32 = 2;

/// A boolean would allow the access.
pub const BOOLEAN: i32 = 3;

/// A constraint forbids the access.
pub const CONSTRAINT: i32 = 4;

/// Role-based access control forbids the access.
pub const RBAC: i32 = 5;

/// A type bound forbids the access.
pub const BOUNDS: i32 = 6;

/// A live context of the shim, known by its address, which is never null.
///
/// The value cannot be copied: whoever holds it owns the context and owes the shim
/// one call that closes it.
pub struct LaurelSelinux {
    address: usize,
}

impl LaurelSelinux {
    #[verifier::type_invariant]
    spec fn not_null(self) -> bool {
        self.address != 0
    }

    /// The address that the shim gave the context.
    pub closed spec fn spec_address(self) -> usize {
        self.address
    }

    /// Takes ownership of the context at `address`, unless that is the null address.
    pub fn from_address(address: usize) -> (handle: Option<LaurelSelinux>)
        ensures
            match handle {
                Some(context) => address != 0 && context.spec_address() == address,
                None => address == 0,
            },
    {
        if address == 0 {
            None
        } else {
            Some(LaurelSelinux { address })
        }
    }

    /// The context's address, to hand back to the shim.
    pub fn address(&self) -> (address: usize)
        ensures
            address == self.spec_address(),
            address != 0,
    {
        proof {
            use_type_invariant(self);
        }
        self.address
    }
}

/// What the shim wrote for an analyzed access vector.
///
/// `detail` is `None` where the shim left a null pointer; otherwise it holds the `detail_len`
/// bytes that the pointer led to.
#[derive(Debug)]
pub struct NativeResult {
    reason: i32,
    detail: Option<Vec<u8>>,
    detail_len: usize,
}

/// The mathematical value of a [`NativeResult`].
pub struct NativeModel {
    pub reason: i32,
    pub detail: Option<Seq<u8>>,
    pub detail_len: usize,
}

impl View for NativeResult {
    type V = NativeModel;

    closed spec fn view(&self) -> NativeModel {
        NativeModel {
            reason: self.reason,
            detail: match self.detail {
                Some(bytes) => Some(bytes@),
                None => None,
            },
            detail_len: self.detail_len,
        }
    }
}

/// The bytes of a detail, where there is one, are as many as the shim says.
pub open spec fn is_consistent(native: NativeModel) -> bool {
    native.detail matches Some(detail) ==> detail.len() == native.detail_len
}

impl NativeResult {
    #[verifier::type_invariant]
    spec fn consistent(self) -> bool {
        is_consistent(self@)
    }

    /// A result whose pointer is null, whatever number of bytes the shim claims for it.
    pub fn without_detail(reason: i32, detail_len: usize) -> (native: NativeResult)
        ensures
            native@ == (NativeModel { reason, detail: None, detail_len }),
    {
        NativeResult { reason, detail: None, detail_len }
    }

    /// A result whose pointer leads to these bytes.
    pub fn with_detail(reason: i32, detail: Vec<u8>) -> (native: NativeResult)
        ensures
            native@ == (NativeModel {
                reason,
                detail: Some(detail@),
                detail_len: detail@.len() as usize,
            }),
            is_consistent(native@),
    {
        let detail_len = detail.len();
        NativeResult { reason, detail: Some(detail), detail_len }
    }

    /// The reason, the detail and the number of its bytes.
    pub fn into_parts(self) -> (parts: (i32, Option<Vec<u8>>, usize))
        ensures
            self@ == (NativeModel {
                reason: parts.0,
                detail: match parts.1 {
                    Some(bytes) => Some(bytes@),
                    None => None,
                },
                detail_len: parts.2,
            }),
            is_consistent(self@),
    {
        proof {
            use_type_invariant(&self);
        }
        (self.reason, self.detail, self.detail_len)
    }
}

} // verus!
