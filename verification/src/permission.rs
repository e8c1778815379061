//! The two-valued access level carried by every pairing record, with its
//! canonical single-byte wire encoding.

use vstd::prelude::*;

verus! {

/// Access level of a paired controller: an admin may manage other
/// pairings, a plain user may not.
#[derive(Clone, Copy, PartialEq, Eq, Structural, Debug)]
pub enum Permission {
    Admin,
    User,
}

/// Decoding a permission byte outside the defined set fails with this.
#[derive(Clone, Copy, PartialEq, Eq, Structural, Debug)]
pub enum PermissionError {
    UnknownPermission,
}

impl Permission {
    /// The canonical byte for this access level.
    pub open spec fn spec_to_byte(self) -> u8 {
        match self {
            Permission::User => 0u8,
            Permission::Admin => 1u8,
        }
    }

    /// The access level a byte decodes to, if any.
    pub open spec fn spec_from_byte(b: u8) -> Option<Permission> {
        if b == 0 {
            Some(Permission::User)
        } else if b == 1 {
            Some(Permission::Admin)
        } else {
            None
        }
    }

    /// Canonical byte encoding: user is 0, admin is 1.
    pub fn to_byte(self) -> (r: u8)
        ensures
            r == self.spec_to_byte(),
    {
        match self {
            Permission::User => 0,
            Permission::Admin => 1,
        }
    }

    /// Exact inverse of `to_byte`; any byte outside the defined set is
    /// rejected.
    pub fn from_byte(b: u8) -> (r: Result<Permission, PermissionError>)
        ensures
            match Permission::spec_from_byte(b) {
                Some(p) => r == Ok::<Permission, PermissionError>(p),
                None => r == Err::<Permission, PermissionError>(
                    PermissionError::UnknownPermission,
                ),
            },
    {
        match b {
            0 => Ok(Permission::User),
            1 => Ok(Permission::Admin),
            _ => Err(PermissionError::UnknownPermission),
        }
    }
}

/// The byte encoding is lossless: decoding the canonical byte of any
/// access level yields that access level back.
pub proof fn lemma_permission_round_trip(p: Permission)
    ensures
        Permission::spec_from_byte(p.spec_to_byte()) == Some(p),
{
}

} // verus!
