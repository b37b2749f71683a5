//! Admin-only engine settings.

use vstd::prelude::*;
use vstd::string::StringExecFns;
use crate::store::types::User;

verus! {

/// Admits admins only; others get the message `admin only` (served with
/// status 403).
pub fn require_admin(user: &User) -> (r: Result<(), String>)
    ensures
        r is Ok <==> user.is_admin,
        r matches Err(m) ==> m@ == "admin only"@,
{
    if user.is_admin {
        Ok(())
    } else {
        Err(String::from_str("admin only"))
    }
}

} // verus!
