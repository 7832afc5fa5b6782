//! Admitting authenticated requests.

use vstd::prelude::*;
use vstd::string::*;

verus! {

/// The verified organisation of a request.
#[derive(Debug)]
pub struct OrgUuid(pub String);

/// What a successful authentication yields.
pub struct AuthContext {
    pub org_uuid: String,
}

/// What to do with a request.
pub enum Gate<E> {
    /// Pass it on as a request of this organisation.
    Admit(OrgUuid),
    /// Answer it with this error.
    Refuse(E),
}

/// The credentials of a request with the `Authorization` header `header`, which
/// is absent where the request has none or it is not readable text.
pub fn credentials(header: Option<&str>) -> (r: String)
    ensures
        r@ == match header {
            Some(s) => s@,
            None => ""@,
        },
{
    match header {
        Some(s) => s.to_owned(),
        None => "".to_owned(),
    }
}

/// A request passes exactly where its authentication succeeded, as a request of
/// the authenticated organisation. Otherwise it is answered with the error.
pub fn gate<E>(outcome: Result<AuthContext, E>) -> (r: Gate<E>)
    ensures
        r == (match outcome {
            Ok(context) => Gate::Admit(OrgUuid(context.org_uuid)),
            Err(error) => Gate::Refuse(error),
        }),
{
    match outcome {
        Ok(context) => Gate::Admit(OrgUuid(context.org_uuid)),
        Err(error) => Gate::Refuse(error),
    }
}

impl Clone for OrgUuid {
    fn clone(&self) -> (r: OrgUuid)
        ensures
            r.0@ == self.0@,
    {
        OrgUuid(self.0.clone())
    }
}

} // verus!
