//! Classes of HTTP status codes.

use vstd::prelude::*;

verus! {

/// `status` is in the class of successes.
pub open spec fn success(status: u16) -> bool {
    200 <= status < 300
}

/// `status` is in the class of client errors.
pub open spec fn client_error(status: u16) -> bool {
    400 <= status < 500
}

/// `status` is in the class of server errors.
pub open spec fn server_error(status: u16) -> bool {
    500 <= status < 600
}

/// Whether `status` is in the class of successes.
pub fn is_success(status: u16) -> (r: bool)
    ensures
        r == success(status),
{
    200 <= status && status < 300
}

/// Whether `status` is in the class of client errors.
pub fn is_client_error(status: u16) -> (r: bool)
    ensures
        r == client_error(status),
{
    400 <= status && status < 500
}

/// Whether `status` is in the class of server errors.
pub fn is_server_error(status: u16) -> (r: bool)
    ensures
        r == server_error(status),
{
    500 <= status && status < 600
}

/// The class of a status is its first digit of three: two for successes, four for
/// client errors and five for server errors.
pub proof fn law_status_class(status: u16)
    ensures
        success(status) <==> status / 100 == 2,
        client_error(status) <==> status / 100 == 4,
        server_error(status) <==> status / 100 == 5,
{
}

} // verus!
