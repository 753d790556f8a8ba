//! What a response status means for a request: follow a redirect, or stop
//! here.
use crate::error::RequestError;
use vstd::prelude::*;

verus! {

/// An HTTP request method.
#[derive(Clone, Debug)]
pub enum Method {
    /// GET
    Get,
    /// HEAD
    Head,
    /// POST
    Post,
    /// PUT
    Put,
    /// DELETE
    Delete,
    /// CONNECT
    Connect,
    /// OPTIONS
    Options,
    /// TRACE
    Trace,
    /// PATCH
    Patch,
    /// A method given by name.
    Custom(String),
}

/// Where a response leaves the request.
#[derive(Debug)]
pub enum NextHop {
    /// The response redirects to this location.
    Redirect(String),
    /// The response is the one to hand to the caller.
    Destination,
}

/// The statuses that redirect: 301, 302, 303 and 307.
pub open spec fn is_redirect_status(status_code: i32) -> bool {
    status_code == 301 || status_code == 302 || status_code == 303 || status_code == 307
}

/// Decides where a response with this status and `location` header leads:
/// a redirect status leads to its location, and is refused with
/// `RedirectLocationMissing` when there is none; any other status ends the
/// request here.
pub fn get_redirect(status_code: i32, location: Option<&String>) -> (r: Result<NextHop, RequestError>)
    ensures
        !is_redirect_status(status_code) ==> r matches Ok(NextHop::Destination),
        is_redirect_status(status_code) ==> match location {
            Some(l) => r matches Ok(NextHop::Redirect(to)) && to@ == l@,
            None => r matches Err(e) && e is RedirectLocationMissing,
        },
{
    if status_code == 301 || status_code == 302 || status_code == 303 || status_code == 307 {
        match location {
            Some(l) => Ok(NextHop::Redirect(l.clone())),
            None => Err(RequestError::RedirectLocationMissing),
        }
    } else {
        Ok(NextHop::Destination)
    }
}

/// The method to use after a redirect: a 303 (See Other) turns POST, PUT
/// and DELETE into GET; everything else keeps the method.
pub open spec fn method_after(status_code: i32, method: Method) -> Method {
    if status_code == 303 && (method is Post || method is Put || method is Delete) {
        Method::Get
    } else {
        method
    }
}

/// The method to use for the request that follows a redirect.
pub fn redirected_method(status_code: i32, method: Method) -> (r: Method)
    ensures
        r == method_after(status_code, method),
{
    if status_code == 303 {
        match method {
            Method::Post | Method::Put | Method::Delete => Method::Get,
            _ => method,
        }
    } else {
        method
    }
}

/// A redirect changes the method only for 303, and then only to GET; GET,
/// HEAD and the other methods are never changed.
pub proof fn lemma_redirect_method(status_code: i32, method: Method)
    ensures
        method_after(status_code, method) != method ==> status_code == 303
            && method_after(status_code, method) is Get,
        !(method is Post || method is Put || method is Delete) ==> method_after(status_code, method)
            == method,
{
}


/// The statuses that redirect are exactly 301, 302, 303 and 307; every
/// other one, 200, 304 and 308 among them, ends the request where it is.
pub proof fn lemma_redirect_statuses(status_code: i32)
    ensures
        is_redirect_status(301),
        is_redirect_status(302),
        is_redirect_status(303),
        is_redirect_status(307),
        is_redirect_status(status_code) ==> 301 <= status_code <= 307 && status_code != 304
            && status_code != 305 && status_code != 306,
{
}

/// A 303 (See Other) turns POST, PUT and DELETE into GET, and keeps every
/// other method; any other status keeps every method.
pub proof fn lemma_see_other_method(status_code: i32, method: Method)
    ensures
        (method is Post || method is Put || method is Delete) ==> method_after(303, method) is Get,
        !(method is Post || method is Put || method is Delete) ==> method_after(303, method) == method,
        status_code != 303 ==> method_after(status_code, method) == method,
{
}

} // verus!
