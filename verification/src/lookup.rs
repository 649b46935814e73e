//! The decision behind the postal-code lookup: what a decoded service
//! response yields. The network call itself lives outside the library;
//! this function is verified for every decoded response.

use vstd::prelude::*;
use vstd::string::StringExecFns;

verus! {

/// One result record of the postal-code service: prefecture, city and
/// town parts of an address.
pub struct ZipResult {
    pub address1: String,
    pub address2: String,
    pub address3: String,
}

/// Mathematical image of a [`ZipResult`].
pub struct ZipResultView {
    pub address1: Seq<char>,
    pub address2: Seq<char>,
    pub address3: Seq<char>,
}

impl DeepView for ZipResult {
    type V = ZipResultView;

    open spec fn deep_view(&self) -> ZipResultView {
        ZipResultView {
            address1: self.address1@,
            address2: self.address2@,
            address3: self.address3@,
        }
    }
}

/// The address a decoded lookup response yields: a non-success status
/// yields the service's message, or a fixed text when it carries none; a
/// success with at least one result joins that result's three address
/// parts; a success without results is a distinct error.
pub fn address_from_response(
    status: i32,
    message: Option<String>,
    results: Option<Vec<ZipResult>>,
) -> (r: Result<String, String>)
    ensures
        status != 200 ==> ({
            &&& r is Err
            &&& match message {
                Some(m) => r->Err_0@ == m@,
                None => r->Err_0@ == "Unknown API error"@,
            }
        }),
        status == 200 && (match results {
            Some(v) => v@.len() > 0,
            None => false,
        }) ==> ({
            let v = results->Some_0;
            &&& r is Ok
            &&& r->Ok_0@ == v@[0].address1@ + v@[0].address2@ + v@[0].address3@
        }),
        status == 200 && (match results {
            Some(v) => v@.len() == 0,
            None => true,
        }) ==> ({
            &&& r is Err
            &&& r->Err_0@ == "No address found"@
        }),
{
    if status != 200 {
        return Err(
            match message {
                Some(m) => m,
                None => String::from_str("Unknown API error"),
            },
        );
    }
    match results {
        Some(v) => {
            if v.len() > 0 {
                let first = &v[0];
                let mut s = first.address1.clone();
                s.append(first.address2.as_str());
                s.append(first.address3.as_str());
                Ok(s)
            } else {
                Err(String::from_str("No address found"))
            }
        },
        None => Err(String::from_str("No address found")),
    }
}

} // verus!
