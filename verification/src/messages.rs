//! The texts that errors carry, and the errors themselves.

use crate::model::{Error, ErrorView};
use vstd::prelude::*;
use vstd::string::StringExecFns;

verus! {

/// The character of one decimal digit.
pub open spec fn digit(d: nat) -> char {
    if d == 0 {
        '0'
    } else if d == 1 {
        '1'
    } else if d == 2 {
        '2'
    } else if d == 3 {
        '3'
    } else if d == 4 {
        '4'
    } else if d == 5 {
        '5'
    } else if d == 6 {
        '6'
    } else if d == 7 {
        '7'
    } else if d == 8 {
        '8'
    } else {
        '9'
    }
}

/// A number written in decimal digits, without leading zeros.
pub open spec fn decimal(n: nat) -> Seq<char>
    decreases n,
{
    if n < 10 {
        seq![digit(n)]
    } else {
        decimal(n / 10).push(digit(n % 10))
    }
}

/// What a lookup says of an identifier that finds nothing.
pub open spec fn not_found_text(id: u64) -> Seq<char> {
    "A saloon with id="@ + decimal(id as nat) + " not found"@
}

/// What a change says of an identifier that finds nothing.
pub open spec fn missing_text(id: u64) -> Seq<char> {
    "Couldn't find a saloon with id="@ + decimal(id as nat)
}

/// What a deletion says of an identifier that finds nothing.
pub open spec fn cannot_delete_text(id: u64) -> Seq<char> {
    "Couldn't delete a saloon with id="@ + decimal(id as nat) + ". Saloon not found."@
}

/// What a caller is told who does not own the saloon.
pub open spec fn not_owner_text() -> Seq<char> {
    "You are not the owner"@
}

/// What the removal of a service says where the saloon has none of that name.
pub open spec fn service_missing_text(service_name: Seq<char>, id: u64) -> Seq<char> {
    "Service with name "@ + service_name + " not found in saloon id="@ + decimal(id as nat)
}

/// `u64::to_string`: the number in decimal digits.
#[verifier::external_body]
fn decimal_text(n: u64) -> (text: String)
    ensures
        text@ == decimal(n as nat),
{
    n.to_string()
}

/// The error of a lookup that finds nothing.
pub fn not_found(id: u64) -> (error: Error)
    ensures
        error@ == (ErrorView::NotFound { msg: not_found_text(id) }),
{
    let mut msg = "A saloon with id=".to_owned();
    msg.append(decimal_text(id).as_str());
    msg.append(" not found");
    Error::NotFound { msg }
}

/// The error of a change to a saloon that is not there.
pub fn missing(id: u64) -> (error: Error)
    ensures
        error@ == (ErrorView::NotFound { msg: missing_text(id) }),
{
    let mut msg = "Couldn't find a saloon with id=".to_owned();
    msg.append(decimal_text(id).as_str());
    Error::NotFound { msg }
}

/// The error of a deletion of a saloon that is not there.
pub fn cannot_delete(id: u64) -> (error: Error)
    ensures
        error@ == (ErrorView::NotFound { msg: cannot_delete_text(id) }),
{
    let mut msg = "Couldn't delete a saloon with id=".to_owned();
    msg.append(decimal_text(id).as_str());
    msg.append(". Saloon not found.");
    Error::NotFound { msg }
}

/// The error for a caller who does not own the saloon.
pub fn not_owner() -> (error: Error)
    ensures
        error@ == (ErrorView::NotAuthorized { msg: not_owner_text() }),
{
    Error::NotAuthorized { msg: "You are not the owner".to_owned() }
}

/// The error of the removal of a service that the saloon does not have.
pub fn service_missing(service_name: &str, id: u64) -> (error: Error)
    ensures
        error@ == (ErrorView::NotFound { msg: service_missing_text(service_name@, id) }),
{
    let mut msg = "Service with name ".to_owned();
    msg.append(service_name);
    msg.append(" not found in saloon id=");
    msg.append(decimal_text(id).as_str());
    Error::NotFound { msg }
}

} // verus!
