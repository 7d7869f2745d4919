//! The rules that a request has to meet before it touches the store.

use crate::model::{Error, ErrorView, SaloonPayload, SaloonPayloadView, ServicePayload, ServicePayloadView};
use vstd::prelude::*;

verus! {

/// Whether `c` has the Unicode property White_Space.
pub open spec fn is_whitespace(c: char) -> bool {
    let n = c as u32;
    ||| 0x09 <= n <= 0x0D
    ||| n == 0x20
    ||| n == 0x85
    ||| n == 0xA0
    ||| n == 0x1680
    ||| 0x2000 <= n <= 0x200A
    ||| n == 0x2028
    ||| n == 0x2029
    ||| n == 0x202F
    ||| n == 0x205F
    ||| n == 0x3000
}

/// `text` without its leading whitespace.
pub open spec fn trim_start(text: Seq<char>) -> Seq<char>
    decreases text.len(),
{
    if text.len() > 0 && is_whitespace(text[0]) {
        trim_start(text.subrange(1, text.len() as int))
    } else {
        text
    }
}

/// `text` without its trailing whitespace.
pub open spec fn trim_end(text: Seq<char>) -> Seq<char>
    decreases text.len(),
{
    if text.len() > 0 && is_whitespace(text[text.len() - 1]) {
        trim_end(text.subrange(0, text.len() - 1))
    } else {
        text
    }
}

/// `text` without its leading and trailing whitespace.
pub open spec fn trimmed(text: Seq<char>) -> Seq<char> {
    trim_end(trim_start(text))
}

/// A text is blank when it is empty or holds whitespace only.
pub open spec fn is_blank(text: Seq<char>) -> bool {
    forall|i: int| 0 <= i < text.len() ==> is_whitespace(#[trigger] text[i])
}

/// `str::trim`: the slice without leading and trailing whitespace, where
/// whitespace is what the Unicode property White_Space says.
#[verifier::external_body]
fn trim<'a>(text: &'a str) -> (rest: &'a str)
    ensures
        rest@ == trimmed(text@),
{
    text.trim()
}

proof fn lemma_trim_start(text: Seq<char>)
    ensures
        is_blank(text) <==> trim_start(text).len() == 0,
        trim_start(text).len() > 0 ==> !is_whitespace(trim_start(text)[0]),
    decreases text.len(),
{
    if text.len() > 0 && is_whitespace(text[0]) {
        let rest = text.subrange(1, text.len() as int);
        lemma_trim_start(rest);
        if is_blank(text) {
            assert forall|i: int| 0 <= i < rest.len() implies is_whitespace(#[trigger] rest[i]) by {
                assert(rest[i] == text[i + 1]);
            }
        }
        if is_blank(rest) {
            assert forall|i: int| 0 <= i < text.len() implies is_whitespace(#[trigger] text[i]) by {
                if i > 0 {
                    assert(text[i] == rest[i - 1]);
                }
            }
        }
    } else if text.len() > 0 {
        assert(!is_whitespace(text[0]));
    }
}

proof fn lemma_trim_end(text: Seq<char>)
    ensures
        text.len() == 0 ==> trim_end(text).len() == 0,
        text.len() > 0 && !is_whitespace(text[0]) ==> trim_end(text).len() > 0,
    decreases text.len(),
{
    if text.len() > 0 && is_whitespace(text[text.len() - 1]) {
        let rest = text.subrange(0, text.len() - 1);
        lemma_trim_end(rest);
        if text.len() > 1 {
            assert(rest[0] == text[0]);
        }
    }
}

/// A text trims to nothing exactly when it is blank.
pub proof fn lemma_trimmed_empty_iff_blank(text: Seq<char>)
    ensures
        trimmed(text).len() == 0 <==> is_blank(text),
{
    lemma_trim_start(text);
    lemma_trim_end(trim_start(text));
}

/// Whether `text` is empty or holds whitespace only.
pub fn blank(text: &str) -> (answer: bool)
    ensures
        answer == is_blank(text@),
{
    let rest = trim(text);
    proof {
        lemma_trimmed_empty_iff_blank(text@);
    }
    rest.is_empty()
}

/// The complaint about a saloon request: that of the first of name, location
/// and URL that is blank, or none where all three hold something.
pub open spec fn saloon_payload_fault(payload: SaloonPayloadView) -> Option<Seq<char>> {
    if is_blank(payload.name) {
        Some("Saloon name cannot be empty"@)
    } else if is_blank(payload.location) {
        Some("Saloon location cannot be empty"@)
    } else if is_blank(payload.saloon_url) {
        Some("Saloon URL cannot be empty"@)
    } else {
        None
    }
}

/// The complaint about a service request: that of the first of name and
/// description that is blank, or none.
pub open spec fn service_payload_fault(payload: ServicePayloadView) -> Option<Seq<char>> {
    if is_blank(payload.service_name) {
        Some("Service name cannot be empty"@)
    } else if is_blank(payload.service_description) {
        Some("Service description cannot be empty"@)
    } else {
        None
    }
}

/// What a check of a request answers, given the complaint about it.
pub open spec fn fault_outcome(fault: Option<Seq<char>>, outcome: Result<(), Error>) -> bool {
    match fault {
        None => outcome is Ok,
        Some(msg) => outcome matches Err(error) && error@ == (ErrorView::BadRequest { msg }),
    }
}

fn bad_request(text: &str) -> (outcome: Result<(), Error>)
    ensures
        outcome matches Err(error) && error@ == (ErrorView::BadRequest { msg: text@ }),
{
    Err(Error::BadRequest { msg: text.to_owned() })
}

/// Accepts a saloon request whose name, location and URL all hold something
/// other than whitespace; otherwise answers `BadRequest` and names the first
/// field that does not.
pub fn validate_saloon_payload(payload: &SaloonPayload) -> (outcome: Result<(), Error>)
    ensures
        fault_outcome(saloon_payload_fault(payload@), outcome),
{
    if blank(payload.name.as_str()) {
        return bad_request("Saloon name cannot be empty");
    }
    if blank(payload.location.as_str()) {
        return bad_request("Saloon location cannot be empty");
    }
    if blank(payload.saloon_url.as_str()) {
        return bad_request("Saloon URL cannot be empty");
    }
    Ok(())
}

/// Accepts a service request whose name and description both hold something
/// other than whitespace; otherwise answers `BadRequest` and names the first
/// field that does not.
pub fn validate_service_payload(payload: &ServicePayload) -> (outcome: Result<(), Error>)
    ensures
        fault_outcome(service_payload_fault(payload@), outcome),
{
    if blank(payload.service_name.as_str()) {
        return bad_request("Service name cannot be empty");
    }
    if blank(payload.service_description.as_str()) {
        return bad_request("Service description cannot be empty");
    }
    Ok(())
}

} // verus!
