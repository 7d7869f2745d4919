//! The byte layout of a stored saloon record.
//!
//! A record is the fields of a saloon in their declared order. A number is
//! eight little-endian bytes; an optional number is a marker byte and eight
//! bytes; a text is its UTF-8 length in four bytes and then its UTF-8 bytes;
//! the services are their count in four bytes and then each service.

use crate::model::{Saloon, SaloonService, SaloonView, ServiceView, service_views};
use crate::stable::MAX_RECORD_BYTES;
use vstd::bytes::{
    lemma_auto_spec_u32_to_from_le_bytes, lemma_auto_spec_u64_to_from_le_bytes,
    spec_u32_from_le_bytes, spec_u32_to_le_bytes, spec_u64_from_le_bytes, spec_u64_to_le_bytes,
    u32_from_le_bytes, u32_to_le_bytes, u64_from_le_bytes, u64_to_le_bytes,
};
use vstd::prelude::*;
use vstd::slice::{slice_subrange, slice_to_vec};
use vstd::utf8::{decode_utf8, encode_utf8, encode_utf8_decode_utf8, encode_utf8_valid_utf8, valid_utf8};

verus! {

/// A number: eight bytes, the least significant first.
pub open spec fn number_bytes(n: u64) -> Seq<u8> {
    spec_u64_to_le_bytes(n)
}

/// A length or a count: four bytes, the least significant first.
pub open spec fn count_bytes(n: nat) -> Seq<u8> {
    spec_u32_to_le_bytes(n as u32)
}

/// An optional time: a marker byte, 1 where there is a time and 0 where
/// there is none, and then the time or zero as a number.
pub open spec fn stamp_bytes(stamp: Option<u64>) -> Seq<u8> {
    match stamp {
        None => seq![0u8] + number_bytes(0),
        Some(t) => seq![1u8] + number_bytes(t),
    }
}

/// A text: the length of its UTF-8 form, and that form.
pub open spec fn text_bytes(text: Seq<char>) -> Seq<u8> {
    count_bytes(encode_utf8(text).len()) + encode_utf8(text)
}

/// A service: its fields in their declared order.
pub open spec fn service_bytes(service: ServiceView) -> Seq<u8> {
    text_bytes(service.service_name) + text_bytes(service.service_description) + number_bytes(
        service.created_at,
    ) + stamp_bytes(service.updated_at)
}

/// Services, one after the other.
pub open spec fn services_bytes(services: Seq<ServiceView>) -> Seq<u8>
    decreases services.len(),
{
    if services.len() == 0 {
        Seq::empty()
    } else {
        service_bytes(services[0]) + services_bytes(services.subrange(1, services.len() as int))
    }
}

/// The bytes that stand for a saloon in the store.
pub open spec fn saloon_bytes(saloon: SaloonView) -> Seq<u8> {
    number_bytes(saloon.id) + text_bytes(saloon.owner) + text_bytes(saloon.name) + text_bytes(
        saloon.location,
    ) + text_bytes(saloon.saloon_url) + count_bytes(saloon.saloonservices.len())
        + services_bytes(saloon.saloonservices) + number_bytes(saloon.created_at) + stamp_bytes(
        saloon.updated_at,
    )
}

/// A saloon fits the store when its record is no longer than the store's
/// bound on one value.
pub open spec fn fits(saloon: SaloonView) -> bool {
    saloon_bytes(saloon).len() <= MAX_RECORD_BYTES
}

/// The number at `pos`, and the place after it.
pub open spec fn read_number(bytes: Seq<u8>, pos: int) -> Option<(u64, int)> {
    if 0 <= pos && pos + 8 <= bytes.len() {
        Some((spec_u64_from_le_bytes(bytes.subrange(pos, pos + 8)), pos + 8))
    } else {
        None
    }
}

/// The length or count at `pos`, and the place after it.
pub open spec fn read_count(bytes: Seq<u8>, pos: int) -> Option<(nat, int)> {
    if 0 <= pos && pos + 4 <= bytes.len() {
        Some((spec_u32_from_le_bytes(bytes.subrange(pos, pos + 4)) as nat, pos + 4))
    } else {
        None
    }
}

/// The optional time at `pos`, and the place after it. A marker other than
/// 0 and 1 is no marker.
pub open spec fn read_stamp(bytes: Seq<u8>, pos: int) -> Option<(Option<u64>, int)> {
    if 0 <= pos && pos + 9 <= bytes.len() && bytes[pos] <= 1 {
        let t = spec_u64_from_le_bytes(bytes.subrange(pos + 1, pos + 9));
        Some((if bytes[pos] == 1 { Some(t) } else { None }, pos + 9))
    } else {
        None
    }
}

/// The text at `pos`, and the place after it. Bytes that are not UTF-8 are
/// no text.
pub open spec fn read_text(bytes: Seq<u8>, pos: int) -> Option<(Seq<char>, int)> {
    match read_count(bytes, pos) {
        None => None,
        Some((n, start)) => {
            if start + n <= bytes.len() && valid_utf8(bytes.subrange(start, start + n)) {
                Some((decode_utf8(bytes.subrange(start, start + n)), start + n))
            } else {
                None
            }
        },
    }
}

/// The service at `pos`, and the place after it.
pub open spec fn read_service(bytes: Seq<u8>, pos: int) -> Option<(ServiceView, int)> {
    match read_text(bytes, pos) {
        None => None,
        Some((service_name, second)) => match read_text(bytes, second) {
            None => None,
            Some((service_description, third)) => match read_number(bytes, third) {
                None => None,
                Some((created_at, fourth)) => match read_stamp(bytes, fourth) {
                    None => None,
                    Some((updated_at, fifth)) => Some(
                        (
                            ServiceView { service_name, service_description, created_at, updated_at },
                            fifth,
                        ),
                    ),
                },
            },
        },
    }
}

/// Reads `remaining` services from `pos` on and appends them to `read`.
pub open spec fn read_services(bytes: Seq<u8>, pos: int, remaining: nat, read: Seq<ServiceView>) -> Option<
    (Seq<ServiceView>, int),
>
    decreases remaining,
{
    if remaining == 0 {
        Some((read, pos))
    } else {
        match read_service(bytes, pos) {
            None => None,
            Some((service, next)) => read_services(bytes, next, (remaining - 1) as nat, read.push(service)),
        }
    }
}

/// The fields of a saloon that stand before its services, the number of the
/// services, and the place where they start.
pub open spec fn read_head(bytes: Seq<u8>) -> Option<(SaloonView, nat, int)> {
    match read_number(bytes, 0) {
        None => None,
        Some((id, second)) => match read_text(bytes, second) {
            None => None,
            Some((owner, third)) => match read_text(bytes, third) {
                None => None,
                Some((name, fourth)) => match read_text(bytes, fourth) {
                    None => None,
                    Some((location, fifth)) => match read_text(bytes, fifth) {
                        None => None,
                        Some((saloon_url, sixth)) => match read_count(bytes, sixth) {
                            None => None,
                            Some((count, seventh)) => Some(
                                (
                                    SaloonView {
                                        owner,
                                        id,
                                        name,
                                        location,
                                        saloon_url,
                                        saloonservices: Seq::empty(),
                                        created_at: 0,
                                        updated_at: None,
                                    },
                                    count,
                                    seventh,
                                ),
                            ),
                        },
                    },
                },
            },
        },
    }
}

/// The saloon that `bytes` stand for, where they are a record and nothing
/// follows it.
pub open spec fn read_saloon(bytes: Seq<u8>) -> Option<SaloonView> {
    match read_head(bytes) {
        None => None,
        Some((head, count, seventh)) => match read_services(bytes, seventh, count, Seq::empty()) {
            None => None,
            Some((saloonservices, eighth)) => match read_number(bytes, eighth) {
                None => None,
                Some((created_at, ninth)) => match read_stamp(bytes, ninth) {
                    None => None,
                    Some((updated_at, tenth)) => if tenth == bytes.len() {
                        Some(SaloonView { saloonservices, created_at, updated_at, ..head })
                    } else {
                        None
                    },
                },
            },
        },
    }
}

/// `piece` stands in `bytes` from `pos` on.
pub open spec fn holds(bytes: Seq<u8>, pos: int, piece: Seq<u8>) -> bool {
    &&& 0 <= pos
    &&& pos + piece.len() <= bytes.len()
    &&& bytes.subrange(pos, pos + piece.len()) == piece
}

proof fn lemma_holds_parts(bytes: Seq<u8>, pos: int, first: Seq<u8>, rest: Seq<u8>)
    requires
        holds(bytes, pos, first + rest),
    ensures
        holds(bytes, pos, first),
        holds(bytes, pos + first.len(), rest),
{
    let whole = bytes.subrange(pos, pos + (first + rest).len());
    assert(bytes.subrange(pos, pos + first.len()) =~= whole.subrange(0, first.len() as int));
    assert((first + rest).subrange(0, first.len() as int) =~= first);
    assert(bytes.subrange(pos + first.len(), pos + first.len() + rest.len()) =~= whole.subrange(
        first.len() as int,
        (first + rest).len() as int,
    ));
    assert((first + rest).subrange(first.len() as int, (first + rest).len() as int) =~= rest);
}

proof fn lemma_read_number(bytes: Seq<u8>, pos: int, n: u64)
    requires
        holds(bytes, pos, number_bytes(n)),
    ensures
        number_bytes(n).len() == 8,
        read_number(bytes, pos) == Some((n, pos + 8)),
{
    lemma_auto_spec_u64_to_from_le_bytes();
}

proof fn lemma_read_count(bytes: Seq<u8>, pos: int, n: nat)
    requires
        holds(bytes, pos, count_bytes(n)),
        n <= u32::MAX,
    ensures
        count_bytes(n).len() == 4,
        read_count(bytes, pos) == Some((n, pos + 4)),
{
    lemma_auto_spec_u32_to_from_le_bytes();
}

proof fn lemma_read_stamp(bytes: Seq<u8>, pos: int, stamp: Option<u64>)
    requires
        holds(bytes, pos, stamp_bytes(stamp)),
    ensures
        stamp_bytes(stamp).len() == 9,
        read_stamp(bytes, pos) == Some((stamp, pos + 9)),
{
    lemma_auto_spec_u64_to_from_le_bytes();
    let t = match stamp {
        None => 0,
        Some(t) => t,
    };
    let mark = match stamp {
        None => seq![0u8],
        Some(_) => seq![1u8],
    };
    assert(stamp_bytes(stamp) == mark + number_bytes(t));
    lemma_holds_parts(bytes, pos, mark, number_bytes(t));
    assert(bytes[pos] == bytes.subrange(pos, pos + 1)[0]);
}

proof fn lemma_text_len(text: Seq<char>)
    ensures
        text_bytes(text).len() == 4 + encode_utf8(text).len(),
{
    lemma_auto_spec_u32_to_from_le_bytes();
}

proof fn lemma_read_text(bytes: Seq<u8>, pos: int, text: Seq<char>)
    requires
        holds(bytes, pos, text_bytes(text)),
        bytes.len() <= u32::MAX,
    ensures
        read_text(bytes, pos) == Some((text, pos + text_bytes(text).len())),
{
    let utf8 = encode_utf8(text);
    lemma_text_len(text);
    lemma_holds_parts(bytes, pos, count_bytes(utf8.len()), utf8);
    lemma_read_count(bytes, pos, utf8.len());
    encode_utf8_valid_utf8(text);
    encode_utf8_decode_utf8(text);
}

proof fn lemma_read_service(bytes: Seq<u8>, pos: int, service: ServiceView)
    requires
        holds(bytes, pos, service_bytes(service)),
        bytes.len() <= u32::MAX,
    ensures
        read_service(bytes, pos) == Some((service, pos + service_bytes(service).len())),
{
    let a = text_bytes(service.service_name);
    let b = text_bytes(service.service_description);
    let c = number_bytes(service.created_at);
    let d = stamp_bytes(service.updated_at);
    assert(service_bytes(service) =~= a + (b + (c + d)));
    lemma_holds_parts(bytes, pos, a, b + (c + d));
    lemma_holds_parts(bytes, pos + a.len(), b, c + d);
    lemma_holds_parts(bytes, pos + a.len() + b.len(), c, d);
    lemma_read_text(bytes, pos, service.service_name);
    lemma_read_text(bytes, pos + a.len(), service.service_description);
    lemma_read_number(bytes, pos + a.len() + b.len(), service.created_at);
    lemma_read_stamp(bytes, pos + a.len() + b.len() + c.len(), service.updated_at);
}

proof fn lemma_services_len(services: Seq<ServiceView>)
    ensures
        services_bytes(services).len() >= services.len(),
    decreases services.len(),
{
    if services.len() > 0 {
        lemma_services_len(services.subrange(1, services.len() as int));
        lemma_text_len(services[0].service_name);
    }
}

proof fn lemma_read_services(bytes: Seq<u8>, pos: int, services: Seq<ServiceView>, read: Seq<ServiceView>)
    requires
        holds(bytes, pos, services_bytes(services)),
        bytes.len() <= u32::MAX,
    ensures
        read_services(bytes, pos, services.len(), read) == Some(
            (read + services, pos + services_bytes(services).len()),
        ),
    decreases services.len(),
{
    if services.len() == 0 {
        assert(read + services =~= read);
    } else {
        let first = services[0];
        let rest = services.subrange(1, services.len() as int);
        lemma_holds_parts(bytes, pos, service_bytes(first), services_bytes(rest));
        lemma_read_service(bytes, pos, first);
        lemma_read_services(bytes, pos + service_bytes(first).len(), rest, read.push(first));
        assert(read.push(first) + rest =~= read + services);
    }
}

/// Reading the record of a saloon gives the saloon back.
pub proof fn lemma_read_saloon_bytes(saloon: SaloonView)
    requires
        saloon_bytes(saloon).len() <= u32::MAX,
    ensures
        read_saloon(saloon_bytes(saloon)) == Some(saloon),
{
    let bytes = saloon_bytes(saloon);
    let a = number_bytes(saloon.id);
    let b = text_bytes(saloon.owner);
    let c = text_bytes(saloon.name);
    let d = text_bytes(saloon.location);
    let e = text_bytes(saloon.saloon_url);
    let f = count_bytes(saloon.saloonservices.len());
    let g = services_bytes(saloon.saloonservices);
    let h = number_bytes(saloon.created_at);
    let i = stamp_bytes(saloon.updated_at);
    assert(bytes =~= a + (b + (c + (d + (e + (f + (g + (h + i))))))));
    assert(bytes.subrange(0, bytes.len() as int) =~= bytes);
    lemma_services_len(saloon.saloonservices);
    lemma_holds_parts(bytes, 0, a, b + (c + (d + (e + (f + (g + (h + i)))))));
    let second = a.len() as int;
    lemma_holds_parts(bytes, second, b, c + (d + (e + (f + (g + (h + i))))));
    let third = second + b.len();
    lemma_holds_parts(bytes, third, c, d + (e + (f + (g + (h + i)))));
    let fourth = third + c.len();
    lemma_holds_parts(bytes, fourth, d, e + (f + (g + (h + i))));
    let fifth = fourth + d.len();
    lemma_holds_parts(bytes, fifth, e, f + (g + (h + i)));
    let sixth = fifth + e.len();
    lemma_holds_parts(bytes, sixth, f, g + (h + i));
    let seventh = sixth + f.len();
    lemma_holds_parts(bytes, seventh, g, h + i);
    let eighth = seventh + g.len();
    lemma_holds_parts(bytes, eighth, h, i);
    let ninth = eighth + h.len();
    lemma_read_number(bytes, 0, saloon.id);
    lemma_read_text(bytes, second, saloon.owner);
    lemma_read_text(bytes, third, saloon.name);
    lemma_read_text(bytes, fourth, saloon.location);
    lemma_read_text(bytes, fifth, saloon.saloon_url);
    lemma_read_count(bytes, sixth, saloon.saloonservices.len());
    lemma_read_services(bytes, seventh, saloon.saloonservices, Seq::empty());
    assert(Seq::<ServiceView>::empty() + saloon.saloonservices =~= saloon.saloonservices);
    lemma_read_number(bytes, eighth, saloon.created_at);
    lemma_read_stamp(bytes, ninth, saloon.updated_at);
}


/// A saloon that fits still fits with services that take no more room, and
/// whatever its time of change.
pub proof fn lemma_fits_with_smaller_services(
    saloon: SaloonView,
    services: Seq<ServiceView>,
    stamp: Option<u64>,
)
    requires
        fits(saloon),
        services_bytes(services).len() <= services_bytes(saloon.saloonservices).len(),
    ensures
        fits(SaloonView { saloonservices: services, updated_at: stamp, ..saloon }),
{
    lemma_auto_spec_u32_to_from_le_bytes();
    lemma_auto_spec_u64_to_from_le_bytes();
}

proof fn lemma_services_hold_each(services: Seq<ServiceView>, i: int)
    requires
        0 <= i < services.len(),
    ensures
        services_bytes(services).len() >= service_bytes(services[i]).len(),
    decreases services.len(),
{
    if i > 0 {
        let rest = services.subrange(1, services.len() as int);
        lemma_services_hold_each(rest, i - 1);
    }
}

/// `String::from_utf8`: the text that `bytes` encode, where they are valid
/// UTF-8, and nothing where they are not.
#[verifier::external_body]
fn text_from_utf8(bytes: Vec<u8>) -> (text: Option<String>)
    ensures
        text is Some <==> valid_utf8(bytes@),
        text matches Some(t) ==> t@ == decode_utf8(bytes@),
{
    String::from_utf8(bytes).ok()
}

fn put_number(out: &mut Vec<u8>, n: u64)
    ensures
        final(out)@ == old(out)@ + number_bytes(n),
{
    let mut piece = u64_to_le_bytes(n);
    out.append(&mut piece);
}

fn put_count(out: &mut Vec<u8>, n: u32)
    ensures
        final(out)@ == old(out)@ + count_bytes(n as nat),
{
    let mut piece = u32_to_le_bytes(n);
    out.append(&mut piece);
}

fn put_stamp(out: &mut Vec<u8>, stamp: Option<u64>)
    ensures
        final(out)@ == old(out)@ + stamp_bytes(stamp),
{
    match stamp {
        None => {
            out.push(0u8);
            put_number(out, 0);
            assert(out@ =~= old(out)@ + (seq![0u8] + number_bytes(0)));
        },
        Some(t) => {
            out.push(1u8);
            put_number(out, t);
            assert(out@ =~= old(out)@ + (seq![1u8] + number_bytes(t)));
        },
    }
}

/// Appends a text, unless its UTF-8 form alone is longer than a record may be.
fn put_text(out: &mut Vec<u8>, text: &str) -> (done: bool)
    ensures
        done <==> encode_utf8(text@).len() <= MAX_RECORD_BYTES,
        done ==> final(out)@ == old(out)@ + text_bytes(text@),
        !done ==> final(out)@ == old(out)@,
{
    let raw = text.as_bytes();
    if raw.len() > MAX_RECORD_BYTES {
        return false;
    }
    put_count(out, raw.len() as u32);
    let mut piece = slice_to_vec(raw);
    out.append(&mut piece);
    assert(out@ =~= old(out)@ + text_bytes(text@));
    true
}

/// Appends a service, unless one of its texts alone is longer than a record
/// may be.
fn put_service(out: &mut Vec<u8>, service: &SaloonService) -> (done: bool)
    ensures
        done ==> final(out)@ == old(out)@ + service_bytes(service@),
        !done ==> service_bytes(service@).len() > MAX_RECORD_BYTES,
{
    proof {
        lemma_text_len(service.service_name@);
        lemma_text_len(service.service_description@);
    }
    if !put_text(out, service.service_name.as_str()) {
        return false;
    }
    if !put_text(out, service.service_description.as_str()) {
        return false;
    }
    put_number(out, service.created_at);
    put_stamp(out, service.updated_at);
    assert(out@ =~= old(out)@ + service_bytes(service@));
    true
}

/// The record of `saloon`, or nothing where the saloon does not fit the store.
pub fn encode_saloon(saloon: &Saloon) -> (record: Option<Vec<u8>>)
    ensures
        record is Some <==> fits(saloon@),
        record matches Some(bytes) ==> bytes@ == saloon_bytes(saloon@),
{
    let ghost view = saloon@;
    let ghost services = view.saloonservices;
    proof {
        lemma_text_len(view.owner);
        lemma_text_len(view.name);
        lemma_text_len(view.location);
        lemma_text_len(view.saloon_url);
        lemma_services_len(services);
    }
    let mut out: Vec<u8> = Vec::new();
    put_number(&mut out, saloon.id);
    if !put_text(&mut out, saloon.owner.as_str()) {
        return None;
    }
    if !put_text(&mut out, saloon.name.as_str()) {
        return None;
    }
    if !put_text(&mut out, saloon.location.as_str()) {
        return None;
    }
    if !put_text(&mut out, saloon.saloon_url.as_str()) {
        return None;
    }
    let count = saloon.saloonservices.len();
    if count > MAX_RECORD_BYTES {
        return None;
    }
    put_count(&mut out, count as u32);
    let ghost head = out@;
    assert(head =~= number_bytes(view.id) + text_bytes(view.owner) + text_bytes(view.name)
        + text_bytes(view.location) + text_bytes(view.saloon_url) + count_bytes(services.len()));
    let mut i: usize = 0;
    assert(services.subrange(0, services.len() as int) =~= services);
    while i < count
        invariant
            i <= count,
            count == saloon.saloonservices.len(),
            services == service_views(saloon.saloonservices@),
            out@ + services_bytes(services.subrange(i as int, count as int)) == head
                + services_bytes(services),
        decreases count - i,
    {
        let ghost rest = services.subrange(i as int, count as int);
        let ghost before = out@;
        assert(rest.subrange(1, rest.len() as int) =~= services.subrange(i + 1, count as int));
        assert(rest[0] == saloon.saloonservices@[i as int]@);
        if !put_service(&mut out, &saloon.saloonservices[i]) {
            proof {
                lemma_services_hold_each(services, i as int);
            }
            return None;
        }
        assert(out@ + services_bytes(services.subrange(i + 1, count as int)) =~= before
            + services_bytes(rest));
        i += 1;
    }
    assert(out@ =~= head + services_bytes(services));
    put_number(&mut out, saloon.created_at);
    put_stamp(&mut out, saloon.updated_at);
    assert(out@ =~= saloon_bytes(view));
    if out.len() > MAX_RECORD_BYTES {
        return None;
    }
    Some(out)
}

/// Whether a reader gave what the layout says is at `pos`.
pub open spec fn read_as<T, V>(
    taken: Option<(T, usize)>,
    view: spec_fn(T) -> V,
    read: Option<(V, int)>,
) -> bool {
    match taken {
        Some((value, next)) => read == Some((view(value), next as int)),
        None => read is None,
    }
}

fn take_number(bytes: &[u8], pos: usize) -> (taken: Option<(u64, usize)>)
    ensures
        read_as(taken, |n: u64| n, read_number(bytes@, pos as int)),
{
    if bytes.len() < 8 || pos > bytes.len() - 8 {
        return None;
    }
    let n = u64_from_le_bytes(slice_subrange(bytes, pos, pos + 8));
    Some((n, pos + 8))
}

fn take_count(bytes: &[u8], pos: usize) -> (taken: Option<(u32, usize)>)
    ensures
        read_as(taken, |n: u32| n as nat, read_count(bytes@, pos as int)),
{
    if bytes.len() < 4 || pos > bytes.len() - 4 {
        return None;
    }
    let n = u32_from_le_bytes(slice_subrange(bytes, pos, pos + 4));
    Some((n, pos + 4))
}

fn take_stamp(bytes: &[u8], pos: usize) -> (taken: Option<(Option<u64>, usize)>)
    ensures
        read_as(taken, |stamp: Option<u64>| stamp, read_stamp(bytes@, pos as int)),
{
    if bytes.len() < 9 || pos > bytes.len() - 9 {
        return None;
    }
    let mark = bytes[pos];
    if mark > 1 {
        return None;
    }
    let t = u64_from_le_bytes(slice_subrange(bytes, pos + 1, pos + 9));
    Some((if mark == 1 { Some(t) } else { None }, pos + 9))
}

fn take_text(bytes: &[u8], pos: usize) -> (taken: Option<(String, usize)>)
    ensures
        read_as(taken, |text: String| text@, read_text(bytes@, pos as int)),
{
    let (n, start) = match take_count(bytes, pos) {
        Some(found) => found,
        None => { return None; },
    };
    if n as usize > bytes.len() - start {
        return None;
    }
    let end = start + n as usize;
    let piece = slice_to_vec(slice_subrange(bytes, start, end));
    match text_from_utf8(piece) {
        Some(text) => Some((text, end)),
        None => None,
    }
}

fn take_service(bytes: &[u8], pos: usize) -> (taken: Option<(SaloonService, usize)>)
    ensures
        read_as(taken, |service: SaloonService| service@, read_service(bytes@, pos as int)),
{
    let (service_name, second) = match take_text(bytes, pos) {
        Some(found) => found,
        None => { return None; },
    };
    let (service_description, third) = match take_text(bytes, second) {
        Some(found) => found,
        None => { return None; },
    };
    let (created_at, fourth) = match take_number(bytes, third) {
        Some(found) => found,
        None => { return None; },
    };
    let (updated_at, fifth) = match take_stamp(bytes, fourth) {
        Some(found) => found,
        None => { return None; },
    };
    Some((SaloonService { service_name, service_description, created_at, updated_at }, fifth))
}

/// The saloon that `bytes` are the record of, or nothing where they are no
/// record.
pub fn decode_saloon(bytes: &[u8]) -> (decoded: Option<Saloon>)
    ensures
        match decoded {
            Some(saloon) => read_saloon(bytes@) == Some(saloon@),
            None => read_saloon(bytes@) is None,
        },
{
    let (id, second) = match take_number(bytes, 0) {
        Some(found) => found,
        None => { return None; },
    };
    let (owner, third) = match take_text(bytes, second) {
        Some(found) => found,
        None => { return None; },
    };
    let (name, fourth) = match take_text(bytes, third) {
        Some(found) => found,
        None => { return None; },
    };
    let (location, fifth) = match take_text(bytes, fourth) {
        Some(found) => found,
        None => { return None; },
    };
    let (saloon_url, sixth) = match take_text(bytes, fifth) {
        Some(found) => found,
        None => { return None; },
    };
    let (count, seventh) = match take_count(bytes, sixth) {
        Some(found) => found,
        None => { return None; },
    };
    let mut saloonservices: Vec<SaloonService> = Vec::new();
    let mut pos = seventh;
    let mut i: u32 = 0;
    assert(service_views(saloonservices@) =~= Seq::empty());
    while i < count
        invariant
            i <= count,
            read_head(bytes@) matches Some((_, c, p)) && c == count && p == seventh,
            read_services(bytes@, seventh as int, count as nat, Seq::empty()) == read_services(
                bytes@,
                pos as int,
                (count - i) as nat,
                service_views(saloonservices@),
            ),
        decreases count - i,
    {
        let ghost before = service_views(saloonservices@);
        let (service, next) = match take_service(bytes, pos) {
            Some(found) => found,
            None => { return None; },
        };
        saloonservices.push(service);
        assert(service_views(saloonservices@) =~= before.push(service@));
        pos = next;
        i += 1;
    }
    let (created_at, ninth) = match take_number(bytes, pos) {
        Some(found) => found,
        None => { return None; },
    };
    let (updated_at, tenth) = match take_stamp(bytes, ninth) {
        Some(found) => found,
        None => { return None; },
    };
    if tenth != bytes.len() {
        return None;
    }
    Some(Saloon { owner, id, name, location, saloon_url, saloonservices, created_at, updated_at })
}

} // verus!
