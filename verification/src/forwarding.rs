//! The header by which a forwarded request names the client it came from.
//!
//! Every request that the proxy forwards carries the client's address in
//! its `x-forwarded-for` header.  A value that the request already has is
//! kept, for it may come from a proxy further out: the address is added
//! behind it.

use vstd::prelude::*;
use vstd::string::StringSliceAdditionalSpecFns;

verus! {

/// The name of the header that lists the clients a request passed through.
pub const FORWARDED_FOR: &'static str = "x-forwarded-for";

/// The bytes that part two entries of a header value: a comma and a space.
pub open spec fn separator() -> Seq<u8> {
    seq![44u8, 32u8]
}

/// The value of a header after `addition` joined it: alone where the
/// header was absent, else behind the value at hand and a separator.
pub open spec fn extended(existing: Option<Seq<u8>>, addition: Seq<u8>) -> Seq<u8> {
    match existing {
        Some(value) => value + separator() + addition,
        None => addition,
    }
}

fn append_bytes(out: &mut Vec<u8>, bytes: &[u8])
    ensures
        final(out)@ == old(out)@ + bytes@,
{
    let mut i: usize = 0;
    while i < bytes.len()
        invariant
            i <= bytes@.len(),
            out@ == old(out)@ + bytes@.take(i as int),
        decreases bytes@.len() - i,
    {
        out.push(bytes[i]);
        assert(bytes@.take(i + 1) =~= bytes@.take(i as int).push(bytes@[i as int]));
        i += 1;
    }
    assert(bytes@.take(i as int) =~= bytes@);
}

/// The value that a header takes when `addition` is appended to it.
pub fn extend_header_value(existing: Option<&[u8]>, addition: &[u8]) -> (value: Vec<u8>)
    ensures
        value@ == extended(
            match existing {
                Some(bytes) => Some(bytes@),
                None => None,
            },
            addition@,
        ),
{
    let mut value: Vec<u8> = Vec::new();
    match existing {
        Some(bytes) => {
            append_bytes(&mut value, bytes);
            value.push(44u8);
            value.push(32u8);
            assert(value@ =~= bytes@ + separator());
        },
        None => {},
    }
    append_bytes(&mut value, addition);
    value
}

/// The `x-forwarded-for` value of a request from `client_ip` that arrived
/// with the value `existing`.
pub fn forwarded_for(existing: Option<&[u8]>, client_ip: &str) -> (value: Vec<u8>)
    ensures
        value@ == extended(
            match existing {
                Some(bytes) => Some(bytes@),
                None => None,
            },
            client_ip.spec_bytes(),
        ),
{
    extend_header_value(existing, client_ip.as_bytes())
}

/// Extending a header discards nothing: the value at hand is the
/// beginning of the new one, and the addition is its end.  A request that
/// passes two proxies lists both clients, the nearer one last.
pub proof fn lemma_extension_keeps_prior(prior: Seq<u8>, first: Seq<u8>, second: Seq<u8>)
    ensures
        prior.is_prefix_of(extended(Some(prior), first)),
        first.is_suffix_of(extended(Some(prior), first)),
        first.is_suffix_of(extended(None, first)),
        extended(Some(extended(Some(prior), first)), second) == prior + separator() + first
            + separator() + second,
{
    let once = extended(Some(prior), first);
    assert(once.subrange(0, prior.len() as int) =~= prior);
    assert(once.subrange(once.len() - first.len(), once.len() as int) =~= first);
    assert(first.subrange(0, first.len() as int) =~= first);
}

} // verus!
