//! URL tokens: a snapshot encoded in version 3 and written as base64url.
use vstd::prelude::*;
use vstd::string::StringSliceAdditionalSpecFns;
use vstd::utf8::encode_utf8;

use super::base64::{b64_decode, b64_encode, b64_overruns, from_base64url, to_base64url};
use super::base64::lemma_base64_roundtrip;
use super::wire::{decode, lemma_decode_encode, spec_decode, spec_encode, view_result, wf_snapshot};
use super::wire_v3::{
    canon_snapshot_v3, decode_v3, encode_v3, lemma_decode_encode_v3_canon, snapshot_fits_v3,
    spec_decode_v3, spec_encode_v3,
};
use super::{BoardSnapshot, SnapshotError, SnapshotView};

verus! {

/// The snapshot a decoded token stands for: version byte 2 or 3 selects the
/// reader; any other first byte is `BadVersion`, no byte at all `TooShort`.
pub open spec fn spec_decode_any(bytes: Seq<u8>) -> Result<SnapshotView, SnapshotError> {
    if bytes.len() == 0 {
        Err(SnapshotError::TooShort)
    } else if bytes[0] == 2 {
        spec_decode(bytes)
    } else if bytes[0] == 3 {
        spec_decode_v3(bytes)
    } else {
        Err(SnapshotError::BadVersion(bytes[0]))
    }
}

/// How `from_url_token` reads the bytes of a token's text.
pub open spec fn spec_from_token(text: Seq<u8>) -> Result<SnapshotView, SnapshotError> {
    match b64_decode(text) {
        Err(e) => Err(e),
        Ok(bytes) => spec_decode_any(bytes),
    }
}

/// Encode a snapshot as a URL-safe token (version 3, base64url).
pub fn to_url_token(snap: &BoardSnapshot) -> (r: String)
    ensures
        r@ == b64_encode(spec_encode_v3(snap@)),
{
    let bytes = encode_v3(snap);
    to_base64url(bytes.as_slice())
}

/// Decode a URL token, accepting version-2 and version-3 encodings.
pub fn from_url_token(token: &str) -> (r: Result<BoardSnapshot, SnapshotError>)
    requires
        !b64_overruns(token.spec_bytes()),
    ensures
        view_result(r) == spec_from_token(token.spec_bytes()),
{
    let bytes = from_base64url(token)?;
    if bytes.len() == 0 {
        return Err(SnapshotError::TooShort);
    }
    let v = bytes[0];
    if v == 2 {
        decode(bytes.as_slice())
    } else if v == 3 {
        decode_v3(bytes.as_slice())
    } else {
        Err(SnapshotError::BadVersion(v))
    }
}

/// A version-2 encoding written as base64url is a token that
/// `from_url_token` accepts and reads back as the snapshot, for every
/// snapshot the version-2 format carries.
pub proof fn lemma_v2_token_roundtrip(s: SnapshotView)
    requires
        wf_snapshot(s),
    ensures
        !b64_overruns(encode_utf8(b64_encode(spec_encode(s)))),
        spec_from_token(encode_utf8(b64_encode(spec_encode(s)))) == Ok::<
            SnapshotView,
            SnapshotError,
        >(s),
{
    lemma_base64_roundtrip(spec_encode(s));
    lemma_decode_encode(s);
    assert(spec_encode(s)[0] == 2);
}

/// A token written by `to_url_token` is accepted by `from_url_token` and
/// reads back as the snapshot, with its card zones in the order the
/// version-3 reader produces (the pile by slot, then the other cards grouped
/// by id and `known`), for every snapshot the format can carry.
pub proof fn lemma_url_token_roundtrip(s: SnapshotView)
    requires
        snapshot_fits_v3(s),
    ensures
        !b64_overruns(encode_utf8(b64_encode(spec_encode_v3(s)))),
        spec_from_token(encode_utf8(b64_encode(spec_encode_v3(s)))) == Ok::<
            SnapshotView,
            SnapshotError,
        >(canon_snapshot_v3(s)),
{
    lemma_base64_roundtrip(spec_encode_v3(s));
    lemma_decode_encode_v3_canon(s);
    assert(spec_encode_v3(s)[0] == 3);
}

} // verus!
