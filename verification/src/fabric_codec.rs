//! Canonical identities of the gameplay fabric: payload hashes, schema hashes,
//! codec ids and the length-framed stable identities they are built from.

use vstd::prelude::*;
use vstd::string::StringSliceAdditionalSpecFns;
use crate::fnv::{fnv_bytes, fnv_offset, feed_u64, feed_bytes, feed_str, le_bytes, lemma_fnv_concat, FNV_OFFSET};
use crate::text::{fnv_label, fnv_label_text, hex_char, hex_digits, hex16, lemma_hex_digits_len};
use crate::ids::{digest_len, is_hash_bytes, is_lower_hex_byte, next_sep};
use crate::utf8_text::{ascii_bytes, is_ascii_text, lemma_encode_ascii, lemma_next_sep_at};
use vstd::utf8::encode_utf8;

verus! {

/// The bytes fed for one identity part: its byte length as a little-endian
/// `u64`, then its bytes.
pub open spec fn framed(part: Seq<u8>) -> Seq<u8> {
    le_bytes(part.len(), 8) + part
}

/// The framed bytes of every part, in order.
pub open spec fn framed_all(parts: Seq<Seq<u8>>) -> Seq<u8>
    decreases parts.len(),
{
    if parts.len() == 0 {
        Seq::empty()
    } else {
        framed_all(parts.drop_last()) + framed(parts.last())
    }
}

/// The FNV-1a hash of a framed part list.
pub open spec fn identity_hash(parts: Seq<Seq<u8>>) -> u64 {
    fnv_bytes(FNV_OFFSET, framed_all(parts))
}

/// The text of a stable identity over byte parts.
pub open spec fn identity_text(parts: Seq<Seq<u8>>) -> Seq<char> {
    fnv_label_text(identity_hash(parts))
}

/// The byte views of a list of byte slices.
pub open spec fn byte_parts(parts: Seq<&[u8]>) -> Seq<Seq<u8>> {
    parts.map_values(|p: &[u8]| p@)
}

/// The UTF-8 bytes of a list of string slices.
pub open spec fn str_parts(parts: Seq<&str>) -> Seq<Seq<u8>> {
    parts.map_values(|p: &str| p.spec_bytes())
}

/// Feed one framed part.
fn feed_framed(h: &mut u64, part: &[u8])
    ensures
        *final(h) == fnv_bytes(*old(h), framed(part@)),
{
    let ghost h0 = *h;
    feed_u64(h, part.len() as u64);
    let ghost mid = *h;
    feed_bytes(h, part);
    proof {
        lemma_fnv_concat(h0, le_bytes(part@.len(), 8), part@);
    }
}

/// The stable identity of an ordered list of byte strings: FNV-1a over each
/// part's little-endian `u64` length followed by its bytes, rendered as
/// `fnv1a64:` and sixteen lower-case hexadecimal digits.
pub fn stable_bytes_identity(parts: &[&[u8]]) -> (s: String)
    ensures
        s@ == identity_text(byte_parts(parts@)),
        is_hash_bytes(encode_utf8(s@)),
{
    proof {
        law_fnv_label_is_hash(identity_hash(byte_parts(parts@)));
    }
    let mut h = fnv_offset();
    let mut i: usize = 0;
    while i < parts.len()
        invariant
            i <= parts@.len(),
            h == fnv_bytes(FNV_OFFSET, framed_all(byte_parts(parts@).take(i as int))),
        decreases parts@.len() - i,
    {
        let ghost before = h;
        feed_framed(&mut h, parts[i]);
        proof {
            let ps = byte_parts(parts@);
            assert(ps.take(i + 1).drop_last() =~= ps.take(i as int));
            assert(ps.take(i + 1).last() == parts@[i as int]@);
            lemma_fnv_concat(FNV_OFFSET, framed_all(ps.take(i as int)), framed(parts@[i as int]@));
        }
        i = i + 1;
    }
    assert(byte_parts(parts@).take(i as int) =~= byte_parts(parts@));
    fnv_label(h)
}

/// The stable identity of an ordered list of strings, over their UTF-8 bytes.
pub fn stable_identity(parts: &[&str]) -> (s: String)
    ensures
        s@ == identity_text(str_parts(parts@)),
        is_hash_bytes(encode_utf8(s@)),
{
    proof {
        law_fnv_label_is_hash(identity_hash(str_parts(parts@)));
    }
    let mut h = fnv_offset();
    let mut i: usize = 0;
    while i < parts.len()
        invariant
            i <= parts@.len(),
            h == fnv_bytes(FNV_OFFSET, framed_all(str_parts(parts@).take(i as int))),
        decreases parts@.len() - i,
    {
        feed_framed(&mut h, parts[i].as_bytes());
        proof {
            let ps = str_parts(parts@);
            assert(ps.take(i + 1).drop_last() =~= ps.take(i as int));
            assert(ps.take(i + 1).last() == parts@[i as int].spec_bytes());
            lemma_fnv_concat(
                FNV_OFFSET,
                framed_all(ps.take(i as int)),
                framed(parts@[i as int].spec_bytes()),
            );
        }
        i = i + 1;
    }
    assert(str_parts(parts@).take(i as int) =~= str_parts(parts@));
    fnv_label(h)
}

/// Canonical payload hash: the stable identity of the single part `payload`.
pub fn gameplay_canonical_payload_hash(payload: &[u8]) -> (s: String)
    ensures
        s@ == identity_text(seq![payload@]),
        is_hash_bytes(encode_utf8(s@)),
{
    proof {
        law_fnv_label_is_hash(identity_hash(seq![payload@]));
    }
    let mut h = fnv_offset();
    feed_framed(&mut h, payload);
    proof {
        assert(seq![payload@].drop_last() =~= Seq::<Seq<u8>>::empty());
        assert(framed_all(Seq::<Seq<u8>>::empty()) =~= Seq::<u8>::empty());
        assert(framed_all(seq![payload@]) == framed_all(Seq::<Seq<u8>>::empty()) + framed(payload@));
        assert(framed_all(seq![payload@]) =~= framed(payload@));
    }
    fnv_label(h)
}

/// A lower-case hexadecimal digit.
pub open spec fn is_hex_digit_char(c: char) -> bool {
    ('0' <= c && c <= '9') || ('a' <= c && c <= 'f')
}

proof fn lemma_hex_digits_chars(x: nat, n: nat)
    ensures
        forall|k: int| 0 <= k < hex_digits(x, n).len() ==> is_hex_digit_char(#[trigger] hex_digits(x, n)[k]),
    decreases n,
{
    if n > 0 {
        lemma_hex_digits_chars(x / 16, (n - 1) as nat);
        let d = x % 16;
        assert(is_hex_digit_char(hex_char(d)));
        let prev = hex_digits(x / 16, (n - 1) as nat);
        assert forall|k: int| 0 <= k < hex_digits(x, n).len() implies is_hex_digit_char(#[trigger] hex_digits(x, n)[k]) by {
            if k < prev.len() {
                assert(hex_digits(x, n)[k] == prev[k]);
            }
        }
    }
}

/// Every `fnv1a64:` label is a well-formed hash: a known algorithm, a colon
/// and sixteen lower-case hexadecimal digits.
pub proof fn law_fnv_label_is_hash(h: u64)
    ensures
        is_hash_bytes(encode_utf8(fnv_label_text(h))),
{
    let t = fnv_label_text(h);
    let hex = hex16(h);
    lemma_hex_digits_len(h as nat, 16);
    lemma_hex_digits_chars(h as nat, 16);
    let prefix = seq!['f', 'n', 'v', '1', 'a', '6', '4', ':'];
    assert(t == prefix + hex);
    assert(t.len() == 24);
    assert forall|i: int| 0 <= i < t.len() implies ((#[trigger] t[i]) as u32) < 128 by {
        if i >= 8 {
            assert(t[i] == hex[i - 8]);
            assert(is_hex_digit_char(hex[i - 8]));
        }
    }
    assert(is_ascii_text(t));
    lemma_encode_ascii(t);
    let b = ascii_bytes(t);
    assert(b.len() == 24);
    assert(b[7] == 58u8);
    assert forall|j: int| 0 <= j < 7 implies b[j] != 58u8 by {}
    lemma_next_sep_at(b, 58, 0, 7);
    assert(next_sep(b, 58, 0) == 7);
    reveal_strlit("fnv1a64");
    let alg = "fnv1a64"@;
    assert(alg =~= prefix.take(7));
    assert(is_ascii_text(alg));
    lemma_encode_ascii(alg);
    assert(b.subrange(0, 7) =~= ascii_bytes(alg));
    assert(b.subrange(0, 7) =~= "fnv1a64".spec_bytes());
    assert(digest_len(b.subrange(0, 7)) == 16);
    assert forall|k: int| 8 <= k < b.len() implies is_lower_hex_byte(#[trigger] b[k]) by {
        assert(t[k] == hex[k - 8]);
        assert(is_hex_digit_char(hex[k - 8]));
    }
}

/// The domain part that prefixes every schema identity.
pub open spec fn schema_domain() -> Seq<u8> {
    "asha.gameplay-schema.v1".spec_bytes()
}

/// Schema identity: the stable identity of the schema domain and the
/// committed canonical descriptor.
pub fn gameplay_schema_hash(schema_descriptor: &str) -> (s: String)
    ensures
        s@ == identity_text(seq![schema_domain(), schema_descriptor.spec_bytes()]),
        is_hash_bytes(encode_utf8(s@)),
{
    let parts = [ "asha.gameplay-schema.v1", schema_descriptor ];
    let s = stable_identity(&parts);
    assert(str_parts(parts@) =~= seq![schema_domain(), schema_descriptor.spec_bytes()]);
    s
}

/// The codec id bound to a schema hash: `asha.canonical-codec.` then the hash.
pub fn gameplay_canonical_codec_id(schema_hash: &str) -> (s: String)
    ensures
        s@ == "asha.canonical-codec."@ + schema_hash@,
{
    let mut s = String::new();
    s.append("asha.canonical-codec.");
    s.append(schema_hash);
    assert(s@ =~= "asha.canonical-codec."@ + schema_hash@);
    s
}

/// FNV-1a over the UTF-8 bytes of `text` (no length framing), as a label.
pub fn stable_digest(text: &str) -> (s: String)
    ensures
        s@ == fnv_label_text(fnv_bytes(FNV_OFFSET, text.spec_bytes())),
        is_hash_bytes(encode_utf8(s@)),
{
    proof {
        law_fnv_label_is_hash(fnv_bytes(FNV_OFFSET, text.spec_bytes()));
    }
    let mut h = fnv_offset();
    feed_str(&mut h, text);
    fnv_label(h)
}

/// Why a codec refused a payload, a contract or a filter.
#[derive(Debug, Clone, PartialEq, Eq)]
pub enum GameplayCodecError {
    UnknownContract { contract: String },
    WrongPayloadType { contract: String },
    Encode { contract: String, message: String },
    Decode { contract: String, message: String },
    SchemaDescriptorMismatch { contract: String },
    NonCanonical { contract: String },
    PayloadHashMismatch { contract: String },
    InvalidFilter { contract: String, message: String },
}

/// The human-readable text of a codec error.
pub open spec fn codec_error_text(e: GameplayCodecError) -> Seq<char> {
    match e {
        GameplayCodecError::UnknownContract { contract } => "no codec for contract `"@ + contract@
            + "`"@,
        GameplayCodecError::WrongPayloadType { contract } => "payload type does not match codec for `"@
            + contract@ + "`"@,
        GameplayCodecError::Encode { contract, message } => "codec for `"@ + contract@
            + "` could not encode: "@ + message@,
        GameplayCodecError::Decode { contract, message } => "codec for `"@ + contract@
            + "` could not decode: "@ + message@,
        GameplayCodecError::SchemaDescriptorMismatch { contract } => "codec schema descriptor does not match `"@
            + contract@ + "`"@,
        GameplayCodecError::NonCanonical { contract } => "payload bytes are not canonical for `"@
            + contract@ + "`"@,
        GameplayCodecError::PayloadHashMismatch { contract } => "payload hash does not match canonical bytes for `"@
            + contract@ + "`"@,
        GameplayCodecError::InvalidFilter { contract, message } => "filter for `"@ + contract@
            + "` is invalid: "@ + message@,
    }
}

impl GameplayCodecError {
    /// The human-readable text of this error.
    pub fn to_string(&self) -> (r: String)
        ensures
            r@ == codec_error_text(*self),
    {
        let mut r = String::new();
        match self {
            GameplayCodecError::UnknownContract { contract } => {
                r.append("no codec for contract `");
                r.append(contract.as_str());
                r.append("`");
            },
            GameplayCodecError::WrongPayloadType { contract } => {
                r.append("payload type does not match codec for `");
                r.append(contract.as_str());
                r.append("`");
            },
            GameplayCodecError::Encode { contract, message } => {
                r.append("codec for `");
                r.append(contract.as_str());
                r.append("` could not encode: ");
                r.append(message.as_str());
            },
            GameplayCodecError::Decode { contract, message } => {
                r.append("codec for `");
                r.append(contract.as_str());
                r.append("` could not decode: ");
                r.append(message.as_str());
            },
            GameplayCodecError::SchemaDescriptorMismatch { contract } => {
                r.append("codec schema descriptor does not match `");
                r.append(contract.as_str());
                r.append("`");
            },
            GameplayCodecError::NonCanonical { contract } => {
                r.append("payload bytes are not canonical for `");
                r.append(contract.as_str());
                r.append("`");
            },
            GameplayCodecError::PayloadHashMismatch { contract } => {
                r.append("payload hash does not match canonical bytes for `");
                r.append(contract.as_str());
                r.append("`");
            },
            GameplayCodecError::InvalidFilter { contract, message } => {
                r.append("filter for `");
                r.append(contract.as_str());
                r.append("` is invalid: ");
                r.append(message.as_str());
            },
        }
        assert(r@ =~= codec_error_text(*self));
        r
    }
}

/// Whether two byte strings are equal.
pub fn same_bytes(a: &[u8], b: &[u8]) -> (r: bool)
    ensures
        r == (a@ == b@),
{
    if a.len() != b.len() {
        return false;
    }
    let mut i: usize = 0;
    while i < a.len()
        invariant
            i <= a@.len() == b@.len(),
            forall|k: int| 0 <= k < i ==> a@[k] == b@[k],
        decreases a@.len() - i,
    {
        if a[i] != b[i] {
            return false;
        }
        i = i + 1;
    }
    assert(a@ =~= b@);
    true
}

/// Admit a payload offered under `contract`, given whether the codec's
/// schema descriptor matches the contract and what re-encoding the decoded
/// payload gave (`canonical`). The descriptor must match, re-encoding must
/// succeed and give back exactly `bytes`, and `payload_hash` must be the
/// canonical payload hash of those bytes; the first failing check names the
/// error.
pub fn admit_canonical_payload(
    contract: &str,
    descriptor_ok: bool,
    canonical: Result<Vec<u8>, GameplayCodecError>,
    bytes: &[u8],
    payload_hash: &str,
) -> (r: Result<(), GameplayCodecError>)
    ensures
        r is Ok <==> (descriptor_ok && (canonical matches Ok(c) && c@ == bytes@ && identity_text(
            seq![bytes@],
        ) == payload_hash@)),
        !descriptor_ok ==> (r matches Err(GameplayCodecError::SchemaDescriptorMismatch { contract: x })
            && x@ == contract@),
        descriptor_ok ==> (canonical matches Err(e) ==> r == Err::<(), GameplayCodecError>(e)),
        descriptor_ok ==> (canonical matches Ok(c) && c@ != bytes@ ==> (r matches Err(
            GameplayCodecError::NonCanonical { contract: x },
        ) && x@ == contract@)),
        descriptor_ok ==> (canonical matches Ok(c) && c@ == bytes@ && identity_text(seq![bytes@])
            != payload_hash@ ==> (r matches Err(GameplayCodecError::PayloadHashMismatch { contract: x })
            && x@ == contract@)),
{
    if !descriptor_ok {
        return Err(GameplayCodecError::SchemaDescriptorMismatch { contract: contract.to_owned() });
    }
    let canonical = match canonical {
        Ok(c) => c,
        Err(e) => {
            return Err(e);
        },
    };
    if !same_bytes(canonical.as_slice(), bytes) {
        return Err(GameplayCodecError::NonCanonical { contract: contract.to_owned() });
    }
    let hash = gameplay_canonical_payload_hash(canonical.as_slice());
    let given = payload_hash.to_owned();
    if hash != given {
        return Err(GameplayCodecError::PayloadHashMismatch { contract: contract.to_owned() });
    }
    Ok(())
}

/// Admit a payload offered under the contract keyed `contract`:
/// refused as unknown unless a codec is registered for exactly that
/// contract (`registered`), then checked as `admit_canonical_payload` does.
pub fn admit_payload(
    contract: &str,
    registered: bool,
    descriptor_ok: bool,
    canonical: Result<Vec<u8>, GameplayCodecError>,
    bytes: &[u8],
    payload_hash: &str,
) -> (r: Result<(), GameplayCodecError>)
    ensures
        !registered ==> (r matches Err(GameplayCodecError::UnknownContract { contract: x }) && x@ == contract@),
        registered ==> (r is Ok <==> (descriptor_ok && (canonical matches Ok(c) && c@ == bytes@ && identity_text(
            seq![bytes@],
        ) == payload_hash@))),
        registered && !descriptor_ok ==> (r matches Err(GameplayCodecError::SchemaDescriptorMismatch { contract: x })
            && x@ == contract@),
        registered && descriptor_ok ==> (canonical matches Err(e) ==> r == Err::<(), GameplayCodecError>(e)),
        registered && descriptor_ok ==> (canonical matches Ok(c) && c@ != bytes@ ==> (r matches Err(
            GameplayCodecError::NonCanonical { contract: x },
        ) && x@ == contract@)),
        registered && descriptor_ok ==> (canonical matches Ok(c) && c@ == bytes@ && identity_text(seq![bytes@])
            != payload_hash@ ==> (r matches Err(GameplayCodecError::PayloadHashMismatch { contract: x })
            && x@ == contract@)),
{
    if !registered {
        return Err(GameplayCodecError::UnknownContract { contract: contract.to_owned() });
    }
    admit_canonical_payload(contract, descriptor_ok, canonical, bytes, payload_hash)
}

} // verus!
