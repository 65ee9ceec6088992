//! What sealing a session and opening it again promise.

use vstd::prelude::*;
use vstd::utf8::*;

use crate::bytes::{lemma_line_feed_bound, line_feed};
use crate::digest::{hex_text, is_hex_digit, is_sha256_text, sha256_hex, sha256_text};
use crate::envelope::{
    bytes_or_text, decrypt_payload, derive_key, derive_sync_key_proof, derived_key, envelope_header,
    envelope_parts, envelope_payload, frame_envelope, framed, is_header_line, is_sealed,
    law_split_undoes_frame, seal_payload, sync_key_proof, EncryptedEnvelopeHeader, SealedPayload,
};
use crate::text::{trimmed, unicode_lower};

verus! {

/// What is sealed says in which format, how it was sealed and packed, and the
/// hash of what it holds.
pub proof fn law_sealed_header(
    raw: &[u8],
    compressed: &[u8],
    nonce: &[u8],
    sync_key: &str,
    created_at_ms: u128,
    hash: String,
    r: Result<SealedPayload, String>,
)
    requires
        nonce@.len() == 24,
        compressed@.len() + 16 <= isize::MAX,
        call_ensures(sha256_hex, (raw,), hash),
        call_ensures(seal_payload, (raw, compressed, nonce, sync_key, created_at_ms), r),
    ensures
        r is Ok <==> compressed@.len() <= 274877906816,
        r matches Ok(sealed) ==> {
            &&& sealed.header.format@ == "codex-tools-session-v1"@
            &&& sealed.header.cipher@ == "XChaCha20-Poly1305"@
            &&& sealed.header.compression@ == "zstd"@
            &&& sealed.header.raw_sha256@ == hash@
            &&& sealed.header.created_at_ms == created_at_ms
        },
{
    assert(hash@ == sha256_text(raw@));
    match r {
        Ok(sealed) => {
            assert(is_sealed(sealed, raw@, compressed@, nonce@, sync_key@, created_at_ms));
        },
        Err(_) => {},
    }
}

/// What opens has the hash that its header says, and is of the known format;
/// anything else is refused.
pub proof fn law_opened(
    envelope: &[u8],
    header: EncryptedEnvelopeHeader,
    sync_key: &str,
    r: Result<Vec<u8>, String>,
    bytes: &[u8],
    hash: String,
)
    requires
        call_ensures(decrypt_payload, (envelope, &header, sync_key), r),
        r matches Ok(raw) ==> bytes@ == raw@,
        call_ensures(sha256_hex, (bytes,), hash),
    ensures
        r is Ok ==> hash@ == header.raw_sha256@,
        r is Ok ==> header.format@ == "codex-tools-session-v1"@,
        r is Ok ==> envelope@.contains(10u8),
{
    assert(hash@ == sha256_text(bytes@));
    assert(bytes_or_text(r) == envelope_payload(envelope@, header, sync_key@));
    if r is Ok {
        assert(envelope_parts(envelope@) is Some);
        let end = line_feed(envelope@) as int;
        lemma_line_feed_bound(envelope@);
        assert(envelope@[end] == 10u8);
    }
}

/// A header and what it heads stand in an envelope with a line feed between
/// them, and the header is read back from it.
pub proof fn law_framed(header: &[u8], ciphertext: &[u8], out: Vec<u8>, envelope: &[u8], r: Result<&[u8], String>)
    requires
        forall|i: int| 0 <= i < header@.len() ==> #[trigger] header@[i] != 10,
        call_ensures(frame_envelope, (header, ciphertext), out),
        envelope@ == out@,
        call_ensures(envelope_header, (envelope,), r),
    ensures
        out@ == header@ + seq![10u8] + ciphertext@,
        r matches Ok(line) && line@ == header@,
{
    assert(is_header_line(header@));
    law_split_undoes_frame(header@, ciphertext@);
    assert(envelope@ == framed(header@, ciphertext@));
}

/// The key and the proof are hashes of the sync key, each under a name of its
/// own.
pub proof fn law_derived(
    sync_key: &str,
    material: &[u8],
    hash: String,
    key: Vec<u8>,
)
    requires
        material@ == encode_utf8("codex-tools-sync-key-v1\0"@) + encode_utf8(sync_key@),
        call_ensures(sha256_hex, (material,), hash),
        call_ensures(derive_key, (sync_key,), key),
    ensures
        hash@ == hex_text(key@),
        key@.len() == 32,
{
    assert(hash@ == sha256_text(material@));
    assert(key@ == derived_key(sync_key@));
}

/// The proof of a sync key is a hash of the address in lower case and the key.
pub proof fn law_proof_material(email: &str, sync_key: &str, material: &[u8], hash: String, r: String)
    requires
        material@ == encode_utf8(
            "codex-tools-sync-login-proof-v1\0"@ + unicode_lower(trimmed(email@)) + "\0"@ + sync_key@,
        ),
        call_ensures(sha256_hex, (material,), hash),
        call_ensures(derive_sync_key_proof, (email, sync_key), r),
    ensures
        r@ == hash@,
{
    assert(hash@ == sha256_text(material@));
    assert(r@ == sync_key_proof(email@, sync_key@));
}

/// A hash is told by sixty-four digits, two for each byte, the high one first.
pub proof fn law_hash_digits(bytes: &[u8], r: String, i: int)
    requires
        call_ensures(sha256_hex, (bytes,), r),
        0 <= i < 64,
    ensures
        r@.len() == 64,
        '0' <= r@[i] <= '9' || 'a' <= r@[i] <= 'f' || 'A' <= r@[i] <= 'F',
{
    assert(is_sha256_text(r@));
    assert(is_hex_digit(r@[i]));
}

} // verus!
