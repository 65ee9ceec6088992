//! The encrypted form of a session: a header line, then the compressed and
//! encrypted bytes.

use base64::Engine;
use chacha20poly1305::aead::{Aead, KeyInit};
use rand::RngCore;
use vstd::prelude::*;
use vstd::utf8::*;

use crate::bytes::{append_bytes, find_line_feed, lemma_line_feed, line_feed};
use crate::digest::{sha256, sha256_digest, sha256_hex, sha256_text};
use crate::rollout::opt_bytes;
use crate::text::{same, to_lowercase, trim, trimmed, unicode_lower};

verus! {

pub const ENVELOPE_FORMAT: &'static str = "codex-tools-session-v1";

pub const MAX_DECOMPRESSED_SESSION_BYTES: usize = 536870912;

/// The most bytes that are encrypted under one nonce: the cipher counts blocks
/// of 64 bytes with 32 bits, and two of the counts are not for the bytes.
pub const MAX_ENCRYPTED_BYTES: u64 = 274877906816;

/// What encrypting adds to the bytes.
pub const TAG_BYTES: u64 = 16;

/// What stands before the encrypted bytes of a session.
pub struct EncryptedEnvelopeHeader {
    pub format: String,
    pub cipher: String,
    pub compression: String,
    pub nonce: String,
    pub raw_sha256: String,
    pub created_at_ms: u128,
}

/// A header and the encrypted bytes that belong to it.
pub struct SealedPayload {
    pub header: EncryptedEnvelopeHeader,
    pub ciphertext: Vec<u8>,
}

/// What standard base64 with padding stands for, or what is wrong with it.
pub uninterp spec fn base64_bytes(text: Seq<char>) -> Result<Seq<u8>, Seq<char>>;

/// Bytes in standard base64 with padding.
pub uninterp spec fn base64_text(bytes: Seq<u8>) -> Seq<char>;

/// What bytes are compressed to, or why they are not.
pub uninterp spec fn zstd_packed(raw: Seq<u8>) -> Result<Seq<u8>, Seq<char>>;

/// What compressed bytes stand for, if that fits into the capacity, or what
/// is wrong with them.
pub uninterp spec fn zstd_bytes(data: Seq<u8>, capacity: int) -> Result<Seq<u8>, Seq<char>>;

/// Bytes encrypted and authenticated under a key and a nonce.
pub uninterp spec fn xchacha_sealed(key: Seq<u8>, nonce: Seq<u8>, plain: Seq<u8>) -> Seq<u8>;

/// What encrypted bytes stand for, if they were made under the key and the
/// nonce.
pub uninterp spec fn xchacha_opened(key: Seq<u8>, nonce: Seq<u8>, sealed: Seq<u8>) -> Option<Seq<u8>>;

pub open spec fn bytes_or_text(r: Result<Vec<u8>, String>) -> Result<Seq<u8>, Seq<char>> {
    match r {
        Ok(bytes) => Ok(bytes@),
        Err(text) => Err(text@),
    }
}

/// Whether it went well, with those bytes.
pub open spec fn is_bytes(r: Result<Seq<u8>, Seq<char>>, bytes: Seq<u8>) -> bool {
    r == Ok::<Seq<u8>, Seq<char>>(bytes)
}

/// `base64`'s `decode` with `STANDARD`: the bytes, or the text of the error,
/// are a function of the text.
#[verifier::external_body]
fn decode_base64(text: &str) -> (r: Result<Vec<u8>, String>)
    ensures
        bytes_or_text(r) == base64_bytes(text@),
{
    base64::engine::general_purpose::STANDARD.decode(text.as_bytes()).map_err(|error| error.to_string())
}

/// `base64`'s `encode` with `STANDARD`: the text is a function of the bytes,
/// and decoding it gives them back.
#[verifier::external_body]
pub(crate) fn encode_base64(bytes: &[u8]) -> (r: String)
    requires
        bytes@.len() / 3 * 4 + 4 <= isize::MAX,
    ensures
        r@ == base64_text(bytes@),
        is_bytes(base64_bytes(r@), bytes@),
{
    base64::engine::general_purpose::STANDARD.encode(bytes)
}

/// The most bytes that `len` bytes are compressed to.
pub open spec fn compressed_bound(len: nat) -> nat {
    len + len / 256 + 64
}

/// `zstd`'s `bulk::compress` at level 3: the bytes, or the text of the error,
/// are a function of the bytes given. What it returns is no longer than the
/// buffer that it allocates, and decompressing it gives the bytes back. That
/// it succeeds is not said: the buffer always suffices, but the library
/// reserves the right to fail for other reasons.
#[verifier::external_body]
fn zstd_compress(raw: &[u8]) -> (r: Result<Vec<u8>, String>)
    requires
        compressed_bound(raw@.len()) <= isize::MAX,
    ensures
        bytes_or_text(r) == zstd_packed(raw@),
        r matches Ok(packed) ==> packed@.len() <= compressed_bound(raw@.len()),
        r matches Ok(packed) ==> forall|capacity: int|
            raw@.len() <= capacity ==> is_bytes(#[trigger] zstd_bytes(packed@, capacity), raw@),
{
    zstd::bulk::compress(raw, 3).map_err(|error| error.to_string())
}

/// `zstd`'s `bulk::decompress`: the bytes, or the text of the error, are a
/// function of the data and the capacity.
#[verifier::external_body]
fn zstd_decompress(data: &[u8], capacity: usize) -> (r: Result<Vec<u8>, String>)
    requires
        capacity <= isize::MAX,
    ensures
        bytes_or_text(r) == zstd_bytes(data@, capacity as int),
{
    zstd::bulk::decompress(data, capacity).map_err(|error| error.to_string())
}

/// `rand`'s `OsRng::try_fill_bytes` on a nonce: 24 bytes, of which nothing
/// else is known, unless the operating system gives none.
#[verifier::external_body]
fn random_nonce() -> (r: Result<Vec<u8>, String>)
    ensures
        r matches Ok(nonce) ==> nonce@.len() == 24,
{
    let mut nonce = vec![0u8; 24];
    rand::rngs::OsRng.try_fill_bytes(&mut nonce).map_err(|error| error.to_string())?;
    Ok(nonce)
}

/// `chacha20poly1305`'s `XChaCha20Poly1305::encrypt`, on no more bytes than
/// the counter of the cipher has blocks for: it succeeds, the bytes are a
/// function of key, nonce and plain bytes, they are a tag longer than the
/// plain bytes, and decrypting them with the same key and nonce gives the
/// plain bytes back.
#[verifier::external_body]
fn xchacha_encrypt(key: &[u8], nonce: &[u8], plain: &[u8]) -> (r: Result<Vec<u8>, String>)
    requires
        key@.len() == 32,
        nonce@.len() == 24,
        plain@.len() + TAG_BYTES <= isize::MAX,
        plain@.len() <= MAX_ENCRYPTED_BYTES,
    ensures
        r is Ok,
        r matches Ok(sealed) ==> sealed@ == xchacha_sealed(key@, nonce@, plain@),
        r matches Ok(sealed) ==> sealed@.len() == plain@.len() + TAG_BYTES,
        r matches Ok(sealed) ==> xchacha_opened(key@, nonce@, sealed@) == Some(plain@),
{
    let cipher = chacha20poly1305::XChaCha20Poly1305::new(chacha20poly1305::Key::from_slice(key));
    cipher.encrypt(chacha20poly1305::XNonce::from_slice(nonce), plain).map_err(|error| error.to_string())
}

/// `chacha20poly1305`'s `XChaCha20Poly1305::decrypt`, on no more bytes than
/// the counter of the cipher has blocks for: the plain bytes, or that there
/// are none, are a function of key, nonce and encrypted bytes.
#[verifier::external_body]
fn xchacha_decrypt(key: &[u8], nonce: &[u8], sealed: &[u8]) -> (r: Option<Vec<u8>>)
    requires
        key@.len() == 32,
        nonce@.len() == 24,
        sealed@.len() <= MAX_ENCRYPTED_BYTES + TAG_BYTES,
    ensures
        opt_bytes(r) == xchacha_opened(key@, nonce@, sealed@),
{
    let cipher = chacha20poly1305::XChaCha20Poly1305::new(chacha20poly1305::Key::from_slice(key));
    cipher.decrypt(chacha20poly1305::XNonce::from_slice(nonce), sealed).ok()
}

/// The key that a sync key stands for.
pub open spec fn derived_key(sync_key: Seq<char>) -> Seq<u8> {
    sha256(encode_utf8("codex-tools-sync-key-v1\0"@) + encode_utf8(sync_key))
}

/// The key that a sync key stands for.
pub fn derive_key(sync_key: &str) -> (r: Vec<u8>)
    ensures
        r@ == derived_key(sync_key@),
        r@.len() == 32,
{
    let mut material: Vec<u8> = Vec::new();
    append_bytes(&mut material, "codex-tools-sync-key-v1\0".as_bytes());
    append_bytes(&mut material, sync_key.as_bytes());
    assert(material@ =~= encode_utf8("codex-tools-sync-key-v1\0"@) + encode_utf8(sync_key@));
    sha256_digest(material.as_slice())
}

/// The text whose hash shows that a device holds the sync key.
pub open spec fn proof_material(email: Seq<char>, sync_key: Seq<char>) -> Seq<char> {
    "codex-tools-sync-login-proof-v1\0"@ + unicode_lower(trimmed(email)) + "\0"@ + sync_key
}

pub open spec fn sync_key_proof(email: Seq<char>, sync_key: Seq<char>) -> Seq<char> {
    sha256_text(encode_utf8(proof_material(email, sync_key)))
}

/// The proof that a device holds the sync key of an account.
pub fn derive_sync_key_proof(email: &str, sync_key: &str) -> (r: String)
    ensures
        r@ == sync_key_proof(email@, sync_key@),
{
    let normalized_email = to_lowercase(trim(email));
    let material = "codex-tools-sync-login-proof-v1\0".to_owned().concat(normalized_email.as_str()).concat("\0").concat(
        sync_key,
    );
    sha256_hex(material.as_str().as_bytes())
}

/// Whether `sealed` is the payload under a nonce.
pub open spec fn is_sealed(
    sealed: SealedPayload,
    raw: Seq<u8>,
    compressed: Seq<u8>,
    nonce: Seq<u8>,
    sync_key: Seq<char>,
    created_at_ms: u128,
) -> bool {
    &&& sealed.header.format@ == ENVELOPE_FORMAT@
    &&& sealed.header.cipher@ == "XChaCha20-Poly1305"@
    &&& sealed.header.compression@ == "zstd"@
    &&& sealed.header.nonce@ == base64_text(nonce)
    &&& sealed.header.raw_sha256@ == sha256_text(raw)
    &&& sealed.header.created_at_ms == created_at_ms
    &&& sealed.ciphertext@ == xchacha_sealed(derived_key(sync_key), nonce, compressed)
}

/// The payload, compressed already, encrypted under a nonce, unless there are
/// too many bytes for one.
pub fn seal_payload(raw: &[u8], compressed: &[u8], nonce: &[u8], sync_key: &str, created_at_ms: u128) -> (r: Result<
    SealedPayload,
    String,
>)
    requires
        nonce@.len() == 24,
        compressed@.len() + TAG_BYTES <= isize::MAX,
    ensures
        match r {
            Ok(sealed) => compressed@.len() <= MAX_ENCRYPTED_BYTES && is_sealed(
                sealed,
                raw@,
                compressed@,
                nonce@,
                sync_key@,
                created_at_ms,
            ),
            Err(error) => compressed@.len() > MAX_ENCRYPTED_BYTES && error@ == "aead::Error"@,
        },
        r matches Ok(sealed) ==> header_nonce(sealed.header.nonce@) == Ok::<Seq<u8>, Seq<char>>(nonce@),
        r matches Ok(sealed) ==> opened_bytes(derived_key(sync_key@), nonce@, sealed.ciphertext@) == Some(compressed@),
{
    if compressed.len() as u64 > MAX_ENCRYPTED_BYTES {
        return Err("aead::Error".to_owned());
    }
    let key = derive_key(sync_key);
    match xchacha_encrypt(key.as_slice(), nonce, compressed) {
        Ok(ciphertext) => Ok(
            SealedPayload {
                header: EncryptedEnvelopeHeader {
                    format: ENVELOPE_FORMAT.to_owned(),
                    cipher: "XChaCha20-Poly1305".to_owned(),
                    compression: "zstd".to_owned(),
                    nonce: encode_base64(nonce),
                    raw_sha256: sha256_hex(raw),
                    created_at_ms,
                },
                ciphertext,
            },
        ),
        Err(error) => Err(error),
    }
}

/// Whether `r` is what a payload is sealed to, given what compressing it and
/// drawing a nonce came to. It fails where compressing failed, with the same
/// error; where no nonce was drawn, with a text that says so; where there are
/// too many bytes to encrypt; and nowhere else.
pub open spec fn is_outcome(
    r: Result<SealedPayload, String>,
    raw: Seq<u8>,
    compressed: Result<Seq<u8>, Seq<char>>,
    drawn: Result<Seq<u8>, Seq<char>>,
    sync_key: Seq<char>,
    created_at_ms: u128,
) -> bool {
    match (compressed, drawn) {
        (Err(reason), _) => r matches Err(error) && error@ == reason,
        (Ok(_), Err(reason)) => r matches Err(error) && error@ == "cannot draw a nonce: "@ + reason,
        (Ok(packed), Ok(nonce)) => if packed.len() > MAX_ENCRYPTED_BYTES {
            r matches Err(error) && error@ == "aead::Error"@
        } else {
            r matches Ok(sealed) && is_sealed(sealed, raw, packed, nonce, sync_key, created_at_ms)
        },
    }
}

/// Whether the payload opens again, whatever line its header is written as.
pub open spec fn opens_again(sealed: SealedPayload, raw: Seq<u8>, sync_key: Seq<char>) -> bool {
    forall|line: Seq<u8>|
        is_header_line(line) ==> envelope_payload(
            #[trigger] framed(line, sealed.ciphertext@),
            sealed.header,
            sync_key,
        ) == Ok::<Seq<u8>, Seq<char>>(raw)
}

/// A session compressed and encrypted, given what drawing a nonce came to.
/// What a payload of at most `MAX_DECOMPRESSED_SESSION_BYTES` is sealed to
/// opens to it again.
pub fn encrypt_with_nonce(
    raw: &[u8],
    drawn: Result<Vec<u8>, String>,
    sync_key: &str,
    created_at_ms: u128,
) -> (r: Result<SealedPayload, String>)
    requires
        compressed_bound(raw@.len()) + TAG_BYTES <= isize::MAX,
        drawn matches Ok(nonce) ==> nonce@.len() == 24,
    ensures
        is_outcome(r, raw@, zstd_packed(raw@), bytes_or_text(drawn), sync_key@, created_at_ms),
        zstd_packed(raw@) is Ok && drawn is Ok && compressed_bound(raw@.len()) <= MAX_ENCRYPTED_BYTES ==> r is Ok,
        r matches Ok(sealed) ==> forall|capacity: int|
            raw@.len() <= capacity ==> is_bytes(#[trigger] zstd_bytes(zstd_packed(raw@)->Ok_0, capacity), raw@),
        r matches Ok(sealed) ==> raw@.len() <= MAX_DECOMPRESSED_SESSION_BYTES ==> opens_again(sealed, raw@, sync_key@),
{
    let compressed = match zstd_compress(raw) {
        Ok(compressed) => compressed,
        Err(reason) => {
            return Err(reason);
        },
    };
    let nonce = match drawn {
        Ok(nonce) => nonce,
        Err(reason) => {
            return Err("cannot draw a nonce: ".to_owned().concat(reason.as_str()));
        },
    };
    let r = seal_payload(raw, compressed.as_slice(), nonce.as_slice(), sync_key, created_at_ms);
    proof {
        if r is Ok && raw@.len() <= MAX_DECOMPRESSED_SESSION_BYTES {
            let sealed = r->Ok_0;
            assert(opened_payload(sealed.header, sealed.ciphertext@, sync_key@) == Ok::<Seq<u8>, Seq<char>>(raw@));
            assert forall|line: Seq<u8>| is_header_line(line) implies envelope_payload(
                #[trigger] framed(line, sealed.ciphertext@),
                sealed.header,
                sync_key@,
            ) == Ok::<Seq<u8>, Seq<char>>(raw@) by {
                law_split_undoes_frame(line, sealed.ciphertext@);
            }
        }
    }
    r
}

/// A session compressed and encrypted under a nonce that is drawn for it.
/// `encrypt_with_nonce` says what comes of every draw.
pub fn encrypt_payload(raw: &[u8], sync_key: &str, created_at_ms: u128) -> (r: Result<SealedPayload, String>)
    requires
        compressed_bound(raw@.len()) + TAG_BYTES <= isize::MAX,
    ensures
        exists|drawn: Result<Seq<u8>, Seq<char>>|
            (drawn matches Ok(nonce) ==> nonce.len() == 24) && #[trigger] is_outcome(
                r,
                raw@,
                zstd_packed(raw@),
                drawn,
                sync_key@,
                created_at_ms,
            ),
        r matches Ok(sealed) ==> raw@.len() <= MAX_DECOMPRESSED_SESSION_BYTES ==> opens_again(sealed, raw@, sync_key@),
{
    let drawn = random_nonce();
    let ghost came_to = bytes_or_text(drawn);
    let r = encrypt_with_nonce(raw, drawn, sync_key, created_at_ms);
    assert(is_outcome(r, raw@, zstd_packed(raw@), came_to, sync_key@, created_at_ms));
    r
}

/// Whether bytes can stand on the header line.
pub open spec fn is_header_line(line: Seq<u8>) -> bool {
    forall|i: int| 0 <= i < line.len() ==> #[trigger] line[i] != 10
}

/// An envelope: the header on a line, and the encrypted bytes.
pub open spec fn framed(header: Seq<u8>, ciphertext: Seq<u8>) -> Seq<u8> {
    header + seq![10u8] + ciphertext
}

/// An envelope: the header on a line, and the encrypted bytes.
pub fn frame_envelope(header: &[u8], ciphertext: &[u8]) -> (r: Vec<u8>)
    ensures
        r@ == framed(header@, ciphertext@),
{
    let mut output: Vec<u8> = Vec::new();
    append_bytes(&mut output, header);
    output.push(10);
    append_bytes(&mut output, ciphertext);
    assert(output@ =~= framed(header@, ciphertext@));
    output
}

/// The header line and the encrypted bytes of an envelope.
pub open spec fn envelope_parts(envelope: Seq<u8>) -> Option<(Seq<u8>, Seq<u8>)> {
    let end = line_feed(envelope) as int;
    if end >= envelope.len() {
        None
    } else {
        Some((envelope.take(end), envelope.skip(end + 1)))
    }
}

/// Splitting an envelope gives the header line and the encrypted bytes that it
/// was framed from.
pub proof fn law_split_undoes_frame(line: Seq<u8>, ciphertext: Seq<u8>)
    requires
        is_header_line(line),
    ensures
        envelope_parts(framed(line, ciphertext)) == Some((line, ciphertext)),
{
    let envelope = framed(line, ciphertext);
    assert forall|i: int| 0 <= i < line.len() implies #[trigger] envelope[i] != 10 by {
        assert(envelope[i] == line[i]);
    }
    lemma_line_feed(envelope, line.len() as int);
    assert(envelope.take(line.len() as int) =~= line);
    assert(envelope.skip(line.len() as int + 1) =~= ciphertext);
}

pub open spec fn missing_header_text() -> Seq<char> {
    "encrypted payload missing JSON header"@
}

/// The header line of an envelope.
pub fn envelope_header<'a>(envelope: &'a [u8]) -> (r: Result<&'a [u8], String>)
    ensures
        match (r, envelope_parts(envelope@)) {
            (Ok(line), Some(parts)) => line@ == parts.0,
            (Err(error), None) => error@ == missing_header_text(),
            _ => false,
        },
{
    let end: usize = find_line_feed(envelope);
    if end >= envelope.len() {
        Err("encrypted payload missing JSON header".to_owned())
    } else {
        let line = vstd::slice::slice_subrange(envelope, 0, end);
        assert(line@ =~= envelope@.take(end as int));
        Ok(line)
    }
}

/// The nonce that a header may hold, given what its text decodes to.
pub open spec fn valid_nonce(decoded: Result<Seq<u8>, Seq<char>>) -> Result<Seq<u8>, Seq<char>> {
    match decoded {
        Ok(nonce) => if nonce.len() == 24 {
            Ok(nonce)
        } else {
            Err("encrypted payload nonce has invalid length"@)
        },
        Err(error) => Err(error),
    }
}

pub open spec fn header_nonce(text: Seq<char>) -> Result<Seq<u8>, Seq<char>> {
    valid_nonce(base64_bytes(text))
}

/// The nonce that a header may hold, given what its text decodes to.
pub fn checked_nonce(decoded: Result<Vec<u8>, String>) -> (r: Result<Vec<u8>, String>)
    ensures
        bytes_or_text(r) == valid_nonce(bytes_or_text(decoded)),
{
    match decoded {
        Ok(nonce) => if nonce.len() == 24 {
            Ok(nonce)
        } else {
            Err("encrypted payload nonce has invalid length".to_owned())
        },
        Err(error) => Err(error),
    }
}

/// The payload, if it was decompressed and has the hash that the header names.
pub open spec fn verified_payload(
    raw: Result<Seq<u8>, Seq<char>>,
    raw_sha256: Seq<char>,
    header_sha256: Seq<char>,
) -> Result<Seq<u8>, Seq<char>> {
    match raw {
        Ok(bytes) => if raw_sha256 == header_sha256 {
            Ok(bytes)
        } else {
            Err("decrypted payload hash mismatch"@)
        },
        Err(error) => Err(error),
    }
}

/// The payload, if its hash is the one that the header names.
pub fn verify_payload(raw: Vec<u8>, raw_sha256: &str, header_sha256: &str) -> (r: Result<Vec<u8>, String>)
    ensures
        bytes_or_text(r) == verified_payload(Ok(raw@), raw_sha256@, header_sha256@),
{
    if same(raw_sha256, header_sha256) {
        Ok(raw)
    } else {
        Err("decrypted payload hash mismatch".to_owned())
    }
}

pub open spec fn wrong_key_text() -> Seq<char> {
    "decrypt failed: Sync Key does not match this cloud session. Run `codex-tools cloud logout`, then `codex-tools cloud login --email <email>` with the same Sync Key used when uploading."@
}

/// What encrypted bytes stand for, if they were made under the key and the
/// nonce. There are never more than can be encrypted.
pub open spec fn opened_bytes(key: Seq<u8>, nonce: Seq<u8>, ciphertext: Seq<u8>) -> Option<Seq<u8>> {
    if ciphertext.len() > MAX_ENCRYPTED_BYTES + TAG_BYTES {
        None
    } else {
        xchacha_opened(key, nonce, ciphertext)
    }
}

/// What the encrypted bytes under a header stand for, or why they cannot be
/// opened.
pub open spec fn opened_payload(header: EncryptedEnvelopeHeader, ciphertext: Seq<u8>, sync_key: Seq<char>) -> Result<
    Seq<u8>,
    Seq<char>,
> {
    if header.format@ != ENVELOPE_FORMAT@ {
        Err("unsupported encrypted payload format: "@ + header.format@)
    } else {
        match header_nonce(header.nonce@) {
            Err(error) => Err(error),
            Ok(nonce) => match opened_bytes(derived_key(sync_key), nonce, ciphertext) {
                None => Err(wrong_key_text()),
                Some(compressed) => {
                    let raw = zstd_bytes(compressed, MAX_DECOMPRESSED_SESSION_BYTES as int);
                    verified_payload(raw, sha256_text(raw->Ok_0), header.raw_sha256@)
                },
            },
        }
    }
}

/// What an envelope with that header stands for, or why it cannot be opened.
pub open spec fn envelope_payload(envelope: Seq<u8>, header: EncryptedEnvelopeHeader, sync_key: Seq<char>) -> Result<
    Seq<u8>,
    Seq<char>,
> {
    match envelope_parts(envelope) {
        None => Err(missing_header_text()),
        Some(parts) => opened_payload(header, parts.1, sync_key),
    }
}

fn open_payload(header: &EncryptedEnvelopeHeader, ciphertext: &[u8], sync_key: &str) -> (r: Result<Vec<u8>, String>)
    ensures
        bytes_or_text(r) == opened_payload(*header, ciphertext@, sync_key@),
{
    if !same(header.format.as_str(), ENVELOPE_FORMAT) {
        return Err("unsupported encrypted payload format: ".to_owned().concat(header.format.as_str()));
    }
    let nonce = match checked_nonce(decode_base64(header.nonce.as_str())) {
        Ok(nonce) => nonce,
        Err(error) => {
            return Err(error);
        },
    };
    let key = derive_key(sync_key);
    let opened = if ciphertext.len() as u64 > MAX_ENCRYPTED_BYTES + TAG_BYTES {
        None
    } else {
        xchacha_decrypt(key.as_slice(), nonce.as_slice(), ciphertext)
    };
    let compressed = match opened {
        Some(compressed) => compressed,
        None => {
            return Err(
                "decrypt failed: Sync Key does not match this cloud session. Run `codex-tools cloud logout`, then `codex-tools cloud login --email <email>` with the same Sync Key used when uploading.".to_owned(),
            );
        },
    };
    match zstd_decompress(compressed.as_slice(), MAX_DECOMPRESSED_SESSION_BYTES) {
        Ok(raw) => {
            let raw_sha256 = sha256_hex(raw.as_slice());
            verify_payload(raw, raw_sha256.as_str(), header.raw_sha256.as_str())
        },
        Err(error) => Err(error),
    }
}

/// What an envelope stands for. The header is the one that its first line
/// holds.
pub fn decrypt_payload(envelope: &[u8], header: &EncryptedEnvelopeHeader, sync_key: &str) -> (r: Result<
    Vec<u8>,
    String,
>)
    ensures
        bytes_or_text(r) == envelope_payload(envelope@, *header, sync_key@),
{
    let end: usize = find_line_feed(envelope);
    if end >= envelope.len() {
        return Err("encrypted payload missing JSON header".to_owned());
    }
    let ciphertext = vstd::slice::slice_subrange(envelope, end + 1, envelope.len());
    assert(ciphertext@ =~= envelope@.skip(end + 1));
    open_payload(header, ciphertext, sync_key)
}

/// Where the cipher opens nothing under a key, whatever the key it was sealed
/// with, a session is refused with the text that tells of another Sync Key.
pub proof fn law_unopened_is_refused(
    sealed: SealedPayload,
    raw: Seq<u8>,
    compressed: Seq<u8>,
    nonce: Seq<u8>,
    sync_key: Seq<char>,
    created_at_ms: u128,
    line: Seq<u8>,
    other_key: Seq<char>,
)
    requires
        is_sealed(sealed, raw, compressed, nonce, sync_key, created_at_ms),
        header_nonce(sealed.header.nonce@) == Ok::<Seq<u8>, Seq<char>>(nonce),
        is_header_line(line),
        xchacha_opened(derived_key(other_key), nonce, sealed.ciphertext@) is None,
    ensures
        envelope_payload(framed(line, sealed.ciphertext@), sealed.header, other_key) == Err::<Seq<u8>, Seq<char>>(
            wrong_key_text(),
        ),
{
    law_split_undoes_frame(line, sealed.ciphertext@);
}

} // verus!
