//! What sending and fetching promises: when a request is sent again, where it
//! goes, and that what is cut to pieces comes together again.

use vstd::prelude::*;
use vstd::utf8::*;

use crate::chunks::{
    all_downloaded, assemble_chunks, assembled, check_chunk, check_manifest_size, chunk_at, chunk_count,
    chunk_fault, chunk_size, chunk_total, chunks_of, describe_chunk, describes, descriptor_fault,
    download_concurrency, failed_with, first_fault, is_chunked_blob, law_assemble_undoes_cut,
    law_chunk_places, manifest_fault, size_sum, stands_at, transfers, upload_concurrency, uploads_in_chunks,
    validate_chunk_descriptors, ChunkDescriptor,
};
use crate::cloud::service_root;
use crate::digest::{is_sha256_text, sha256_hex, sha256_text, short_hash, shortened};
use crate::envelope::bytes_or_text;
use crate::http::{
    after_attempt, api_error, api_error_text, blob_path, check_answer, chunk_manifest_path, chunk_path,
    complete_path, encoded_byte, is_retryable_status, is_sent_again, latest_version_path, max_attempts,
    next_page_size, page_limit, percent_encode_path, percent_encoded, retry_wait_ms, sessions_path,
    should_retry_status, timeout_secs, version_path, versions_path, wait_after, AfterAttempt, Attempt,
    SessionPages,
};
use crate::law_process::lemma_decimal_value;
use crate::number::{parse_unsigned, unsigned_value};
use crate::text::{decimal, lemma_kept_len_is, only, opt_text};
use crate::transfer::{says_no_version, session_uploads};

verus! {

/// A status is tried again exactly when it is one that passes.
pub proof fn law_retry_status(status: u16, r: bool)
    requires
        call_ensures(should_retry_status, (status,), r),
    ensures
        r <==> status == 408 || status == 425 || status == 429 || status == 500 || status == 502 || status == 503 || status
            == 504 || 520 <= status <= 526,
        status < 400 ==> !r,
{
    assert(r == is_retryable_status(status));
}

/// A request is sent again only while attempts are left, and only after what
/// may pass; what was answered otherwise is taken, and what failed otherwise is
/// given up.
pub proof fn law_after_attempt(
    action: &str,
    outcome: Attempt,
    attempt: usize,
    max: usize,
    r: AfterAttempt,
    status: u16,
    retry: bool,
    wait: u64,
)
    requires
        call_ensures(after_attempt, (action, &outcome, attempt, max), r),
        call_ensures(should_retry_status, (status,), retry),
        call_ensures(retry_wait_ms, (attempt,), wait),
    ensures
        attempt >= max ==> !(r is Again),
        outcome matches Attempt::Answered { status: came, .. } ==> came == status ==> (r is Again <==> attempt < max
            && retry) && (r is Take <==> !(attempt < max && retry)),
        outcome matches Attempt::Failed { fault } ==> (r is Again <==> attempt < max && (fault.timeout || fault.connect
            || fault.request || fault.body)) && !(r is Take),
        r matches AfterAttempt::Again { wait_ms, .. } ==> wait_ms == wait,
{
    assert(retry == is_retryable_status(status));
    assert(wait == wait_after(attempt as int));
    assert(r is Again == is_sent_again(outcome, attempt as int, max as int));
}

/// The wait doubles from half a second on and stops growing at eight.
pub proof fn law_waits_grow(attempt: usize, next: usize, wait: u64, longer: u64)
    requires
        1 <= attempt,
        next == attempt + 1,
        call_ensures(retry_wait_ms, (attempt,), wait),
        call_ensures(retry_wait_ms, (next,), longer),
    ensures
        attempt == 1 ==> wait == 500,
        attempt < 5 ==> longer == 2 * wait,
        attempt >= 5 ==> wait == 8000 && longer == wait,
{
    assert(wait == wait_after(attempt as int));
    assert(longer == wait_after(next as int));
}

/// Every request is sent once at least, and as often more as the setting says.
pub proof fn law_attempts(setting: Option<String>, text: &str, number: Option<u64>, r: usize)
    requires
        call_ensures(max_attempts, (&setting,), r),
        setting matches Some(s) ==> text@ == s@,
        call_ensures(parse_unsigned, (text, 10, usize::MAX as u64), number),
    ensures
        r >= 1,
        setting is None ==> r == 5,
        setting is Some && number is None ==> r == 5,
        setting is Some ==> (number matches Some(n) ==> n < usize::MAX ==> r == n + 1),
{
    assert(number is Some == unsigned_value(text@, 10, usize::MAX as nat) is Some);
}

/// A time limit is what the setting says, and the usual one where it says no
/// number.
pub proof fn law_timeout(setting: Option<String>, usual: u64, text: &str, number: Option<u64>, r: u64)
    requires
        call_ensures(timeout_secs, (&setting, usual), r),
        setting matches Some(s) ==> text@ == s@,
        call_ensures(parse_unsigned, (text, 10, u64::MAX), number),
    ensures
        setting is None ==> r == usual,
        setting is Some && number is None ==> r == usual,
        setting is Some ==> (number matches Some(n) ==> r == n),
{
    assert(number is Some == unsigned_value(text@, 10, u64::MAX as nat) is Some);
}

/// Letters, digits and four signs stand in a path as they are; any other byte
/// of plain ASCII stands there as its two digits behind a percent sign.
pub proof fn law_percent(c: char, value: &str, r: String)
    requires
        value@ == seq![c],
        c as int <= 0x7f,
        call_ensures(percent_encode_path, (value,), r),
    ensures
        'a' <= c <= 'z' || 'A' <= c <= 'Z' || '0' <= c <= '9' || c == '-' || c == '_' || c == '.' || c == '~' ==> r@
            == seq![c],
        c == '/' ==> r@ == seq!['%', '2', 'F'],
        c == ' ' ==> r@ == seq!['%', '2', '0'],
        c == '%' ==> r@ == seq!['%', '2', '5'],
        c == '?' ==> r@ == seq!['%', '3', 'F'],
        c == '#' ==> r@ == seq!['%', '2', '3'],
{
    assert(r@ == percent_encoded(encode_utf8(value@)));
    let bytes = encode_utf8(seq![c]);
    lemma_encode_ascii(c);
    assert(bytes =~= seq![c as u8]);
    assert(bytes.drop_last() =~= Seq::<u8>::empty());
    assert(percent_encoded(Seq::<u8>::empty()) =~= Seq::<char>::empty());
    assert(percent_encoded(bytes) =~= encoded_byte(c as u8));
    assert((c as u8) as char == c);
}

proof fn lemma_encode_ascii(c: char)
    requires
        c as int <= 0x7f,
    ensures
        encode_utf8(seq![c]) == seq![c as u8],
{
    reveal_with_fuel(encode_utf8, 2);
    let n = c as u32;
    assert(n <= 0x7f ==> n & 0x7F == n) by (bit_vector);
    assert(seq![c].drop_first() =~= Seq::<char>::empty());
    assert(encode_scalar(c as u32) =~= seq![c as u8]);
    assert(encode_utf8(seq![c]) =~= seq![c as u8]);
}

/// Versions of different sessions, or with different hashes, lie under
/// different paths, all under `/v1/sessions/`.
pub proof fn law_version_paths(
    id: &str,
    other_id: &str,
    hash: &str,
    other_hash: &str,
    piece: String,
    path: String,
    other_path: String,
    latest: String,
    blob: String,
    manifest: String,
    complete: String,
)
    requires
        call_ensures(percent_encode_path, (id,), piece),
        call_ensures(version_path, (id, hash), path),
        call_ensures(version_path, (other_id, other_hash), other_path),
        call_ensures(latest_version_path, (id,), latest),
        call_ensures(blob_path, (id, hash), blob),
        call_ensures(chunk_manifest_path, (id, hash), manifest),
        call_ensures(complete_path, (id, hash), complete),
    ensures
        path@ == "/v1/sessions/"@ + piece@ + "/versions/"@ + hash@,
        latest@ == "/v1/sessions/"@ + piece@ + "/versions/latest"@,
        blob@ == path@ + "/blob"@,
        manifest@ == path@ + "/chunks/manifest"@,
        complete@ == path@ + "/chunks/complete"@,
        id@ == other_id@ && hash@ != other_hash@ ==> path@ != other_path@,
{
    assert(piece@ == percent_encoded(encode_utf8(id@)));
    assert(path@ == versions_path(id@) + hash@);
    assert(other_path@ == versions_path(other_id@) + other_hash@);
    reveal_strlit("/versions/");
    reveal_strlit("latest");
    reveal_strlit("/versions/latest");
    assert("/versions/latest"@ =~= "/versions/"@ + "latest"@);
    assert(latest@ =~= "/v1/sessions/"@ + piece@ + "/versions/latest"@);
    if id@ == other_id@ && path@ == other_path@ {
        let n = versions_path(id@).len() as int;
        assert(path@.skip(n) =~= hash@);
        assert(other_path@.skip(n) =~= other_hash@);
    }
}

/// Every chunk has a path of its own under its version.
pub proof fn law_chunk_paths(id: &str, hash: &str, i: usize, j: usize, version: String, path: String, other: String)
    requires
        call_ensures(version_path, (id, hash), version),
        call_ensures(chunk_path, (id, hash, i), path),
        call_ensures(chunk_path, (id, hash, j), other),
    ensures
        path@ == version@ + "/chunks/"@ + decimal(i as nat),
        i != j ==> path@ != other@,
{
    assert(version@ == versions_path(id@) + hash@);
    if path@ == other@ {
        let n = (version@ + "/chunks/"@).len() as int;
        assert(path@.skip(n) =~= decimal(i as nat));
        assert(other@.skip(n) =~= decimal(j as nat));
        lemma_decimal_value(i as nat);
        lemma_decimal_value(j as nat);
    }
}

/// A page of sessions asks for one at least and for five hundred at most, from
/// the place that is given on.
pub proof fn law_sessions_path(limit: usize, offset: usize, r: String)
    requires
        call_ensures(sessions_path, (limit, offset), r),
    ensures
        1 <= limit <= 500 ==> r@ == "/v1/sessions?limit="@ + decimal(limit as nat) + "&offset="@ + decimal(
            offset as nat,
        ),
        limit == 0 ==> r@ == "/v1/sessions?limit="@ + decimal(1) + "&offset="@ + decimal(offset as nat),
        limit > 500 ==> r@ == "/v1/sessions?limit="@ + decimal(500) + "&offset="@ + decimal(offset as nat),
{
    assert(1 <= page_limit(limit as int) <= 500);
}

/// The pages of a list go on from what was fetched, and together they ask for
/// no more than the limit.
pub proof fn law_pages(limit: usize, fetched: usize, r: Option<(usize, usize)>, pages: SessionPages)
    requires
        pages == (SessionPages { limit: Some(limit), fetched, done: false }),
        call_ensures(SessionPages::next_page, (&pages,), r),
    ensures
        r is None <==> fetched >= limit,
        r matches Some((count, from)) ==> from == fetched && 1 <= count <= 500 && fetched + count <= limit,
        limit - fetched >= 500 ==> (r matches Some((count, _)) && count == 500),
        0 < limit - fetched < 500 ==> (r matches Some((count, _)) && count == limit - fetched),
{
    assert(r is None == (next_page_size(pages) == 0));
}

/// Bytes are cut into pieces of the same size but for the last, none of them
/// empty, and the pieces are the bytes in order.
pub proof fn law_cut(bytes: &[u8], size: usize, count: usize, index: usize, chunk: &[u8])
    requires
        size > 0,
        call_ensures(chunk_count, (bytes@.len() as usize, size), count),
        bytes@.len() <= usize::MAX,
        index < count,
        call_ensures(chunk_at, (bytes, size, index), chunk),
    ensures
        bytes@.len() > 0 ==> size * (count - 1) < bytes@.len() <= size * count,
        index < count - 1 ==> chunk@.len() == size,
        0 < chunk@.len() <= size,
        size * index + chunk@.len() <= bytes@.len(),
        chunk@ == bytes@.subrange(size * index, size * index + chunk@.len()),
{
    let len = bytes@.len() as int;
    let n = size as int;
    assert(count == chunk_total(len, n));
    law_chunk_places(bytes@, n);
    assert(chunk@ == chunks_of(bytes@, n)[index as int]);
    assert(stands_at(chunks_of(bytes@, n)[index as int], bytes@, n, index as int));
    let i = index as int;
    assert(i * n == n * i) by (nonlinear_arith);
    vstd::arithmetic::div_mod::lemma_fundamental_div_mod(len, n);
    let q = len / n;
    assert(n * (count - 1) < len <= n * count) by (nonlinear_arith)
        requires
            len == n * q + len % n,
            0 <= len % n < n,
            count == (if len % n == 0 {
                q
            } else {
                q + 1
            }),
            count > 0,
            n > 0,
    ;
    if i < count - 1 {
        assert(n * i + n <= n * (count - 1)) by (nonlinear_arith)
            requires
                i + 1 <= count - 1,
                n > 0,
        ;
    }
}

/// Pieces that all came, in whatever order, come together to what was cut.
pub proof fn law_reassembled(
    bytes: &[u8],
    size: usize,
    results: Vec<(usize, Vec<u8>)>,
    encrypted_size: usize,
    r: Result<Vec<u8>, String>,
)
    requires
        size > 0,
        encrypted_size == bytes@.len(),
        all_downloaded(results@, chunks_of(bytes@, size as int)),
        call_ensures(assemble_chunks, (results, encrypted_size), r),
    ensures
        r matches Ok(out) && out@ == bytes@,
{
    law_assemble_undoes_cut(bytes@, size as int, results@);
    assert(bytes_or_text(r) == assembled(results@, encrypted_size as int));
}

/// What comes together has the size that was told; nothing else is handed on.
pub proof fn law_assembled_size(results: Vec<(usize, Vec<u8>)>, encrypted_size: usize, r: Result<Vec<u8>, String>)
    requires
        call_ensures(assemble_chunks, (results, encrypted_size), r),
    ensures
        r matches Ok(out) ==> out@.len() == encrypted_size,
{
    assert(bytes_or_text(r) == assembled(results@, encrypted_size as int));
}

/// A piece is taken exactly when it has the size and the hash that it was
/// described with, so that a piece that came as it was sent is taken.
pub proof fn law_chunk_taken(
    index: usize,
    chunk: &[u8],
    descriptor: ChunkDescriptor,
    came: &[u8],
    hash: String,
    r: Result<(), String>,
)
    requires
        call_ensures(describe_chunk, (index, chunk), descriptor),
        call_ensures(sha256_hex, (came,), hash),
        call_ensures(check_chunk, (&descriptor, came), r),
    ensures
        descriptor.index == index,
        descriptor.size == chunk@.len(),
        r is Ok <==> came@.len() == descriptor.size && hash@ == descriptor.sha256@,
        came@ == chunk@ ==> r is Ok,
{
    assert(describes(descriptor, index, chunk@));
    assert(hash@ == sha256_text(came@));
    assert(failed_with(r) == chunk_fault(descriptor, came@.len() as int, sha256_text(came@)));
}

/// A list of pieces is good exactly when it is not empty, in order, and each
/// piece has a size and a hash.
pub proof fn law_descriptors(chunks: Vec<ChunkDescriptor>, r: Result<(), String>)
    requires
        call_ensures(validate_chunk_descriptors, (&chunks,), r),
    ensures
        r is Ok <==> chunks@.len() > 0 && forall|i: int|
            0 <= i < chunks@.len() ==> (#[trigger] chunks@[i]).index == i && chunks@[i].size > 0
                && chunks@[i].sha256@.len() == 64 && is_sha256_text(chunks@[i].sha256@),
{
    assert(failed_with(r) == manifest_fault(chunks@));
    lemma_first_fault(chunks@, 0);
}

proof fn lemma_first_fault(chunks: Seq<ChunkDescriptor>, from: int)
    requires
        0 <= from <= chunks.len(),
    ensures
        first_fault(chunks, from) is None <==> forall|i: int|
            from <= i < chunks.len() ==> (#[trigger] chunks[i]).index == i && chunks[i].size > 0 && is_sha256_text(
                chunks[i].sha256@,
            ),
    decreases chunks.len() - from,
{
    if from < chunks.len() {
        lemma_first_fault(chunks, from + 1);
        if first_fault(chunks, from) is None {
            assert(chunks[from].index == from);
        }
        assert(descriptor_fault(chunks[from], from) is None <==> chunks[from].index == from && chunks[from].size > 0
            && is_sha256_text(chunks[from].sha256@));
    }
}

/// The sizes of the pieces add up to the size that was told, or the list is
/// refused.
pub proof fn law_manifest_size(chunks: Vec<ChunkDescriptor>, size: usize, r: Result<(), String>)
    requires
        call_ensures(check_manifest_size, (&chunks, size), r),
    ensures
        chunks@.len() == 1 ==> (r is Ok <==> chunks@[0].size == size),
        chunks@.len() == 2 ==> (r is Ok <==> chunks@[0].size + chunks@[1].size == size),
        chunks@.len() == 0 ==> (r is Ok <==> size == 0),
{
    assert(r is Ok == (size_sum(chunks@) == size));
    reveal_with_fuel(size_sum, 3);
    if chunks@.len() == 2 {
        assert(chunks@.drop_last().last() == chunks@[0]);
    }
}

/// What is larger than fifty mebibytes goes up in pieces, and a piece is never
/// larger than what may go up at once.
pub proof fn law_upload_sizes(encrypted_size: usize, chunked: bool, setting: Option<String>, size: usize)
    requires
        call_ensures(uploads_in_chunks, (encrypted_size,), chunked),
        call_ensures(chunk_size, (&setting,), size),
    ensures
        chunked <==> encrypted_size > 50 * 1024 * 1024,
        0 < size <= 50 * 1024 * 1024,
        setting is None ==> size == 16 * 1024 * 1024,
{
}

/// At least one transfer runs where there is a piece, no more than sixteen, and
/// no more than there are pieces.
pub proof fn law_parallel(wanted: usize, count: usize, up: usize, down: usize)
    requires
        count > 0,
        call_ensures(upload_concurrency, (wanted, count), up),
        call_ensures(download_concurrency, (wanted, count), down),
    ensures
        1 <= up <= 16,
        up <= count,
        1 <= wanted <= 16 && wanted <= count ==> up == wanted,
        down == up,
{
    assert(up == transfers(wanted as int, 16, count as int));
    assert(down == transfers(wanted as int, 16, count as int));
}

/// The blob of a version is in pieces exactly when its key says so.
pub proof fn law_chunked_key(key: &str, stem: Seq<char>, r: bool)
    requires
        call_ensures(is_chunked_blob, (key,), r),
    ensures
        key@ == stem + ".chunks.json"@ ==> r,
        key@.len() > 0 && key@.last() != 'n' ==> !r,
{
    reveal_strlit(".chunks.json");
    if key@ == stem + ".chunks.json"@ {
        assert(key@.skip(stem.len() as int) =~= ".chunks.json"@);
        assert(".chunks.json"@.is_suffix_of(key@));
    }
    if ".chunks.json"@.is_suffix_of(key@) {
        assert(key@.skip(key@.len() - 12) == ".chunks.json"@);
        assert(key@.skip(key@.len() - 12)[11] == key@.last());
    }
}

/// Pieces are as large as the setting says, where it says a size that may go up
/// at once, and as usual else.
pub proof fn law_chunk_size(setting: String, text: &str, number: Option<u64>, r: usize)
    requires
        text@ == setting@,
        call_ensures(parse_unsigned, (text, 10, usize::MAX as u64), number),
        call_ensures(chunk_size, (&Some(setting),), r),
    ensures
        number matches Some(n) ==> 0 < n <= 52428800 ==> r == n,
        number matches Some(n) ==> n == 0 || n > 52428800 ==> r == 16777216,
        number is None ==> r == 16777216,
{
    assert(number is Some == unsigned_value(text@, 10, usize::MAX as nat) is Some);
    assert(opt_text(Some(setting)) == Some(setting@));
}

/// What is told of a failure names what was tried and all that the service said.
pub proof fn law_api_error(action: &str, error: Option<String>, message: Option<String>, r: String)
    requires
        call_ensures(api_error, (action, &error, &message), r),
    ensures
        error matches Some(e) ==> message matches Some(m) ==> r@ == action@ + " failed: "@ + e@ + ": "@ + m@,
        error matches Some(e) ==> message is None ==> r@ == action@ + " failed: "@ + e@,
        error is None ==> (message matches Some(m) ==> r@ == action@ + " failed: "@ + m@),
        error is None && message is None ==> r@ == action@ + " failed"@,
{
    assert(r@ == api_error_text(action@, opt_text(error), opt_text(message)));
}

/// An answer is good exactly when the service says so.
pub proof fn law_answer(action: &str, ok: bool, error: Option<String>, message: Option<String>, r: Result<(), String>)
    requires
        call_ensures(check_answer, (action, ok, &error, &message), r),
    ensures
        r is Ok <==> ok,
{
}

/// There is no version exactly when the service says that it found none.
pub proof fn law_no_version(status: u16, r: bool)
    requires
        call_ensures(says_no_version, (status,), r),
    ensures
        r <==> status == 404,
{
}

/// No more groups are pushed at once than are wanted, nor than there are.
pub proof fn law_groups_at_once(wanted: usize, groups: usize, r: usize)
    requires
        call_ensures(session_uploads, (wanted, groups), r),
    ensures
        r <= wanted && r <= groups && (r == wanted || r == groups),
{
}

/// A hash is shortened to its first twelve characters.
pub proof fn law_short_hash(value: &str, r: String)
    requires
        call_ensures(short_hash, (value,), r),
    ensures
        r@.is_prefix_of(value@),
        value@.len() >= 12 ==> r@.len() == 12,
        value@.len() < 12 ==> r@ == value@,
{
    assert(r@ == shortened(value@));
    assert(value@.take(value@.len() as int) =~= value@);
    assert(r@ =~= value@.take(r@.len() as int));
}

/// An address of the service is the service's own, without slashes at its end,
/// with the path behind it.
pub proof fn law_address(api_url: &str, root: String, slashes: Seq<char>, stem: Seq<char>)
    requires
        api_url@ == stem + slashes,
        stem.len() > 0 && stem.last() != '/',
        forall|i: int| 0 <= i < slashes.len() ==> #[trigger] slashes[i] == '/',
        call_ensures(service_root, (api_url,), root),
    ensures
        root@ == stem,
{
    let s = api_url@;
    assert forall|j: int| stem.len() <= j < s.len() implies only('/')(#[trigger] s[j]) by {
        assert(s[j] == slashes[j - stem.len()]);
    }
    assert(s[stem.len() - 1] == stem.last());
    lemma_kept_len_is(s, only('/'), stem.len() as int);
    assert(root@ =~= stem);
}

/// Without a limit the pages go on, five hundred at a time, until one comes
/// short.
pub proof fn law_all_pages(fetched: usize, done: bool, r: Option<(usize, usize)>, pages: SessionPages)
    requires
        pages == (SessionPages { limit: None, fetched, done }),
        call_ensures(SessionPages::next_page, (&pages,), r),
    ensures
        done ==> r is None,
        !done ==> r == Some((500usize, fetched)),
{
    assert(next_page_size(pages) == 500);
}

} // verus!
