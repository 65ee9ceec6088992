//! Large uploads and downloads in chunks.

use vstd::prelude::*;

use crate::bytes::append_bytes;
use crate::digest::{is_hex_digit, is_sha256_text, sha256_hex, sha256_text};
use crate::envelope::bytes_or_text;
use crate::http::{api_error, api_error_text};
use crate::number::{parse_usize, unsigned_value};
use crate::order::{is_ordered, law_sorted, sort_with, sorted_by};
use crate::text::{chars_of, decimal, decimal_text, ends_with, opt_text, same};

verus! {

pub const MAX_SINGLE_UPLOAD_BYTES: usize = 52428800;

pub const DEFAULT_CHUNK_SIZE_BYTES: usize = 16777216;

pub const MAX_CHUNK_UPLOAD_CONCURRENCY: usize = 16;

pub const MAX_CHUNK_DOWNLOAD_CONCURRENCY: usize = 16;

pub const CHUNK_MANIFEST_SUFFIX: &'static str = ".chunks.json";

/// A chunk of a version: its place, its size and its hash.
pub struct ChunkDescriptor {
    pub index: usize,
    pub size: usize,
    pub sha256: String,
}

/// The size of chunks that a setting asks for, or the usual one.
pub open spec fn chunk_size_of(setting: Option<Seq<char>>) -> int {
    match setting {
        Some(text) => match unsigned_value(text, 10, usize::MAX as nat) {
            Some(n) => if 0 < n <= MAX_SINGLE_UPLOAD_BYTES {
                n as int
            } else {
                DEFAULT_CHUNK_SIZE_BYTES as int
            },
            None => DEFAULT_CHUNK_SIZE_BYTES as int,
        },
        None => DEFAULT_CHUNK_SIZE_BYTES as int,
    }
}

/// The size of chunks that a setting asks for, or the usual one.
pub fn chunk_size(setting: &Option<String>) -> (r: usize)
    ensures
        r == chunk_size_of(opt_text(*setting)),
        0 < r <= MAX_SINGLE_UPLOAD_BYTES,
{
    match setting {
        Some(text) => match parse_usize(text.as_str()) {
            Ok(n) => if 0 < n && n <= MAX_SINGLE_UPLOAD_BYTES {
                n
            } else {
                DEFAULT_CHUNK_SIZE_BYTES
            },
            Err(_) => DEFAULT_CHUNK_SIZE_BYTES,
        },
        None => DEFAULT_CHUNK_SIZE_BYTES,
    }
}

/// Whether a version of that many bytes is uploaded in chunks.
pub fn uploads_in_chunks(encrypted_size: usize) -> (r: bool)
    ensures
        r == (encrypted_size > MAX_SINGLE_UPLOAD_BYTES),
{
    encrypted_size > MAX_SINGLE_UPLOAD_BYTES
}

/// Whether a version was uploaded in chunks.
pub fn is_chunked_blob(blob_key: &str) -> (r: bool)
    ensures
        r == CHUNK_MANIFEST_SUFFIX@.is_suffix_of(blob_key@),
{
    ends_with(blob_key, CHUNK_MANIFEST_SUFFIX)
}

/// Bytes cut into chunks of a size, the last one possibly shorter.
pub open spec fn chunks_of(bytes: Seq<u8>, size: int) -> Seq<Seq<u8>>
    decreases bytes.len(),
{
    if size <= 0 || bytes.len() == 0 {
        Seq::empty()
    } else if bytes.len() <= size {
        seq![bytes]
    } else {
        seq![bytes.take(size)] + chunks_of(bytes.skip(size), size)
    }
}

/// Chunks one after the other.
pub open spec fn concatenated(chunks: Seq<Seq<u8>>) -> Seq<u8>
    decreases chunks.len(),
{
    if chunks.len() == 0 {
        Seq::empty()
    } else {
        concatenated(chunks.drop_last()) + chunks.last()
    }
}

proof fn lemma_concatenated_first(chunks: Seq<Seq<u8>>)
    requires
        chunks.len() > 0,
    ensures
        concatenated(chunks) == chunks[0] + concatenated(chunks.skip(1)),
    decreases chunks.len(),
{
    if chunks.len() == 1 {
        assert(chunks.drop_last() =~= Seq::empty());
        assert(chunks.skip(1) =~= Seq::empty());
        assert(concatenated(Seq::<Seq<u8>>::empty()) =~= Seq::<u8>::empty());
        assert(chunks.drop_last() =~= Seq::<Seq<u8>>::empty());
        assert(concatenated(chunks) =~= chunks[0]);
        assert(chunks[0] + concatenated(chunks.skip(1)) =~= chunks[0]);
    } else {
        lemma_concatenated_first(chunks.drop_last());
        assert(chunks.drop_last().skip(1) =~= chunks.skip(1).drop_last());
        assert(concatenated(chunks) =~= chunks[0] + (concatenated(chunks.skip(1).drop_last()) + chunks.last()));
    }
}

/// The chunks one after the other are the bytes that were cut.
pub proof fn law_chunks_rejoin(bytes: Seq<u8>, size: int)
    requires
        size > 0,
    ensures
        concatenated(chunks_of(bytes, size)) == bytes,
    decreases bytes.len(),
{
    let chunks = chunks_of(bytes, size);
    if bytes.len() > size {
        law_chunks_rejoin(bytes.skip(size), size);
        assert(chunks.skip(1) =~= chunks_of(bytes.skip(size), size));
        lemma_concatenated_first(chunks);
        assert(bytes.take(size) + bytes.skip(size) =~= bytes);
    } else if bytes.len() > 0 {
        assert(chunks.skip(1) =~= Seq::empty());
        lemma_concatenated_first(chunks);
        assert(concatenated(chunks) =~= bytes);
    } else {
        assert(concatenated(chunks) =~= bytes);
    }
}

/// The number of chunks of a size that bytes are cut into.
pub open spec fn chunk_total(len: int, size: int) -> int {
    if len % size == 0 {
        len / size
    } else {
        len / size + 1
    }
}

/// Whether a chunk is the part of the bytes at its place.
pub open spec fn stands_at(chunk: Seq<u8>, bytes: Seq<u8>, size: int, index: int) -> bool {
    let start = index * size;
    let end = if start + size <= bytes.len() {
        start + size
    } else {
        bytes.len() as int
    };
    0 <= start < bytes.len() && chunk == bytes.subrange(start, end)
}

/// There are as many chunks as the length asks for, and each is the part of
/// the bytes that its place says.
pub proof fn law_chunk_places(bytes: Seq<u8>, size: int)
    requires
        size > 0,
    ensures
        chunks_of(bytes, size).len() == chunk_total(bytes.len() as int, size),
        forall|i: int|
            0 <= i < chunks_of(bytes, size).len() ==> stands_at(#[trigger] chunks_of(bytes, size)[i], bytes, size, i),
    decreases bytes.len(),
{
    let chunks = chunks_of(bytes, size);
    let len = bytes.len() as int;
    assert(0 * size == 0) by (nonlinear_arith);
    if len > size {
        let rest = bytes.skip(size);
        law_chunk_places(rest, size);
        assert(chunk_total(len, size) == chunk_total(len - size, size) + 1) by (nonlinear_arith)
            requires
                size > 0,
                len > size,
        ;
        assert forall|i: int| 0 <= i < chunks.len() implies stands_at(#[trigger] chunks[i], bytes, size, i) by {
            if i == 0 {
                assert(bytes.take(size) =~= bytes.subrange(0, size));
            } else {
                let j = i - 1;
                assert(chunks[i] == chunks_of(rest, size)[j]);
                assert((j + 1) * size == j * size + size) by (nonlinear_arith);
                let end = if j * size + size <= rest.len() {
                    j * size + size
                } else {
                    rest.len() as int
                };
                assert(rest.subrange(j * size, end) =~= bytes.subrange(j * size + size, end + size));
            }
        }
    } else if len > 0 {
        assert(chunk_total(len, size) == 1) by (nonlinear_arith)
            requires
                0 < len <= size,
        ;
        assert(bytes.subrange(0, len) =~= bytes);
        assert(stands_at(chunks[0], bytes, size, 0));
    } else {
        assert(chunk_total(0, size) == 0) by (nonlinear_arith)
            requires
                size > 0,
        ;
    }
}

/// The number of chunks of a size that bytes are cut into.
pub fn chunk_count(len: usize, size: usize) -> (r: usize)
    requires
        size > 0,
    ensures
        r == chunk_total(len as int, size as int),
{
    if len % size == 0 {
        len / size
    } else {
        assert(len / size < usize::MAX) by (nonlinear_arith)
            requires
                size > 0,
                len % size != 0,
                len <= usize::MAX,
        ;
        len / size + 1
    }
}

/// The chunk at a place.
pub fn chunk_at<'a>(bytes: &'a [u8], size: usize, index: usize) -> (r: &'a [u8])
    requires
        size > 0,
        index < chunk_total(bytes@.len() as int, size as int),
    ensures
        r@ == chunks_of(bytes@, size as int)[index as int],
{
    proof {
        law_chunk_places(bytes@, size as int);
        assert(stands_at(chunks_of(bytes@, size as int)[index as int], bytes@, size as int, index as int));
    }
    let len: usize = bytes.len();
    let start: usize = index * size;
    let end: usize = if size <= len - start {
        start + size
    } else {
        len
    };
    vstd::slice::slice_subrange(bytes, start, end)
}

/// Whether a descriptor is that of the chunk at a place.
pub open spec fn describes(descriptor: ChunkDescriptor, index: usize, chunk: Seq<u8>) -> bool {
    &&& descriptor.index == index
    &&& descriptor.size == chunk.len()
    &&& descriptor.sha256@ == sha256_text(chunk)
}

/// The descriptor of the chunk at a place.
pub fn describe_chunk(index: usize, chunk: &[u8]) -> (r: ChunkDescriptor)
    ensures
        describes(r, index, chunk@),
        is_sha256_text(r.sha256@),
{
    ChunkDescriptor { index, size: chunk.len(), sha256: sha256_hex(chunk) }
}

/// How many transfers run at a time.
pub open spec fn transfers(wanted: int, most: int, count: int) -> int {
    let at_least = if wanted < 1 { 1 } else { wanted };
    let capped = if at_least > most { most } else { at_least };
    if capped > count {
        count
    } else {
        capped
    }
}

fn transfer_count(wanted: usize, most: usize, count: usize) -> (r: usize)
    ensures
        r == transfers(wanted as int, most as int, count as int),
{
    let at_least: usize = if wanted < 1 { 1 } else { wanted };
    let capped: usize = if at_least > most { most } else { at_least };
    if capped > count {
        count
    } else {
        capped
    }
}

/// How many chunks are uploaded at a time.
pub fn upload_concurrency(wanted: usize, chunk_count: usize) -> (r: usize)
    ensures
        r == transfers(wanted as int, MAX_CHUNK_UPLOAD_CONCURRENCY as int, chunk_count as int),
{
    transfer_count(wanted, MAX_CHUNK_UPLOAD_CONCURRENCY, chunk_count)
}

/// How many chunks are downloaded at a time.
pub fn download_concurrency(wanted: usize, chunk_count: usize) -> (r: usize)
    ensures
        r == transfers(wanted as int, MAX_CHUNK_DOWNLOAD_CONCURRENCY as int, chunk_count as int),
{
    transfer_count(wanted, MAX_CHUNK_DOWNLOAD_CONCURRENCY, chunk_count)
}

/// As long as there is something to transfer, something is transferred.
pub proof fn law_transfers_progress(wanted: int, most: int, count: int)
    requires
        most >= 1,
        count >= 1,
    ensures
        1 <= transfers(wanted, most, count) <= most,
        transfers(wanted, most, count) <= count,
{
}

/// What is wrong with the descriptor at a place.
pub open spec fn descriptor_fault(chunk: ChunkDescriptor, index: int) -> Option<Seq<char>> {
    if chunk.index != index {
        Some(
            "chunk manifest index mismatch: expected "@ + decimal(index as nat) + ", got "@ + decimal(
                chunk.index as nat,
            ),
        )
    } else if chunk.size == 0 {
        Some("chunk manifest has empty chunk "@ + decimal(chunk.index as nat))
    } else if !is_sha256_text(chunk.sha256@) {
        Some("chunk manifest has invalid sha256 for chunk "@ + decimal(chunk.index as nat))
    } else {
        None
    }
}

/// What is wrong with the first descriptor that is not in order, from a place
/// on.
pub open spec fn first_fault(chunks: Seq<ChunkDescriptor>, from: int) -> Option<Seq<char>>
    decreases chunks.len() - from,
{
    if from < 0 || from >= chunks.len() {
        None
    } else {
        match descriptor_fault(chunks[from], from) {
            Some(fault) => Some(fault),
            None => first_fault(chunks, from + 1),
        }
    }
}

/// What is wrong with a list of chunks.
pub open spec fn manifest_fault(chunks: Seq<ChunkDescriptor>) -> Option<Seq<char>> {
    if chunks.len() == 0 {
        Some("chunk manifest is empty"@)
    } else {
        first_fault(chunks, 0)
    }
}

/// Whether a call went well, or failed with a text.
pub open spec fn failed_with(r: Result<(), String>) -> Option<Seq<char>> {
    match r {
        Ok(()) => None,
        Err(error) => Some(error@),
    }
}

fn is_sha256(text: &str) -> (r: bool)
    ensures
        r == is_sha256_text(text@),
{
    let chars = chars_of(text);
    if chars.len() != 64 {
        return false;
    }
    for i in 0..chars.len()
        invariant
            chars@ == text@,
            chars@.len() == 64,
            forall|j: int| 0 <= j < i ==> is_hex_digit(#[trigger] text@[j]),
    {
        let c = chars[i];
        if !(('0' <= c && c <= '9') || ('a' <= c && c <= 'f') || ('A' <= c && c <= 'F')) {
            assert(!is_hex_digit(text@[i as int]));
            return false;
        }
    }
    true
}

fn check_descriptor(chunk: &ChunkDescriptor, index: usize) -> (r: Result<(), String>)
    ensures
        failed_with(r) == descriptor_fault(*chunk, index as int),
{
    if chunk.index != index {
        return Err(
            "chunk manifest index mismatch: expected ".to_owned().concat(decimal_text(index as u128).as_str()).concat(
                ", got ",
            ).concat(decimal_text(chunk.index as u128).as_str()),
        );
    }
    if chunk.size == 0 {
        return Err("chunk manifest has empty chunk ".to_owned().concat(decimal_text(chunk.index as u128).as_str()));
    }
    if !is_sha256(chunk.sha256.as_str()) {
        return Err(
            "chunk manifest has invalid sha256 for chunk ".to_owned().concat(
                decimal_text(chunk.index as u128).as_str(),
            ),
        );
    }
    Ok(())
}

/// Whether a list of chunks is in order: the chunks are numbered from zero on,
/// none is empty, and each has a hash.
pub fn validate_chunk_descriptors(chunks: &Vec<ChunkDescriptor>) -> (r: Result<(), String>)
    ensures
        failed_with(r) == manifest_fault(chunks@),
{
    if chunks.len() == 0 {
        return Err("chunk manifest is empty".to_owned());
    }
    for i in 0..chunks.len()
        invariant
            chunks@.len() > 0,
            first_fault(chunks@, 0) == first_fault(chunks@, i as int),
    {
        let r = check_descriptor(&chunks[i], i);
        if r.is_err() {
            return r;
        }
    }
    Ok(())
}

/// The list of chunks that the service answered with.
pub fn described_chunks(
    ok: bool,
    chunks: Option<Vec<ChunkDescriptor>>,
    error: &Option<String>,
    message: &Option<String>,
) -> (r: Result<Vec<ChunkDescriptor>, String>)
    ensures
        match r {
            Ok(described) => ok && chunks == Some(described) && manifest_fault(described@) is None,
            Err(e) => if !ok {
                e@ == api_error_text("get chunk manifest"@, opt_text(*error), opt_text(*message))
            } else {
                match chunks {
                    Some(described) => manifest_fault(described@) == Some(e@),
                    None => e@ == "get chunk manifest failed: missing chunks"@,
                }
            },
        },
{
    if !ok {
        return Err(api_error("get chunk manifest", error, message));
    }
    match chunks {
        Some(described) => match validate_chunk_descriptors(&described) {
            Ok(()) => Ok(described),
            Err(e) => Err(e),
        },
        None => Err("get chunk manifest failed: missing chunks".to_owned()),
    }
}

proof fn lemma_no_fault(chunks: Seq<ChunkDescriptor>, from: int)
    requires
        0 <= from <= chunks.len(),
        forall|i: int| 0 <= i < chunks.len() ==> descriptor_fault(#[trigger] chunks[i], i) is None,
    ensures
        first_fault(chunks, from) is None,
    decreases chunks.len() - from,
{
    if from < chunks.len() {
        lemma_no_fault(chunks, from + 1);
        assert(descriptor_fault(chunks[from], from) is None);
    }
}

/// Whether the descriptors are those of the chunks.
pub open spec fn describe(descriptors: Seq<ChunkDescriptor>, chunks: Seq<Seq<u8>>) -> bool {
    &&& descriptors.len() == chunks.len()
    &&& forall|i: int|
        0 <= i < chunks.len() ==> describes(#[trigger] descriptors[i], i as usize, chunks[i]) && is_sha256_text(
            descriptors[i].sha256@,
        )
}

/// The descriptors of what bytes were cut into are in order, and their sizes
/// add up to the length.
pub proof fn law_uploaded_manifest_is_valid(bytes: Seq<u8>, size: int, descriptors: Seq<ChunkDescriptor>)
    requires
        size > 0,
        0 < bytes.len() <= usize::MAX,
        describe(descriptors, chunks_of(bytes, size)),
    ensures
        manifest_fault(descriptors) is None,
        size_sum(descriptors) == bytes.len(),
{
    law_chunk_places(bytes, size);
    let chunks = chunks_of(bytes, size);
    assert(chunk_total(bytes.len() as int, size) <= bytes.len()) by (nonlinear_arith)
        requires
            size > 0,
            bytes.len() > 0,
    ;
    assert(chunk_total(bytes.len() as int, size) > 0) by (nonlinear_arith)
        requires
            size > 0,
            bytes.len() > 0,
    ;
    assert forall|i: int| 0 <= i < descriptors.len() implies descriptor_fault(
        #[trigger] descriptors[i],
        i,
    ) is None by {
        assert(describes(descriptors[i], i as usize, chunks[i]));
        assert(stands_at(chunks[i], bytes, size, i));
    }
    lemma_no_fault(descriptors, 0);
    lemma_size_sum(descriptors, chunks);
    law_chunks_rejoin(bytes, size);
}

/// The bytes that a list of chunks stands for.
pub open spec fn size_sum(chunks: Seq<ChunkDescriptor>) -> nat
    decreases chunks.len(),
{
    if chunks.len() == 0 {
        0
    } else {
        size_sum(chunks.drop_last()) + chunks.last().size as nat
    }
}

proof fn lemma_size_sum(descriptors: Seq<ChunkDescriptor>, chunks: Seq<Seq<u8>>)
    requires
        describe(descriptors, chunks),
    ensures
        size_sum(descriptors) == concatenated(chunks).len(),
    decreases chunks.len(),
{
    if chunks.len() > 0 {
        let before = descriptors.drop_last();
        assert forall|i: int| 0 <= i < chunks.drop_last().len() implies describes(
            #[trigger] before[i],
            i as usize,
            chunks.drop_last()[i],
        ) && is_sha256_text(before[i].sha256@) by {
            assert(before[i] == descriptors[i]);
        }
        lemma_size_sum(before, chunks.drop_last());
        assert(describes(descriptors[chunks.len() - 1], (chunks.len() - 1) as usize, chunks[chunks.len() - 1]));
    }
}

proof fn lemma_size_sum_bound(chunks: Seq<ChunkDescriptor>)
    ensures
        size_sum(chunks) <= chunks.len() * usize::MAX,
    decreases chunks.len(),
{
    if chunks.len() > 0 {
        lemma_size_sum_bound(chunks.drop_last());
        assert((chunks.len() - 1) * usize::MAX + usize::MAX == chunks.len() * usize::MAX) by (nonlinear_arith);
    }
}

fn total_size(chunks: &Vec<ChunkDescriptor>) -> (r: u128)
    ensures
        r == size_sum(chunks@),
{
    let mut total: u128 = 0;
    for i in 0..chunks.len()
        invariant
            total == size_sum(chunks@.take(i as int)),
    {
        assert(chunks@.take(i + 1).drop_last() =~= chunks@.take(i as int));
        proof {
            lemma_size_sum_bound(chunks@.take(i as int));
            let n = i as nat;
            assert(n * usize::MAX + usize::MAX <= u128::MAX) by (nonlinear_arith)
                requires
                    n < usize::MAX,
                    usize::MAX <= u64::MAX,
            ;
        }
        total = total + chunks[i].size as u128;
    }
    assert(chunks@.take(chunks@.len() as int) =~= chunks@);
    total
}

/// Whether the chunks stand for as many bytes as the version has.
pub fn check_manifest_size(chunks: &Vec<ChunkDescriptor>, encrypted_size: usize) -> (r: Result<(), String>)
    ensures
        failed_with(r) == (if size_sum(chunks@) == encrypted_size {
            None
        } else {
            Some(
                "chunk manifest encrypted size mismatch: expected "@ + decimal(encrypted_size as nat) + ", got "@
                    + decimal(size_sum(chunks@)),
            )
        }),
{
    let total = total_size(chunks);
    if total != encrypted_size as u128 {
        return Err(
            "chunk manifest encrypted size mismatch: expected ".to_owned().concat(
                decimal_text(encrypted_size as u128).as_str(),
            ).concat(", got ").concat(decimal_text(total).as_str()),
        );
    }
    Ok(())
}

/// What is wrong with the bytes of a chunk, given their hash.
pub open spec fn chunk_fault(descriptor: ChunkDescriptor, size: int, sha256: Seq<char>) -> Option<Seq<char>> {
    if size != descriptor.size {
        Some(
            "downloaded chunk "@ + decimal(descriptor.index as nat) + " size mismatch: expected "@ + decimal(
                descriptor.size as nat,
            ) + ", got "@ + decimal(size as nat),
        )
    } else if sha256 != descriptor.sha256@ {
        Some("downloaded chunk "@ + decimal(descriptor.index as nat) + " hash mismatch"@)
    } else {
        None
    }
}

/// Whether bytes of that size and hash are the chunk.
pub fn check_chunk_facts(descriptor: &ChunkDescriptor, size: usize, sha256: &str) -> (r: Result<(), String>)
    ensures
        failed_with(r) == chunk_fault(*descriptor, size as int, sha256@),
{
    let index = decimal_text(descriptor.index as u128);
    if size != descriptor.size {
        return Err(
            "downloaded chunk ".to_owned().concat(index.as_str()).concat(" size mismatch: expected ").concat(
                decimal_text(descriptor.size as u128).as_str(),
            ).concat(", got ").concat(decimal_text(size as u128).as_str()),
        );
    }
    if !same(sha256, descriptor.sha256.as_str()) {
        return Err("downloaded chunk ".to_owned().concat(index.as_str()).concat(" hash mismatch"));
    }
    Ok(())
}

/// Whether bytes are the chunk.
pub fn check_chunk(descriptor: &ChunkDescriptor, bytes: &[u8]) -> (r: Result<(), String>)
    ensures
        failed_with(r) == chunk_fault(*descriptor, bytes@.len() as int, sha256_text(bytes@)),
{
    let sha256 = sha256_hex(bytes);
    check_chunk_facts(descriptor, bytes.len(), sha256.as_str())
}

/// A chunk passes the check against its own descriptor.
pub proof fn law_described_chunk_passes(descriptor: ChunkDescriptor, index: usize, chunk: Seq<u8>)
    requires
        describes(descriptor, index, chunk),
    ensures
        chunk_fault(descriptor, chunk.len() as int, sha256_text(chunk)) is None,
{
}

/// The order of chunks by their places.
pub open spec fn by_index() -> spec_fn((usize, Vec<u8>), (usize, Vec<u8>)) -> bool {
    |a: (usize, Vec<u8>), b: (usize, Vec<u8>)| a.0 <= b.0
}

/// The bytes of chunks.
pub open spec fn chunk_bytes(chunks: Seq<(usize, Vec<u8>)>) -> Seq<Seq<u8>> {
    chunks.map_values(|chunk: (usize, Vec<u8>)| chunk.1@)
}

/// The first place, from one on, at which another chunk stands.
pub open spec fn first_misplaced(chunks: Seq<(usize, Vec<u8>)>, from: int) -> Option<int>
    decreases chunks.len() - from,
{
    if from < 0 || from >= chunks.len() {
        None
    } else if chunks[from].0 != from {
        Some(from)
    } else {
        first_misplaced(chunks, from + 1)
    }
}

/// What downloaded chunks are put together to, or why they do not fit.
pub open spec fn assembled(chunks: Seq<(usize, Vec<u8>)>, encrypted_size: int) -> Result<Seq<u8>, Seq<char>> {
    let ordered = sorted_by(chunks, by_index());
    let bytes = concatenated(chunk_bytes(ordered));
    match first_misplaced(ordered, 0) {
        Some(index) => Err("chunk download result order mismatch at index "@ + decimal(index as nat)),
        None => if bytes.len() != encrypted_size {
            Err(
                "downloaded encrypted size mismatch: expected "@ + decimal(encrypted_size as nat) + ", got "@ + decimal(
                    bytes.len(),
                ),
            )
        } else {
            Ok(bytes)
        },
    }
}

/// Puts downloaded chunks together.
pub fn assemble_chunks(chunks: Vec<(usize, Vec<u8>)>, encrypted_size: usize) -> (r: Result<Vec<u8>, String>)
    ensures
        bytes_or_text(r) == assembled(chunks@, encrypted_size as int),
{
    let f = |a: &(usize, Vec<u8>), b: &(usize, Vec<u8>)| -> (r: bool)
        ensures
            r == by_index()(*a, *b),
        { a.0 <= b.0 };
    let ordered = sort_with(chunks, f, Ghost(by_index()));
    let mut bytes: Vec<u8> = Vec::new();
    for i in 0..ordered.len()
        invariant
            ordered@ == sorted_by(chunks@, by_index()),
            first_misplaced(ordered@, 0) == first_misplaced(ordered@, i as int),
            bytes@ == concatenated(chunk_bytes(ordered@.take(i as int))),
    {
        if ordered[i].0 != i {
            return Err(
                "chunk download result order mismatch at index ".to_owned().concat(decimal_text(i as u128).as_str()),
            );
        }
        append_bytes(&mut bytes, ordered[i].1.as_slice());
        assert(chunk_bytes(ordered@.take(i + 1)).drop_last() =~= chunk_bytes(ordered@.take(i as int)));
        assert(chunk_bytes(ordered@.take(i + 1)).last() == ordered@[i as int].1@);
    }
    assert(ordered@.take(ordered@.len() as int) =~= ordered@);
    if bytes.len() != encrypted_size {
        return Err(
            "downloaded encrypted size mismatch: expected ".to_owned().concat(
                decimal_text(encrypted_size as u128).as_str(),
            ).concat(", got ").concat(decimal_text(bytes.len() as u128).as_str()),
        );
    }
    Ok(bytes)
}

/// Whether each of the chunks was downloaded once, in whatever order.
pub open spec fn all_downloaded(results: Seq<(usize, Vec<u8>)>, chunks: Seq<Seq<u8>>) -> bool {
    &&& results.len() == chunks.len()
    &&& forall|i: int|
        0 <= i < results.len() ==> (#[trigger] results[i]).0 < chunks.len() && results[i].1@
            == chunks[results[i].0 as int]
    &&& forall|i: int, j: int| 0 <= i < j < results.len() ==> (#[trigger] results[i]).0 != (#[trigger] results[j]).0
}

proof fn lemma_ordered_chunks(results: Seq<(usize, Vec<u8>)>, chunks: Seq<Seq<u8>>)
    requires
        all_downloaded(results, chunks),
    ensures
        all_downloaded(sorted_by(results, by_index()), chunks),
        is_ordered(sorted_by(results, by_index()), by_index()),
{
    let ordered = sorted_by(results, by_index());
    law_sorted(results, by_index());
    assert(results.no_duplicates());
    results.lemma_multiset_has_no_duplicates();
    ordered.lemma_multiset_has_no_duplicates_conv();
    broadcast use vstd::seq_lib::group_to_multiset_ensures;

    assert forall|i: int| 0 <= i < ordered.len() implies results.contains(#[trigger] ordered[i]) by {
        assert(ordered.to_multiset().count(ordered[i]) > 0);
        assert(results.to_multiset().count(ordered[i]) > 0);
    }
    assert forall|i: int| 0 <= i < ordered.len() implies (#[trigger] ordered[i]).0 < chunks.len() && ordered[i].1@
        == chunks[ordered[i].0 as int] by {
        assert(results.contains(ordered[i]));
        let k = choose|k: int| 0 <= k < results.len() && results[k] == ordered[i];
        assert(results[k].0 < chunks.len());
    }
    assert forall|i: int, j: int| 0 <= i < j < ordered.len() implies (#[trigger] ordered[i]).0 != (
    #[trigger] ordered[j]).0 by {
        assert(results.contains(ordered[i]) && results.contains(ordered[j]));
        let k = choose|k: int| 0 <= k < results.len() && results[k] == ordered[i];
        let m = choose|m: int| 0 <= m < results.len() && results[m] == ordered[j];
        assert(ordered[i] != ordered[j]);
        if k < m {
            assert(results[k].0 != results[m].0);
        } else if m < k {
            assert(results[m].0 != results[k].0);
        }
    }
}

proof fn lemma_ascending_from_below(ordered: Seq<(usize, Vec<u8>)>, i: int)
    requires
        is_ordered(ordered, by_index()),
        forall|i: int, j: int|
            0 <= i < j < ordered.len() ==> (#[trigger] ordered[i]).0 != (#[trigger] ordered[j]).0,
        0 <= i < ordered.len(),
    ensures
        ordered[i].0 >= i,
    decreases i,
{
    if i > 0 {
        lemma_ascending_from_below(ordered, i - 1);
        assert(by_index()(ordered[i - 1], ordered[i]));
        assert(ordered[i - 1].0 != ordered[i].0);
    }
}

proof fn lemma_ascending_from_above(ordered: Seq<(usize, Vec<u8>)>, i: int)
    requires
        is_ordered(ordered, by_index()),
        forall|i: int, j: int|
            0 <= i < j < ordered.len() ==> (#[trigger] ordered[i]).0 != (#[trigger] ordered[j]).0,
        forall|i: int| 0 <= i < ordered.len() ==> (#[trigger] ordered[i]).0 < ordered.len(),
        0 <= i < ordered.len(),
    ensures
        ordered[i].0 <= i,
    decreases ordered.len() - i,
{
    if i + 1 < ordered.len() {
        lemma_ascending_from_above(ordered, i + 1);
        assert(by_index()(ordered[i], ordered[i + 1]));
        assert(ordered[i].0 != ordered[i + 1].0);
    }
}

proof fn lemma_none_misplaced(ordered: Seq<(usize, Vec<u8>)>, from: int)
    requires
        0 <= from <= ordered.len(),
        forall|i: int| 0 <= i < ordered.len() ==> (#[trigger] ordered[i]).0 == i,
    ensures
        first_misplaced(ordered, from) is None,
    decreases ordered.len() - from,
{
    if from < ordered.len() {
        assert(ordered[from].0 == from);
        lemma_none_misplaced(ordered, from + 1);
    }
}

/// Whatever the order in which the chunks of a version came, they are put
/// together to its bytes.
pub proof fn law_assemble_undoes_cut(bytes: Seq<u8>, size: int, results: Seq<(usize, Vec<u8>)>)
    requires
        size > 0,
        all_downloaded(results, chunks_of(bytes, size)),
    ensures
        assembled(results, bytes.len() as int) == Ok::<Seq<u8>, Seq<char>>(bytes),
{
    let chunks = chunks_of(bytes, size);
    let ordered = sorted_by(results, by_index());
    lemma_ordered_chunks(results, chunks);
    assert forall|i: int| 0 <= i < ordered.len() implies (#[trigger] ordered[i]).0 == i by {
        lemma_ascending_from_below(ordered, i);
        lemma_ascending_from_above(ordered, i);
    }
    lemma_none_misplaced(ordered, 0);
    assert forall|i: int| 0 <= i < chunks.len() implies chunk_bytes(ordered)[i] == chunks[i] by {
        assert(ordered[i].0 == i);
    }
    assert(chunk_bytes(ordered) =~= chunks);
    law_chunks_rejoin(bytes, size);
}

/// What is said before an upload in chunks.
pub fn chunked_upload_text(session_id: &str, size: usize, count: usize, chunk_size: usize, concurrency: usize) -> (r:
    String)
    ensures
        r@ == "chunked upload "@ + session_id@ + ": "@ + decimal(size as nat) + " bytes in "@ + decimal(count as nat)
            + " chunk(s) of up to "@ + decimal(chunk_size as nat) + " bytes, "@ + decimal(concurrency as nat)
            + " parallel upload(s)"@,
{
    "chunked upload ".to_owned().concat(session_id).concat(": ").concat(decimal_text(size as u128).as_str()).concat(
        " bytes in ",
    ).concat(decimal_text(count as u128).as_str()).concat(" chunk(s) of up to ").concat(
        decimal_text(chunk_size as u128).as_str(),
    ).concat(" bytes, ").concat(decimal_text(concurrency as u128).as_str()).concat(" parallel upload(s)")
}

/// What is said before a download in chunks.
pub fn chunked_download_text(session_id: &str, size: usize, count: usize, concurrency: usize) -> (r: String)
    ensures
        r@ == "chunked download "@ + session_id@ + ": "@ + decimal(size as nat) + " bytes in "@ + decimal(count as nat)
            + " chunk(s), "@ + decimal(concurrency as nat) + " parallel download(s)"@,
{
    "chunked download ".to_owned().concat(session_id).concat(": ").concat(decimal_text(size as u128).as_str()).concat(
        " bytes in ",
    ).concat(decimal_text(count as u128).as_str()).concat(" chunk(s), ").concat(
        decimal_text(concurrency as u128).as_str(),
    ).concat(" parallel download(s)")
}

/// What is said of a chunk that was uploaded or downloaded.
pub fn chunk_done_text(done: &str, index: usize, count: usize, session_id: &str) -> (r: String)
    requires
        index < usize::MAX,
    ensures
        r@ == done@ + " chunk "@ + decimal((index + 1) as nat) + "/"@ + decimal(count as nat) + " for "@ + session_id@,
{
    done.to_owned().concat(" chunk ").concat(decimal_text((index + 1) as u128).as_str()).concat("/").concat(
        decimal_text(count as u128).as_str(),
    ).concat(" for ").concat(session_id)
}

} // verus!
