//! Requests to the sync service: where they go, when they are repeated, and
//! what their failures are called.

use vstd::prelude::*;
use vstd::utf8::*;

use crate::envelope::{base64_bytes, base64_text, encode_base64, is_bytes};
use crate::number::{parse_unsigned, parse_usize, unsigned_value};
use crate::text::{decimal, decimal_text, opt_text};

verus! {

pub const USER_AGENT_VALUE: &'static str = "codex-tools-cloud-sync/0.1.1";

pub const DEFAULT_HTTP_RETRIES: usize = 4;

pub const DEFAULT_HTTP_TIMEOUT_SECS: u64 = 180;

pub const DEFAULT_HTTP_CONNECT_TIMEOUT_SECS: u64 = 20;

pub const MAX_SESSION_LIST_PAGE_SIZE: usize = 500;

/// The seconds that a setting asks for, or the usual number.
pub fn timeout_secs(setting: &Option<String>, usual: u64) -> (r: u64)
    ensures
        r == match opt_text(*setting) {
            Some(text) => match unsigned_value(text, 10, u64::MAX as nat) {
                Some(n) => n as int,
                None => usual as int,
            },
            None => usual as int,
        },
{
    match setting {
        Some(text) => match parse_unsigned(text.as_str(), 10, u64::MAX) {
            Some(n) => n,
            None => usual,
        },
        None => usual,
    }
}

/// The number of retries that a setting asks for, or the usual one.
pub open spec fn retries_of(setting: Option<Seq<char>>) -> int {
    match setting {
        Some(text) => match unsigned_value(text, 10, usize::MAX as nat) {
            Some(n) => n as int,
            None => DEFAULT_HTTP_RETRIES as int,
        },
        None => DEFAULT_HTTP_RETRIES as int,
    }
}

/// How often a request is sent at most: once, and once for each retry.
pub fn max_attempts(setting: &Option<String>) -> (r: usize)
    ensures
        r == (if retries_of(opt_text(*setting)) < usize::MAX {
            retries_of(opt_text(*setting)) + 1
        } else {
            usize::MAX as int
        }),
        r >= 1,
{
    let retries: usize = match setting {
        Some(text) => match parse_usize(text.as_str()) {
            Ok(n) => n,
            Err(_) => DEFAULT_HTTP_RETRIES,
        },
        None => DEFAULT_HTTP_RETRIES,
    };
    if retries < usize::MAX {
        retries + 1
    } else {
        usize::MAX
    }
}

/// Whether an answer of that status may be another one the next time.
pub open spec fn is_retryable_status(status: u16) -> bool {
    ||| status == 408
    ||| status == 425
    ||| status == 429
    ||| status == 500
    ||| 502 <= status <= 504
    ||| 520 <= status <= 526
}

/// Whether an answer of that status may be another one the next time.
pub fn should_retry_status(status: u16) -> (r: bool)
    ensures
        r == is_retryable_status(status),
{
    status == 408 || status == 425 || status == 429 || status == 500 || (502 <= status && status <= 504) || (520
        <= status && status <= 526)
}

/// What a request that got no answer failed on.
pub struct NetworkFault {
    pub timeout: bool,
    pub connect: bool,
    pub request: bool,
    pub body: bool,
    pub text: String,
}

pub open spec fn is_retryable_fault(fault: NetworkFault) -> bool {
    fault.timeout || fault.connect || fault.request || fault.body
}

pub open spec fn fault_kind(fault: NetworkFault) -> Seq<char> {
    if fault.timeout {
        "network timeout"@
    } else if fault.connect {
        "network connect/TLS failure"@
    } else if fault.body {
        "network stream/body interrupted"@
    } else if fault.request {
        "network request failure"@
    } else {
        "network failure"@
    }
}

pub open spec fn fault_message(fault: NetworkFault) -> Seq<char> {
    fault_kind(fault) + ": "@ + fault.text@
        + ". This can happen before the request reaches the Worker, so the server may not show an error log. Retry, or set HTTP_PROXY/HTTPS_PROXY if your network needs a proxy."@
}

/// What a request that got no answer is said to have failed on.
pub fn network_error_message(fault: &NetworkFault) -> (r: String)
    ensures
        r@ == fault_message(*fault),
{
    let kind = if fault.timeout {
        "network timeout"
    } else if fault.connect {
        "network connect/TLS failure"
    } else if fault.body {
        "network stream/body interrupted"
    } else if fault.request {
        "network request failure"
    } else {
        "network failure"
    };
    kind.to_owned().concat(": ").concat(fault.text.as_str()).concat(
        ". This can happen before the request reaches the Worker, so the server may not show an error log. Retry, or set HTTP_PROXY/HTTPS_PROXY if your network needs a proxy.",
    )
}

/// How an attempt to send a request ended.
pub enum Attempt {
    Answered { status: u16, status_text: String },
    Failed { fault: NetworkFault },
}

/// What follows an attempt.
pub enum AfterAttempt {
    /// To say the text, wait, and send the request again.
    Again { notice: String, wait_ms: u64 },
    /// To take the answer.
    Take,
    /// To give up.
    GiveUp { error: String },
}

/// The milliseconds to wait after an attempt: half a second, twice as long
/// after each further one, at most eight seconds.
pub open spec fn wait_after(attempt: int) -> int {
    if attempt <= 1 {
        500
    } else if attempt == 2 {
        1000
    } else if attempt == 3 {
        2000
    } else if attempt == 4 {
        4000
    } else {
        8000
    }
}

pub fn retry_wait_ms(attempt: usize) -> (r: u64)
    ensures
        r == wait_after(attempt as int),
{
    if attempt <= 1 {
        500
    } else if attempt == 2 {
        1000
    } else if attempt == 3 {
        2000
    } else if attempt == 4 {
        4000
    } else {
        8000
    }
}

/// Whether the request is sent again.
pub open spec fn is_sent_again(outcome: Attempt, attempt: int, max: int) -> bool {
    attempt < max && match outcome {
        Attempt::Answered { status, .. } => is_retryable_status(status),
        Attempt::Failed { fault } => is_retryable_fault(fault),
    }
}

/// What is said of an attempt before the next one.
pub open spec fn attempt_notice(action: Seq<char>, outcome: Attempt, attempt: int, max: int) -> Seq<char> {
    let what = match outcome {
        Attempt::Answered { status_text, .. } => "HTTP "@ + status_text@,
        Attempt::Failed { fault } => fault_message(fault),
    };
    action + ": "@ + what + ", retrying ("@ + decimal(attempt as nat) + "/"@ + decimal(max as nat) + ")..."@
}

fn notice_text(action: &str, what: &str, attempt: usize, max: usize) -> (r: String)
    ensures
        r@ == action@ + ": "@ + what@ + ", retrying ("@ + decimal(attempt as nat) + "/"@ + decimal(max as nat)
            + ")..."@,
{
    action.to_owned().concat(": ").concat(what).concat(", retrying (").concat(
        decimal_text(attempt as u128).as_str(),
    ).concat("/").concat(decimal_text(max as u128).as_str()).concat(")...")
}

/// What follows an attempt to send a request.
pub fn after_attempt(action: &str, outcome: &Attempt, attempt: usize, max: usize) -> (r: AfterAttempt)
    ensures
        match r {
            AfterAttempt::Again { notice, wait_ms } => is_sent_again(*outcome, attempt as int, max as int) && notice@
                == attempt_notice(action@, *outcome, attempt as int, max as int) && wait_ms == wait_after(
                attempt as int,
            ),
            AfterAttempt::Take => !is_sent_again(*outcome, attempt as int, max as int) && outcome is Answered,
            AfterAttempt::GiveUp { error } => !is_sent_again(*outcome, attempt as int, max as int) && outcome is Failed
                && error@ == fault_message(outcome->fault),
        },
{
    match outcome {
        Attempt::Answered { status, status_text } => if attempt < max && should_retry_status(*status) {
            let what = "HTTP ".to_owned().concat(status_text.as_str());
            AfterAttempt::Again {
                notice: notice_text(action, what.as_str(), attempt, max),
                wait_ms: retry_wait_ms(attempt),
            }
        } else {
            AfterAttempt::Take
        },
        Attempt::Failed { fault } => {
            let message = network_error_message(fault);
            if attempt < max && (fault.timeout || fault.connect || fault.request || fault.body) {
                AfterAttempt::Again {
                    notice: notice_text(action, message.as_str(), attempt, max),
                    wait_ms: retry_wait_ms(attempt),
                }
            } else {
                AfterAttempt::GiveUp { error: message }
            }
        },
    }
}

/// The last attempt is never followed by another.
pub proof fn law_attempts_end(outcome: Attempt, max: int)
    ensures
        !is_sent_again(outcome, max, max),
{
}

/// What a request failed with that the service answered.
pub open spec fn api_error_text(action: Seq<char>, error: Option<Seq<char>>, message: Option<Seq<char>>) -> Seq<
    char,
> {
    match (error, message) {
        (Some(error), Some(message)) => action + " failed: "@ + error + ": "@ + message,
        (Some(error), None) => action + " failed: "@ + error,
        (None, Some(message)) => action + " failed: "@ + message,
        (None, None) => action + " failed"@,
    }
}

/// What a request failed with that the service answered.
pub fn api_error(action: &str, error: &Option<String>, message: &Option<String>) -> (r: String)
    ensures
        r@ == api_error_text(action@, opt_text(*error), opt_text(*message)),
{
    match error {
        Some(error) => match message {
            Some(message) => action.to_owned().concat(" failed: ").concat(error.as_str()).concat(": ").concat(
                message.as_str(),
            ),
            None => action.to_owned().concat(" failed: ").concat(error.as_str()),
        },
        None => match message {
            Some(message) => action.to_owned().concat(" failed: ").concat(message.as_str()),
            None => action.to_owned().concat(" failed"),
        },
    }
}

/// Whether the service answered that a request went well.
pub fn check_answer(action: &str, ok: bool, error: &Option<String>, message: &Option<String>) -> (r: Result<(), String>)
    ensures
        match r {
            Ok(()) => ok,
            Err(e) => !ok && e@ == api_error_text(action@, opt_text(*error), opt_text(*message)),
        },
{
    if ok {
        Ok(())
    } else {
        Err(api_error(action, error, message))
    }
}

/// Bytes as the value of a header.
pub fn header_value(bytes: &[u8]) -> (r: String)
    requires
        bytes@.len() / 3 * 4 + 4 <= isize::MAX,
    ensures
        r@ == base64_text(bytes@),
        is_bytes(base64_bytes(r@), bytes@),
{
    encode_base64(bytes)
}

/// What an answer without success is said to be.
pub fn http_error(action: &str, status_text: &str, body: &str) -> (r: String)
    ensures
        r@ == action@ + " failed: HTTP "@ + status_text@ + ": "@ + body@,
{
    action.to_owned().concat(" failed: HTTP ").concat(status_text).concat(": ").concat(body)
}

/// What an answer is said to be that cannot be read.
pub fn invalid_answer(action: &str, error: &str) -> (r: String)
    ensures
        r@ == action@ + " returned invalid JSON: "@ + error@,
{
    action.to_owned().concat(" returned invalid JSON: ").concat(error)
}

/// Whether a byte stands for itself in a path.
pub open spec fn is_unreserved(byte: u8) -> bool {
    ||| 0x41 <= byte <= 0x5a
    ||| 0x61 <= byte <= 0x7a
    ||| 0x30 <= byte <= 0x39
    ||| byte == 0x2d
    ||| byte == 0x5f
    ||| byte == 0x2e
    ||| byte == 0x7e
}

/// The hexadecimal digit of a number below sixteen, in upper case.
pub open spec fn upper_digit(n: int) -> char {
    if n < 10 {
        ('0' as int + n) as char
    } else {
        ('A' as int + n - 10) as char
    }
}

/// A byte in a path.
pub open spec fn encoded_byte(byte: u8) -> Seq<char> {
    if is_unreserved(byte) {
        seq![byte as char]
    } else {
        seq!['%', upper_digit(byte as int / 16), upper_digit(byte as int % 16)]
    }
}

/// Bytes in a path.
pub open spec fn percent_encoded(bytes: Seq<u8>) -> Seq<char>
    decreases bytes.len(),
{
    if bytes.len() == 0 {
        Seq::empty()
    } else {
        percent_encoded(bytes.drop_last()) + encoded_byte(bytes.last())
    }
}

fn upper_digit_char(n: u8) -> (r: char)
    requires
        n < 16,
    ensures
        r == upper_digit(n as int),
{
    if n < 10 {
        (48 + n) as char
    } else {
        (55 + n) as char
    }
}

/// A piece of a path, each byte but the unreserved ones as its two digits
/// after a percent sign.
pub fn percent_encode_path(value: &str) -> (r: String)
    ensures
        r@ == percent_encoded(encode_utf8(value@)),
{
    let bytes = value.as_bytes();
    let mut out = String::new();
    for i in 0..bytes.len()
        invariant
            bytes@ == encode_utf8(value@),
            out@ == percent_encoded(bytes@.take(i as int)),
    {
        let byte = bytes[i];
        assert(bytes@.take(i + 1).drop_last() =~= bytes@.take(i as int));
        let ghost before = out@;
        if (0x41 <= byte && byte <= 0x5a) || (0x61 <= byte && byte <= 0x7a) || (0x30 <= byte && byte <= 0x39) || byte
            == 0x2d || byte == 0x5f || byte == 0x2e || byte == 0x7e {
            out.push(byte as char);
            assert(out@ =~= before + encoded_byte(byte));
        } else {
            out.push('%');
            out.push(upper_digit_char(byte / 16));
            out.push(upper_digit_char(byte % 16));
            assert(out@ =~= before + encoded_byte(byte));
        }
    }
    assert(bytes@.take(bytes@.len() as int) =~= bytes@);
    out
}

proof fn lemma_encoded_first(bytes: Seq<u8>)
    requires
        bytes.len() > 0,
    ensures
        percent_encoded(bytes) == encoded_byte(bytes[0]) + percent_encoded(bytes.skip(1)),
    decreases bytes.len(),
{
    if bytes.len() == 1 {
        assert(bytes.drop_last() =~= Seq::<u8>::empty());
        assert(bytes.skip(1) =~= Seq::<u8>::empty());
        assert(percent_encoded(Seq::<u8>::empty()) =~= Seq::<char>::empty());
        assert(percent_encoded(bytes) =~= encoded_byte(bytes[0]));
        assert(encoded_byte(bytes[0]) + percent_encoded(bytes.skip(1)) =~= encoded_byte(bytes[0]));
    } else {
        lemma_encoded_first(bytes.drop_last());
        assert(bytes.drop_last().skip(1) =~= bytes.skip(1).drop_last());
        assert(percent_encoded(bytes) =~= encoded_byte(bytes[0]) + (percent_encoded(bytes.skip(1).drop_last())
            + encoded_byte(bytes.last())));
    }
}

proof fn lemma_upper_digit(a: int, b: int)
    requires
        0 <= a < 16,
        0 <= b < 16,
        upper_digit(a) == upper_digit(b),
    ensures
        a == b,
{
}

proof fn lemma_encoded_byte(a: u8, b: u8, more_a: Seq<char>, more_b: Seq<char>)
    requires
        encoded_byte(a) + more_a == encoded_byte(b) + more_b,
    ensures
        a == b,
        more_a == more_b,
{
    let x = encoded_byte(a) + more_a;
    let y = encoded_byte(b) + more_b;
    assert(x[0] == encoded_byte(a)[0]);
    assert(y[0] == encoded_byte(b)[0]);
    if !is_unreserved(a) && !is_unreserved(b) {
        assert(x[1] == encoded_byte(a)[1] && x[2] == encoded_byte(a)[2]);
        assert(y[1] == encoded_byte(b)[1] && y[2] == encoded_byte(b)[2]);
        lemma_upper_digit(a as int / 16, b as int / 16);
        lemma_upper_digit(a as int % 16, b as int % 16);
    }
    let n = encoded_byte(a).len() as int;
    assert(x.skip(n) =~= more_a);
    assert(y.skip(n) =~= more_b);
}

/// Different bytes are different pieces of a path.
pub proof fn law_percent_encoding_is_injective(a: Seq<u8>, b: Seq<u8>)
    requires
        percent_encoded(a) == percent_encoded(b),
    ensures
        a == b,
    decreases a.len(),
{
    if a.len() > 0 {
        lemma_encoded_first(a);
        assert(percent_encoded(a).len() > 0);
    }
    if b.len() > 0 {
        lemma_encoded_first(b);
        assert(percent_encoded(b).len() > 0);
    }
    if a.len() > 0 && b.len() > 0 {
        lemma_encoded_byte(a[0], b[0], percent_encoded(a.skip(1)), percent_encoded(b.skip(1)));
        law_percent_encoding_is_injective(a.skip(1), b.skip(1));
        assert(a =~= seq![a[0]] + a.skip(1));
        assert(b =~= seq![b[0]] + b.skip(1));
    } else {
        assert(a =~= b);
    }
}

/// A session as a piece of a path.
pub open spec fn session_piece(session_id: Seq<char>) -> Seq<char> {
    percent_encoded(encode_utf8(session_id))
}

pub open spec fn versions_path(session_id: Seq<char>) -> Seq<char> {
    "/v1/sessions/"@ + session_piece(session_id) + "/versions/"@
}

fn versions_path_text(session_id: &str) -> (r: String)
    ensures
        r@ == versions_path(session_id@),
{
    "/v1/sessions/".to_owned().concat(percent_encode_path(session_id).as_str()).concat("/versions/")
}

/// Where a version is uploaded to.
pub fn version_path(session_id: &str, raw_sha256: &str) -> (r: String)
    ensures
        r@ == versions_path(session_id@) + raw_sha256@,
{
    versions_path_text(session_id).concat(raw_sha256)
}

/// Where the latest version of a session is asked for.
pub fn latest_version_path(session_id: &str) -> (r: String)
    ensures
        r@ == versions_path(session_id@) + "latest"@,
{
    versions_path_text(session_id).concat("latest")
}

/// Where the bytes of a version are.
pub fn blob_path(session_id: &str, raw_sha256: &str) -> (r: String)
    ensures
        r@ == versions_path(session_id@) + raw_sha256@ + "/blob"@,
{
    version_path(session_id, raw_sha256).concat("/blob")
}

/// Where a chunk of a version is.
pub fn chunk_path(session_id: &str, raw_sha256: &str, index: usize) -> (r: String)
    ensures
        r@ == versions_path(session_id@) + raw_sha256@ + "/chunks/"@ + decimal(index as nat),
{
    version_path(session_id, raw_sha256).concat("/chunks/").concat(decimal_text(index as u128).as_str())
}

/// Where an upload in chunks is completed.
pub fn complete_path(session_id: &str, raw_sha256: &str) -> (r: String)
    ensures
        r@ == versions_path(session_id@) + raw_sha256@ + "/chunks/complete"@,
{
    version_path(session_id, raw_sha256).concat("/chunks/complete")
}

/// Where the list of chunks of a version is.
pub fn chunk_manifest_path(session_id: &str, raw_sha256: &str) -> (r: String)
    ensures
        r@ == versions_path(session_id@) + raw_sha256@ + "/chunks/manifest"@,
{
    version_path(session_id, raw_sha256).concat("/chunks/manifest")
}

/// A number of sessions that a page can have.
pub open spec fn page_limit(limit: int) -> int {
    if limit < 1 {
        1
    } else if limit > MAX_SESSION_LIST_PAGE_SIZE {
        MAX_SESSION_LIST_PAGE_SIZE as int
    } else {
        limit
    }
}

/// Where a page of the sessions is asked for.
pub fn sessions_path(limit: usize, offset: usize) -> (r: String)
    ensures
        r@ == "/v1/sessions?limit="@ + decimal(page_limit(limit as int) as nat) + "&offset="@ + decimal(offset as nat),
{
    let limit: usize = if limit < 1 {
        1
    } else if limit > MAX_SESSION_LIST_PAGE_SIZE {
        MAX_SESSION_LIST_PAGE_SIZE
    } else {
        limit
    };
    "/v1/sessions?limit=".to_owned().concat(decimal_text(limit as u128).as_str()).concat("&offset=").concat(
        decimal_text(offset as u128).as_str(),
    )
}

/// A path at the service.
pub fn service_url(api_url: &str, path: &str) -> (r: String)
    ensures
        r@ == api_url@ + path@,
{
    api_url.to_owned().concat(path)
}

/// How far a list of sessions has been fetched, page by page.
pub struct SessionPages {
    pub limit: Option<usize>,
    pub fetched: usize,
    pub done: bool,
}

/// How many sessions the next page may have.
pub open spec fn next_page_size(pages: SessionPages) -> int {
    let remaining = match pages.limit {
        Some(limit) => if limit > pages.fetched {
            limit - pages.fetched
        } else {
            0
        },
        None => MAX_SESSION_LIST_PAGE_SIZE as int,
    };
    if remaining < MAX_SESSION_LIST_PAGE_SIZE {
        remaining
    } else {
        MAX_SESSION_LIST_PAGE_SIZE as int
    }
}

impl SessionPages {
    /// Nothing fetched yet.
    pub fn new(limit: Option<usize>) -> (r: SessionPages)
        ensures
            r == (SessionPages { limit, fetched: 0, done: false }),
    {
        SessionPages { limit, fetched: 0, done: false }
    }

    /// The size and the offset of the next page, unless all is fetched.
    pub fn next_page(&self) -> (r: Option<(usize, usize)>)
        ensures
            match r {
                Some(page) => !self.done && page.0 == next_page_size(*self) && page.0 > 0 && page.1 == self.fetched,
                None => self.done || next_page_size(*self) == 0,
            },
    {
        if self.done {
            return None;
        }
        let remaining: usize = match self.limit {
            Some(limit) => if limit > self.fetched {
                limit - self.fetched
            } else {
                0
            },
            None => MAX_SESSION_LIST_PAGE_SIZE,
        };
        if remaining == 0 {
            return None;
        }
        let size: usize = if remaining < MAX_SESSION_LIST_PAGE_SIZE {
            remaining
        } else {
            MAX_SESSION_LIST_PAGE_SIZE
        };
        Some((size, self.fetched))
    }

    /// A page came, with as many sessions. One with fewer than were asked for
    /// is the last.
    pub fn page_came(&mut self, count: usize)
        requires
            old(self).fetched + count <= usize::MAX,
        ensures
            final(self).limit == old(self).limit,
            final(self).fetched == old(self).fetched + count,
            final(self).done == (old(self).done || count < next_page_size(*old(self))),
    {
        let size: usize = match self.next_page() {
            Some(page) => page.0,
            None => 0,
        };
        if count < size {
            self.done = true;
        }
        self.fetched = self.fetched + count;
    }
}

/// No page asks for sessions beyond the limit.
pub proof fn law_pages_stay_within_limit(pages: SessionPages)
    ensures
        next_page_size(pages) <= MAX_SESSION_LIST_PAGE_SIZE,
        pages.limit matches Some(limit) ==> pages.fetched <= limit ==> pages.fetched + next_page_size(pages) <= limit,
{
}

} // verus!
