//! A seekable byte stream over an HTTP-addressable resource.
//!
//! `HttpReader` learns the total size of the remote resource once, through a
//! metadata probe, and then serves reads by issuing one range request per
//! read while tracking a logical cursor.  `BufferedHttpReader` adds a
//! read-ahead window so that small seeks and reads are served without a new
//! request.

use vstd::prelude::*;

use reqwest::blocking::{Client, Response};
use reqwest::Url;

verus! {

/// How an operation on the remote resource failed.
#[derive(Clone, Copy, Debug, PartialEq, Eq, Structural)]
pub enum RemoteError {
    /// The request itself failed at the network or HTTP layer.
    Transport,
    /// The metadata probe answered, but without a usable size field.
    Protocol,
}

#[verifier::external_type_specification]
#[verifier::external_body]
pub struct ExClient(Client);

#[verifier::external_type_specification]
#[verifier::external_body]
pub struct ExUrl(Url);

#[verifier::external_type_specification]
#[verifier::external_body]
pub struct ExResponse(Response);

/// Relies on reqwest::Url::parse: turns an absolute URL string into a `Url`,
/// failing on anything unparseable.
#[verifier::external_body]
fn parse_url(s: &str) -> (r: Result<Url, RemoteError>) {
    match Url::parse(s) {
        Ok(u) => Ok(u),
        Err(_) => Err(RemoteError::Transport),
    }
}

/// Relies on reqwest::blocking::ClientBuilder::build: a client with default
/// configuration, or an error when the client cannot be set up.
#[verifier::external_body]
fn new_client() -> (r: Result<Client, RemoteError>) {
    match Client::builder().build() {
        Ok(c) => Ok(c),
        Err(_) => Err(RemoteError::Transport),
    }
}

/// Relies on reqwest::blocking::Client::head and RequestBuilder::send: issues
/// a HEAD request with a keep-alive hint and hands back the response.
#[verifier::external_body]
fn send_head(client: &Client, url: &Url) -> (r: Result<Response, RemoteError>) {
    let request = client.head(url.clone()).header("connection", "keep-alive");
    match request.send() {
        Ok(resp) => Ok(resp),
        Err(_) => Err(RemoteError::Transport),
    }
}

/// Relies on reqwest::blocking::Response::headers and HeaderValue::as_bytes:
/// the raw bytes of the `content-length` field, if the response carries one.
#[verifier::external_body]
fn content_length_field(resp: &Response) -> (r: Option<Vec<u8>>) {
    match resp.headers().get("content-length") {
        Some(v) => Some(v.as_bytes().to_vec()),
        None => None,
    }
}

/// Relies on reqwest::blocking::Client::get and RequestBuilder::send: issues a
/// GET restricted to the inclusive byte range `[from, to]`, with a keep-alive
/// hint, and hands back the streaming response.
#[verifier::external_body]
fn send_range_get(client: &Client, url: &Url, from: u64, to: u64) -> (r: Result<
    Response,
    RemoteError,
>) {
    let request = client
        .get(url.clone())
        .header("range", format!("bytes={}-{}", from, to))
        .header("connection", "keep-alive");
    match request.send() {
        Ok(resp) => Ok(resp),
        Err(_) => Err(RemoteError::Transport),
    }
}

/// Relies on std::io::Read::read through reqwest's blocking `Response`: reads
/// at most `max` bytes of the response body; per the `Read` documentation the
/// count returned never exceeds the buffer length.
#[verifier::external_body]
fn read_body_chunk(resp: &mut Response, max: usize) -> (r: Result<Vec<u8>, RemoteError>)
    ensures
        r matches Ok(chunk) ==> chunk@.len() <= max,
{
    let mut buf = vec![0u8; max];
    match std::io::Read::read(resp, &mut buf) {
        Ok(n) => {
            buf.truncate(n);
            Ok(buf)
        },
        Err(_) => Err(RemoteError::Transport),
    }
}

/// One ASCII decimal digit.
pub open spec fn is_ascii_digit(b: u8) -> bool {
    48 <= b <= 57
}

/// Every byte of the sequence is an ASCII decimal digit.
pub open spec fn all_digits(s: Seq<u8>) -> bool {
    forall|i: int| 0 <= i < s.len() ==> is_ascii_digit(s[i])
}

/// The integer written by a sequence of ASCII digits, most significant first.
pub open spec fn decimal_value(s: Seq<u8>) -> int
    decreases s.len(),
{
    if s.len() == 0 {
        0
    } else {
        decimal_value(s.drop_last()) * 10 + (s.last() - 48)
    }
}

/// The digits of a decimal text, with one optional leading `+` removed.
pub open spec fn unsigned_part(s: Seq<u8>) -> Seq<u8> {
    if s.len() > 0 && s[0] == 43 {
        s.skip(1)
    } else {
        s
    }
}

/// The texts accepted as a size field: an optional `+`, then at least one
/// digit, writing a value that fits in 64 bits.
pub open spec fn is_content_length(s: Seq<u8>) -> bool {
    &&& unsigned_part(s).len() > 0
    &&& all_digits(unsigned_part(s))
    &&& decimal_value(unsigned_part(s)) <= u64::MAX
}

proof fn lemma_decimal_nonneg(s: Seq<u8>)
    requires
        all_digits(s),
    ensures
        decimal_value(s) >= 0,
    decreases s.len(),
{
    if s.len() > 0 {
        assert(all_digits(s.drop_last())) by {
            assert(forall|i: int|
                0 <= i < s.len() - 1 ==> s.drop_last()[i] == s[i] && is_ascii_digit(s[i]));
        }
        lemma_decimal_nonneg(s.drop_last());
    }
}

proof fn lemma_decimal_prefix_le(s: Seq<u8>, k: int)
    requires
        all_digits(s),
        0 <= k <= s.len(),
    ensures
        decimal_value(s.take(k)) <= decimal_value(s),
    decreases s.len() - k,
{
    if k == s.len() {
        assert(s.take(k) =~= s);
    } else {
        lemma_decimal_prefix_le(s, k + 1);
        assert(s.take(k + 1).drop_last() =~= s.take(k));
        assert(s.take(k + 1).last() == s[k]);
        assert(all_digits(s.take(k))) by {
            assert(forall|i: int| 0 <= i < k ==> s.take(k)[i] == s[i] && is_ascii_digit(s[i]));
        }
        lemma_decimal_nonneg(s.take(k));
    }
}

/// Parses the size field of the metadata probe: ASCII digits, with one
/// optional leading `+`, rejecting empty, non-digit and overflowing texts.
pub fn parse_content_length(bytes: &Vec<u8>) -> (r: Option<u64>)
    ensures
        r is Some <==> is_content_length(bytes@),
        r matches Some(n) ==> n == decimal_value(unsigned_part(bytes@)),
{
    let ghost d = unsigned_part(bytes@);
    let start: usize = if bytes.len() > 0 && bytes[0] == 43u8 {
        1
    } else {
        0
    };
    if bytes.len() == start {
        return None;
    }
    let mut acc: u64 = 0;
    let mut i: usize = start;
    while i < bytes.len()
        invariant
            start <= i <= bytes@.len(),
            start == if bytes@.len() > 0 && bytes@[0] == 43 {
                1int
            } else {
                0int
            },
            d == unsigned_part(bytes@),
            d =~= bytes@.skip(start as int),
            all_digits(d.take(i - start)),
            acc == decimal_value(d.take(i - start)),
        decreases bytes@.len() - i,
    {
        let b = bytes[i];
        assert(d[i - start] == bytes@[i as int]);
        if b < 48u8 || b > 57u8 {
            assert(!is_content_length(bytes@)) by {
                assert(!is_ascii_digit(d[i - start]));
            }
            return None;
        }
        let digit = (b - 48u8) as u64;
        assert(d.take(i + 1 - start).drop_last() =~= d.take(i - start));
        assert(d.take(i + 1 - start).last() == d[i - start]);
        if acc > 1844674407370955161u64 || (acc == 1844674407370955161u64 && digit > 5u64) {
            assert(!is_content_length(bytes@)) by {
                if all_digits(d) && decimal_value(d) <= u64::MAX {
                    lemma_decimal_prefix_le(d, i + 1 - start);
                    assert(decimal_value(d.take(i + 1 - start)) == acc * 10 + digit);
                }
            }
            return None;
        }
        acc = acc * 10 + digit;
        assert(all_digits(d.take(i + 1 - start))) by {
            assert forall|j: int| 0 <= j < i + 1 - start implies is_ascii_digit(
                #[trigger] d.take(i + 1 - start)[j],
            ) by {
                assert(d.take(i + 1 - start)[j] == d[j]);
                if j < i - start {
                    assert(is_ascii_digit(d.take(i - start)[j]));
                    assert(d.take(i - start)[j] == d[j]);
                }
            }
        }
        i += 1;
    }
    assert(d.take(i - start) =~= d);
    Some(acc)
}

/// Decides the outcome of the metadata probe from the size field it
/// answered with: an absent or unparseable field is a protocol error, and
/// any other field names the resource size.
pub fn size_from_probe(field: Option<Vec<u8>>) -> (r: Result<u64, RemoteError>)
    ensures
        field is None ==> r == Err::<u64, RemoteError>(RemoteError::Protocol),
        field matches Some(f) ==> if is_content_length(f@) {
            r matches Ok(n) && n == decimal_value(unsigned_part(f@))
        } else {
            r == Err::<u64, RemoteError>(RemoteError::Protocol)
        },
{
    match field {
        Some(f) => match parse_content_length(&f) {
            Some(n) => Ok(n),
            None => Err(RemoteError::Protocol),
        },
        None => Err(RemoteError::Protocol),
    }
}

/// Where the cursor lands: `delta` applied to `base`, saturating at the two
/// ends of the resource.
pub open spec fn clamp_to_size(base: int, delta: int, size: int) -> int {
    if base + delta < 0 {
        0
    } else if base + delta > size {
        size
    } else {
        base + delta
    }
}

/// A repositioning request on a stream of known total size.
#[derive(Clone, Copy, Debug, PartialEq, Eq, Structural)]
pub enum SeekFrom {
    /// An absolute position from the start of the resource.
    Start(u64),
    /// A signed offset from the current position.
    Current(i64),
    /// A signed offset from the end of the resource.
    End(i64),
}

/// The absolute cursor that a seek resolves to, saturating at `0` and at
/// `size`.
pub open spec fn seek_target(cursor: u64, size: u64, pos: SeekFrom) -> int {
    match pos {
        SeekFrom::Start(p) => clamp_to_size(0, p as int, size as int),
        SeekFrom::Current(d) => clamp_to_size(cursor as int, d as int, size as int),
        SeekFrom::End(d) => clamp_to_size(size as int, d as int, size as int),
    }
}

/// A seek saturates: the cursor never leaves `[0, size]`, an end-relative
/// seek of zero lands on `size`, and a start-relative seek of zero lands on
/// zero.
pub proof fn lemma_seek_saturation(cursor: u64, size: u64, pos: SeekFrom)
    requires
        cursor <= size,
    ensures
        0 <= seek_target(cursor, size, pos) <= size,
        pos == SeekFrom::End(0i64) ==> seek_target(cursor, size, pos) == size,
        pos == SeekFrom::Start(0u64) ==> seek_target(cursor, size, pos) == 0,
{
}

/// The magnitude of a negative 64-bit delta, exact even for the smallest
/// value.
fn neg_magnitude(delta: i64) -> (r: u64)
    requires
        delta < 0,
    ensures
        r == -(delta as int),
{
    if delta == i64::MIN {
        9223372036854775808u64
    } else {
        (-delta) as u64
    }
}

/// Applies a signed delta to `base`, saturating at `0` and at `size`.
pub fn clamp_seek(base: u64, size: u64, delta: i64) -> (r: u64)
    requires
        base <= size,
    ensures
        r == clamp_to_size(base as int, delta as int, size as int),
{
    if delta >= 0 {
        let step = delta as u64;
        if step > size - base {
            size
        } else {
            base + step
        }
    } else {
        let magnitude = neg_magnitude(delta);
        if magnitude > base {
            0
        } else {
            base - magnitude
        }
    }
}

/// The byte range that a read of `len` bytes at `cursor` asks the server
/// for, as an inclusive pair, or nothing when the read is empty or the
/// cursor is at the end.  The upper bound never exceeds `size - 1`.
pub fn read_window(cursor: u64, size: u64, len: usize) -> (r: Option<(u64, u64)>)
    requires
        cursor <= size,
    ensures
        r is None <==> (len == 0 || cursor == size),
        r matches Some(w) ==> {
            &&& w.0 == cursor
            &&& w.1 == if cursor + len - 1 <= size - 1 {
                cursor + len - 1
            } else {
                size - 1
            }
            &&& w.0 <= w.1 <= size - 1
        },
{
    if len == 0 {
        return None;
    }
    if cursor >= size {
        return None;
    }
    let avail = size - cursor;
    let want: u64 = if (len as u64) <= avail {
        len as u64
    } else {
        avail
    };
    Some((cursor, cursor + (want - 1)))
}

/// A readable, seekable view of a remote resource, served by one HTTP range
/// request per read.
pub struct HttpReader {
    client: Client,
    url: Url,
    size: u64,
    cursor: u64,
    requests: Ghost<nat>,
}

impl HttpReader {
    /// The cursor never leaves the resource.
    pub closed spec fn wf(&self) -> bool {
        self.cursor <= self.size
    }

    /// The total size learned by the metadata probe.
    pub closed spec fn size_spec(&self) -> u64 {
        self.size
    }

    /// The logical read position.
    pub closed spec fn cursor_spec(&self) -> u64 {
        self.cursor
    }

    /// How many range requests have been issued so far.
    pub closed spec fn requests_spec(&self) -> nat {
        self.requests@
    }

    /// The two readers talk to the same resource and agree on its size.
    pub closed spec fn same_resource(&self, other: &HttpReader) -> bool {
        &&& self.client == other.client
        &&& self.url == other.url
        &&& self.size == other.size
    }

    /// Resolves the endpoint and probes the resource size; the cursor starts
    /// at zero.  Fails with `Transport` when the URL cannot be parsed, the
    /// client cannot be built or the probe request fails, and with
    /// `Protocol` when the probe answers without a usable size field.
    pub fn new(url: &str) -> (r: Result<HttpReader, RemoteError>)
        ensures
            r matches Ok(h) ==> {
                &&& h.wf()
                &&& h.cursor_spec() == 0
                &&& h.requests_spec() == 0
            },
    {
        let url = match parse_url(url) {
            Ok(u) => u,
            Err(e) => { return Err(e); },
        };
        let client = match new_client() {
            Ok(c) => c,
            Err(e) => { return Err(e); },
        };
        let resp = match send_head(&client, &url) {
            Ok(resp) => resp,
            Err(e) => { return Err(e); },
        };
        let size = match size_from_probe(content_length_field(&resp)) {
            Ok(s) => s,
            Err(e) => { return Err(e); },
        };
        Ok(HttpReader { client, url, size, cursor: 0, requests: Ghost(0) })
    }

    /// The total size of the resource.
    pub fn total_size(&self) -> (r: u64)
        ensures
            r == self.size_spec(),
    {
        self.size
    }

    /// The current logical read position.
    pub fn position(&self) -> (r: u64)
        ensures
            r == self.cursor_spec(),
    {
        self.cursor
    }

    /// Reads up to `len` bytes at the cursor through one range request and
    /// advances the cursor by the count actually read.  An empty read, or a
    /// read at the end of the resource, answers zero bytes without issuing a
    /// request.  A short answer from the server is not an error.
    pub fn read(&mut self, len: usize) -> (r: Result<Vec<u8>, RemoteError>)
        requires
            old(self).wf(),
        ensures
            final(self).wf(),
            final(self).same_resource(old(self)),
            r matches Ok(bytes) ==> {
                &&& bytes@.len() <= len
                &&& final(self).cursor_spec() == old(self).cursor_spec() + bytes@.len()
            },
            r is Err ==> final(self).cursor_spec() == old(self).cursor_spec(),
            len == 0 || old(self).cursor_spec() == old(self).size_spec() ==> {
                &&& *final(self) == *old(self)
                &&& r matches Ok(bytes) && bytes@.len() == 0
            },
            if len == 0 || old(self).cursor_spec() == old(self).size_spec() {
                final(self).requests_spec() == old(self).requests_spec()
            } else {
                final(self).requests_spec() == old(self).requests_spec() + 1
            },
    {
        let (from, to) = match read_window(self.cursor, self.size, len) {
            Some(w) => w,
            None => { return Ok(Vec::new()); },
        };
        let want: usize = (to - from + 1) as usize;
        proof {
            self.requests@ = self.requests@ + 1;
        }
        let mut resp = match send_range_get(&self.client, &self.url, from, to) {
            Ok(resp) => resp,
            Err(e) => { return Err(e); },
        };
        let mut out: Vec<u8> = Vec::new();
        loop
            invariant
                out@.len() <= want,
                len != 0,
                old(self).cursor_spec() < old(self).size_spec(),
                self.wf(),
                self.same_resource(old(self)),
                self.cursor_spec() == old(self).cursor_spec(),
                self.requests_spec() == old(self).requests_spec() + 1,
            decreases want - out@.len(),
        {
            if out.len() >= want {
                break ;
            }
            let room = want - out.len();
            let mut chunk = match read_body_chunk(&mut resp, room) {
                Ok(c) => c,
                Err(e) => { return Err(e); },
            };
            if chunk.len() == 0 {
                break ;
            }
            out.append(&mut chunk);
        }
        self.cursor = from + out.len() as u64;
        Ok(out)
    }

    /// Repositions the cursor, saturating at the two ends of the resource,
    /// and answers the new absolute position.  Never touches the network.
    pub fn seek(&mut self, pos: SeekFrom) -> (r: u64)
        requires
            old(self).wf(),
        ensures
            final(self).wf(),
            final(self).same_resource(old(self)),
            final(self).requests_spec() == old(self).requests_spec(),
            r == final(self).cursor_spec(),
            final(self).cursor_spec() == seek_target(
                old(self).cursor_spec(),
                old(self).size_spec(),
                pos,
            ),
    {
        match pos {
            SeekFrom::Start(p) => {
                self.cursor = if p <= self.size {
                    p
                } else {
                    self.size
                };
            },
            SeekFrom::Current(d) => {
                self.cursor = clamp_seek(self.cursor, self.size, d);
            },
            SeekFrom::End(d) => {
                self.cursor = clamp_seek(self.size, self.size, d);
            },
        }
        self.cursor
    }

    /// Wraps the reader in a read-ahead window; the inner cursor is first
    /// moved back to the start, so reader and source begin aligned.
    pub fn buffered(self) -> (r: BufferedHttpReader)
        requires
            self.wf(),
        ensures
            r.wf(),
            r.pos_spec() == 0,
            r.size_spec() == self.size_spec(),
            r.requests_spec() == self.requests_spec(),
            r.buffered_spec().len() == 0,
    {
        let mut inner = self;
        inner.seek(SeekFrom::Start(0u64));
        BufferedHttpReader { inner, buf: Vec::new(), buf_pos: 0, pos: 0 }
    }
}

/// How many bytes one refill of the read-ahead window asks for.
pub const BUFFER_CAPACITY: usize = 8192;

/// A reader over `HttpReader` with a read-ahead window: reads are served
/// from the window when it still holds bytes, and seeks that stay within
/// the window only move an index, issuing no request.  The absolute
/// position is tracked apart from the inner cursor; the two diverge by
/// exactly the bytes still held in the window.
pub struct BufferedHttpReader {
    inner: HttpReader,
    buf: Vec<u8>,
    buf_pos: usize,
    pos: u64,
}

/// The absolute position that a buffered seek resolves to; unlike the
/// unbuffered seek it is not clamped, so the caller keeps it inside the
/// resource.
pub open spec fn buffered_seek_target(pos: u64, size: u64, from: SeekFrom) -> int {
    match from {
        SeekFrom::Start(p) => p as int,
        SeekFrom::Current(d) => pos + d,
        SeekFrom::End(d) => size + d,
    }
}

/// Wherever the requested position lies inside the resource, the buffered
/// reader resolves a seek to the same absolute position as an unbuffered
/// reader whose cursor stands at the tracked position.
pub proof fn lemma_buffered_seek_matches_unbuffered(pos: u64, size: u64, from: SeekFrom)
    requires
        pos <= size,
        0 <= buffered_seek_target(pos, size, from) <= size,
    ensures
        buffered_seek_target(pos, size, from) == seek_target(pos, size, from),
{
}

impl BufferedHttpReader {
    /// The window index stays inside the window, and the tracked position
    /// plus the bytes still buffered equals the inner cursor.
    pub closed spec fn wf(&self) -> bool {
        &&& self.inner.wf()
        &&& self.buf_pos <= self.buf@.len()
        &&& self.pos + (self.buf@.len() - self.buf_pos) == self.inner.cursor_spec()
    }

    /// The tracked absolute position.
    pub closed spec fn pos_spec(&self) -> u64 {
        self.pos
    }

    /// The total size of the underlying resource.
    pub closed spec fn size_spec(&self) -> u64 {
        self.inner.size_spec()
    }

    /// The bytes of the window not yet handed out.
    pub closed spec fn buffered_spec(&self) -> Seq<u8> {
        self.buf@.skip(self.buf_pos as int)
    }

    /// How many range requests the inner reader has issued.
    pub closed spec fn requests_spec(&self) -> nat {
        self.inner.requests_spec()
    }

    /// The inner reader, whole.
    pub closed spec fn inner_spec(&self) -> HttpReader {
        self.inner
    }

    /// The position lies inside the already-fetched window, so a seek to it
    /// needs no request.
    pub closed spec fn window_contains(&self, target: int) -> bool {
        self.pos - self.buf_pos <= target <= self.pos + (self.buf@.len() - self.buf_pos)
    }

    /// The tracked absolute position.
    pub fn position(&self) -> (r: u64)
        ensures
            r == self.pos_spec(),
    {
        self.pos
    }

    /// The total size of the underlying resource.
    pub fn total_size(&self) -> (r: u64)
        ensures
            r == self.size_spec(),
    {
        self.inner.total_size()
    }

    /// Reads up to `len` bytes.  While the window still holds bytes they
    /// are handed out exactly as fetched, with no request and the inner
    /// reader untouched; an exhausted window is refilled through one range
    /// request first.  The tracked position advances by the count read.
    pub fn read(&mut self, len: usize) -> (r: Result<Vec<u8>, RemoteError>)
        requires
            old(self).wf(),
        ensures
            final(self).wf(),
            final(self).size_spec() == old(self).size_spec(),
            r matches Ok(bytes) ==> {
                &&& bytes@.len() <= len
                &&& final(self).pos_spec() == old(self).pos_spec() + bytes@.len()
            },
            r is Err ==> final(self).pos_spec() == old(self).pos_spec(),
            len == 0 ==> *final(self) == *old(self) && (r matches Ok(bytes) && bytes@.len() == 0),
            final(self).requests_spec() <= old(self).requests_spec() + 1,
            len == 0 || old(self).buffered_spec().len() > 0 ==> final(self).requests_spec()
                == old(self).requests_spec(),
            len > 0 && old(self).buffered_spec().len() > 0 ==> {
                &&& final(self).inner_spec() == old(self).inner_spec()
                &&& r matches Ok(bytes) && {
                    let served = if len <= old(self).buffered_spec().len() {
                        len as int
                    } else {
                        old(self).buffered_spec().len() as int
                    };
                    &&& bytes@ == old(self).buffered_spec().take(served)
                    &&& final(self).buffered_spec() == old(self).buffered_spec().skip(served)
                }
            },
    {
        if len == 0 {
            return Ok(Vec::new());
        }
        if self.buf_pos >= self.buf.len() {
            self.buf = Vec::new();
            self.buf_pos = 0;
            let fetched = match self.inner.read(BUFFER_CAPACITY) {
                Ok(f) => f,
                Err(e) => { return Err(e); },
            };
            self.buf = fetched;
            if self.buf.len() == 0 {
                return Ok(Vec::new());
            }
        }
        let remaining = self.buf.len() - self.buf_pos;
        let n = if len <= remaining {
            len
        } else {
            remaining
        };
        let mut out: Vec<u8> = Vec::new();
        let mut j: usize = 0;
        let total = self.buf.len();
        while j < n
            invariant
                j <= n,
                self.buf_pos + n <= total,
                total == self.buf@.len(),
                out@ =~= self.buf@.subrange(self.buf_pos as int, self.buf_pos + j),
            decreases n - j,
        {
            let b = self.buf[self.buf_pos + j];
            out.push(b);
            j += 1;
        }
        proof {
            assert(out@ =~= self.buffered_spec().take(n as int));
            assert(self.buf@.skip(self.buf_pos + n as int) =~= self.buffered_spec().skip(
                n as int,
            ));
        }
        self.buf_pos = self.buf_pos + n;
        self.pos = self.pos + n as u64;
        Ok(out)
    }

    /// Repositions the reader.  The target is resolved against the tracked
    /// position; when it stays within the fetched window only the window
    /// index moves and the inner reader is untouched, otherwise the window
    /// is dropped and the inner cursor moved.  Never issues a request.
    pub fn seek(&mut self, from: SeekFrom) -> (r: u64)
        requires
            old(self).wf(),
            0 <= buffered_seek_target(old(self).pos_spec(), old(self).size_spec(), from) <= old(
                self,
            ).size_spec(),
        ensures
            final(self).wf(),
            final(self).size_spec() == old(self).size_spec(),
            final(self).requests_spec() == old(self).requests_spec(),
            r == final(self).pos_spec(),
            final(self).pos_spec() == buffered_seek_target(
                old(self).pos_spec(),
                old(self).size_spec(),
                from,
            ),
            old(self).window_contains(
                buffered_seek_target(old(self).pos_spec(), old(self).size_spec(), from),
            ) ==> {
                &&& final(self).inner_spec() == old(self).inner_spec()
                &&& final(self).buf_view() == old(self).buf_view()
            },
    {
        let target: u64 = match from {
            SeekFrom::Start(p) => p,
            SeekFrom::Current(d) => {
                if d >= 0 {
                    self.pos + (d as u64)
                } else {
                    let magnitude = neg_magnitude(d);
                    self.pos - magnitude
                }
            },
            SeekFrom::End(d) => {
                let size = self.inner.total_size();
                if d >= 0 {
                    size + (d as u64)
                } else {
                    let magnitude = neg_magnitude(d);
                    size - magnitude
                }
            },
        };
        if target >= self.pos {
            let forward = target - self.pos;
            let ahead = (self.buf.len() - self.buf_pos) as u64;
            if forward <= ahead {
                self.buf_pos = self.buf_pos + (forward as usize);
            } else {
                self.buf = Vec::new();
                self.buf_pos = 0;
                self.inner.seek(SeekFrom::Start(target));
            }
        } else {
            let back = self.pos - target;
            if back <= self.buf_pos as u64 {
                self.buf_pos = self.buf_pos - (back as usize);
            } else {
                self.buf = Vec::new();
                self.buf_pos = 0;
                self.inner.seek(SeekFrom::Start(target));
            }
        }
        self.pos = target;
        target
    }

    /// The whole fetched window, handed-out bytes included.
    pub closed spec fn buf_view(&self) -> Seq<u8> {
        self.buf@
    }
}

} // verus!
