//! The range reader: token choice, one-time metadata resolution, and the
//! read/seek protocol that turns byte-range requests into HTTP range fetches.

use vstd::prelude::*;

use crate::errors::{GCSObjectURIError, GCSReaderError};
use crate::http::{
    build_client, fetch_auto_token, http_get_range, http_get_text, json_size_of, json_size_string,
    lossy_string,
};
use crate::uri::{bucket_of, canonical_spec, has_gs_prefix, object_of, parse_ok, GCSObjectURI};

verus! {

/// How a bearer token is supplied.
pub enum Auth {
    /// Discover ambient credentials automatically.
    Auto,
    /// Use this literal token, unchanged and unvalidated.
    Token(String),
}

impl Default for Auth {
    /// The default is automatic discovery.
    fn default() -> (r: Self)
        ensures
            r is Auto,
    {
        Auth::Auto
    }
}

impl Auth {
    /// Resolve this credential to a bearer token. A literal token is
    /// returned unchanged, with no validation of shape or expiry; automatic
    /// discovery asks the ambient mechanism, and its failure surfaces as
    /// `AuthError`, never retried.
    pub fn token(self) -> (r: Result<String, GCSReaderError>)
        ensures
            self matches Auth::Token(t) ==> r == Ok::<String, GCSReaderError>(t),
            r matches Err(e) ==> self is Auto && e matches GCSReaderError::AuthError(_),
    {
        match self {
            Auth::Token(t) => Ok(t),
            Auth::Auto => match fetch_auto_token() {
                Ok(t) => Ok(t),
                Err(e) => Err(GCSReaderError::AuthError(e)),
            },
        }
    }
}

/// A seek origin and offset, in the usual seek conventions.
#[derive(Debug, Clone, Copy, PartialEq, Eq)]
pub enum SeekFrom {
    /// From the start of the object; the new cursor is the offset itself.
    Start(u64),
    /// From the end of the object; the offset is usually negative.
    End(i64),
    /// From the current cursor.
    Current(i64),
}

/// The cursor position a seek aims at, as an unbounded integer.
pub open spec fn seek_target_spec(pos: u64, len: u64, from: SeekFrom) -> int {
    match from {
        SeekFrom::Start(o) => o as int,
        SeekFrom::End(o) => len as int + o as int,
        SeekFrom::Current(o) => pos as int + o as int,
    }
}

/// The exclusive end of the range a read at `pos` with a buffer of `want`
/// bytes requests: `pos + want`, capped at the object length.
pub open spec fn read_end_spec(pos: int, want: int, len: int) -> int {
    if pos + want <= len {
        pos + want
    } else {
        len
    }
}

/// Whether `c` is a decimal digit.
pub open spec fn dec_digit(c: char) -> bool {
    '0' <= c && c <= '9'
}

/// Whether every character of `s` is a decimal digit.
pub open spec fn all_digits(s: Seq<char>) -> bool {
    forall|i: int| 0 <= i < s.len() ==> dec_digit(s[i])
}

/// The value of `s` read as a decimal numeral.
pub open spec fn dec_value(s: Seq<char>) -> int
    decreases s.len(),
{
    if s.len() == 0 {
        0
    } else {
        dec_value(s.drop_last()) * 10 + (s.last() as int - '0' as int)
    }
}

/// What a decimal string denotes as a `u64`: defined exactly for non-empty
/// all-digit strings whose value fits.
pub open spec fn parses_to_u64(s: Seq<char>) -> Option<u64> {
    if s.len() > 0 && all_digits(s) && dec_value(s) <= u64::MAX {
        Some(dec_value(s) as u64)
    } else {
        None
    }
}

proof fn lemma_dec_value_nonneg(s: Seq<char>)
    requires
        all_digits(s),
    ensures
        dec_value(s) >= 0,
    decreases s.len(),
{
    if s.len() > 0 {
        assert(all_digits(s.drop_last())) by {
            assert(forall|i: int|
                0 <= i < s.len() - 1 ==> s.drop_last()[i] == s[i]);
        }
        lemma_dec_value_nonneg(s.drop_last());
    }
}

/// Parse a decimal numeral into a `u64`, exactly as `parses_to_u64` says:
/// `Some` for a non-empty string of digits whose value fits, `None` for
/// everything else.
pub fn parse_u64_decimal(s: &str) -> (r: Option<u64>)
    ensures
        r == parses_to_u64(s@),
{
    let n = s.unicode_len();
    if n == 0 {
        return None;
    }
    let mut acc: u64 = 0;
    let mut i: usize = 0;
    proof {
        assert(s@.subrange(0, 0) =~= Seq::<char>::empty());
    }
    while i < n
        invariant
            0 <= i <= n,
            n == s@.len(),
            all_digits(s@.subrange(0, i as int)),
            acc == dec_value(s@.subrange(0, i as int)),
        decreases n - i,
    {
        let c = s.get_char(i);
        if c < '0' || c > '9' {
            proof {
                assert(!dec_digit(s@[i as int]));
            }
            return None;
        }
        let d: u32 = (c as u32) - ('0' as u32);
        let next: u128 = (acc as u128) * 10 + (d as u128);
        proof {
            let pre = s@.subrange(0, i + 1);
            assert(pre.drop_last() =~= s@.subrange(0, i as int));
            assert(pre.last() == s@[i as int]);
            assert(forall|j: int| 0 <= j < pre.len() ==> pre[j] == s@[j]);
            assert(next == dec_value(pre));
        }
        if next > u64::MAX as u128 {
            proof {
                if all_digits(s@) && dec_value(s@) <= u64::MAX {
                    lemma_dec_value_mono(s@, i + 1, s@.len() as int);
                    assert(s@.subrange(0, s@.len() as int) =~= s@);
                }
            }
            return None;
        }
        acc = next as u64;
        i += 1;
    }
    proof {
        assert(s@.subrange(0, n as int) =~= s@);
    }
    Some(acc)
}

/// A longer all-digit prefix never denotes a smaller value.
proof fn lemma_dec_value_mono(s: Seq<char>, i: int, j: int)
    requires
        0 <= i <= j <= s.len(),
        all_digits(s),
    ensures
        dec_value(s.subrange(0, i)) <= dec_value(s.subrange(0, j)),
    decreases j - i,
{
    if i < j {
        lemma_dec_value_mono(s, i, j - 1);
        let pre = s.subrange(0, j);
        assert(pre.drop_last() =~= s.subrange(0, j - 1));
        assert(all_digits(s.subrange(0, j - 1))) by {
            assert(forall|m: int|
                0 <= m < j - 1 ==> s.subrange(0, j - 1)[m] == s[m]);
        }
        lemma_dec_value_nonneg(s.subrange(0, j - 1));
        assert(dec_digit(pre.last()));
    }
}

/// Compute the cursor a seek from `(pos, len)` aims at. Fails with
/// `InvalidSeekPosition` exactly when the target is negative or does not fit
/// in a `u64`.
pub fn seek_target(pos: u64, len: u64, from: SeekFrom) -> (r: Result<u64, GCSReaderError>)
    ensures
        ({
            let t = seek_target_spec(pos, len, from);
            &&& (0 <= t <= u64::MAX ==> r == Ok::<u64, GCSReaderError>(t as u64))
            &&& (!(0 <= t <= u64::MAX) ==> r == Err::<u64, GCSReaderError>(
                GCSReaderError::InvalidSeekPosition(t as i128),
            ))
        }),
{
    let t: i128 = match from {
        SeekFrom::Start(o) => o as i128,
        SeekFrom::End(o) => len as i128 + o as i128,
        SeekFrom::Current(o) => pos as i128 + o as i128,
    };
    if t < 0 || t > u64::MAX as i128 {
        Err(GCSReaderError::InvalidSeekPosition(t))
    } else {
        Ok(t as u64)
    }
}

/// Compute the exclusive end of a read's range: `pos + want` capped at
/// `len`.
pub fn read_end(pos: u64, want: usize, len: u64) -> (end: u64)
    ensures
        end == read_end_spec(pos as int, want as int, len as int),
{
    if pos >= len {
        len
    } else {
        let avail = len - pos;
        if (want as u64) < avail {
            pos + (want as u64)
        } else {
            len
        }
    }
}

/// A seekable reader over one remote object: an authorized HTTP client, the
/// object's coordinates, its fixed length, and the current cursor.
pub struct GCSReader {
    client: reqwest::blocking::Client,
    uri: GCSObjectURI,
    pos: u64,
    len: u64,
}

impl GCSReader {
    /// The current cursor position.
    pub closed spec fn cursor(&self) -> u64 {
        self.pos
    }

    /// The object's length, fixed at construction.
    pub closed spec fn length(&self) -> u64 {
        self.len
    }

    /// The object's coordinates.
    pub closed spec fn locator(&self) -> GCSObjectURI {
        self.uri
    }

    /// The reader's HTTP client, fixed at construction.
    pub closed spec fn transport(&self) -> reqwest::blocking::Client {
        self.client
    }

    /// Open a reader: resolve a token, build the authorized client, and make
    /// one metadata request to learn the object's length. The cursor starts
    /// at 0. Whether the network calls succeed is the service's to decide;
    /// whatever comes back, a reader is returned only with cursor 0 and a
    /// length read from the metadata's decimal `size` field.
    pub fn open(uri: GCSObjectURI, auth: Auth) -> (r: Result<Self, GCSReaderError>)
        ensures
            r matches Ok(rd) ==> rd.cursor() == 0 && rd.locator() == uri,
            r matches Ok(rd) ==> exists|body: Seq<char>, sz: Seq<char>|
                #![trigger json_size_of(body), parses_to_u64(sz)]
                json_size_of(body) == Some(sz) && parses_to_u64(sz) == Some(rd.length()),
            r matches Err(GCSReaderError::GetSizeError(u)) ==> u@ == canonical_spec(
                uri.bucket_spec(),
                uri.object_spec(),
            ),
    {
        let token = match auth.token() {
            Ok(t) => t,
            Err(e) => return Err(e),
        };
        let mut authorization = String::from_str("Bearer ");
        authorization.append(token.as_str());
        let client = match build_client(authorization.as_str()) {
            Ok(c) => c,
            Err(e) => return Err(GCSReaderError::RequestError(e)),
        };
        let endpoint = uri.endpoint();
        let (status, body) = match http_get_text(&client, endpoint.as_str()) {
            Ok(p) => p,
            Err(e) => return Err(GCSReaderError::RequestError(e)),
        };
        if !(200 <= status && status < 300) {
            return Err(GCSReaderError::GetError(status, body));
        }
        let len = match size_from_metadata(body.as_str()) {
            Some(l) => l,
            None => return Err(GCSReaderError::GetSizeError(uri.uri())),
        };
        proof {
            let sz = json_size_of(body@)->0;
            assert(json_size_of(body@) == Some(sz) && parses_to_u64(sz) == Some(len));
        }
        Ok(GCSReader { client, uri, pos: 0, len })
    }

    /// Parse an identifier and open a reader for it. Parse failures surface
    /// exactly as `GCSObjectURI::new` reports them, wrapped in `Uri`.
    pub fn from_uri(uri: &str, auth: Auth) -> (r: Result<Self, GCSReaderError>)
        ensures
            !has_gs_prefix(uri@) ==> (r matches Err(GCSReaderError::Uri(
                GCSObjectURIError::InvalidPrefix(u),
            )) && u@ == uri@),
            has_gs_prefix(uri@) && bucket_of(uri@).len() == 0 ==> r matches Err(
                GCSReaderError::Uri(GCSObjectURIError::MissingBucket),
            ),
            has_gs_prefix(uri@) && bucket_of(uri@).len() > 0 && object_of(uri@).len() == 0
                ==> r matches Err(GCSReaderError::Uri(GCSObjectURIError::MissingObject)),
            r matches Ok(rd) ==> parse_ok(uri@) && rd.cursor() == 0 && rd.locator().bucket_spec()
                == bucket_of(uri@) && rd.locator().object_spec() == object_of(uri@)
                && rd.locator().wf(),
    {
        let parsed = match GCSObjectURI::new(uri) {
            Ok(p) => p,
            Err(e) => return Err(GCSReaderError::Uri(e)),
        };
        Self::open(parsed, auth)
    }

    /// Fetch the byte range `[start, end)` of the object with one
    /// authenticated request (`alt=media`, `Range: bytes={start}-{end - 1}`).
    /// The service decides the outcome; a non-success status surfaces as
    /// `GetError` with the status and body, a transport failure as
    /// `RequestError`.
    pub fn read_range(&self, start: u64, end: u64) -> (r: Result<Vec<u8>, GCSReaderError>)
        requires
            start < end,
        ensures
            r matches Err(e) ==> (e matches GCSReaderError::RequestError(_) || e
                matches GCSReaderError::GetError(_, _)),
    {
        let endpoint = self.uri.endpoint();
        let (status, data) = match http_get_range(&self.client, endpoint.as_str(), start, end - 1) {
            Ok(p) => p,
            Err(e) => return Err(GCSReaderError::RequestError(e)),
        };
        if !(200 <= status && status < 300) {
            return Err(GCSReaderError::GetError(status, lossy_string(&data)));
        }
        Ok(data)
    }

    /// Copy fetched bytes to the front of the caller's buffer and advance the
    /// cursor. `data` is what one range request for `[cursor, end)` returned:
    /// exactly `min(data.len(), end - cursor)` bytes are copied, the cursor
    /// advances by that count, and the rest of the buffer is untouched.
    pub fn commit_read(&mut self, data: &Vec<u8>, buf: &mut Vec<u8>, end: u64) -> (n: usize)
        requires
            old(self).cursor() < end <= old(self).length(),
            end - old(self).cursor() <= old(buf).len(),
        ensures
            n == if data@.len() <= end - old(self).cursor() {
                data@.len() as int
            } else {
                end - old(self).cursor()
            },
            final(self).cursor() == old(self).cursor() + n,
            final(self).length() == old(self).length(),
            final(self).locator() == old(self).locator(),
            final(self).transport() == old(self).transport(),
            final(buf)@.len() == old(buf)@.len(),
            forall|i: int| 0 <= i < n ==> final(buf)@[i] == data@[i],
            forall|i: int| n <= i < old(buf)@.len() ==> final(buf)@[i] == old(buf)@[i],
    {
        let want = (end - self.pos) as usize;
        let n = if data.len() < want {
            data.len()
        } else {
            want
        };
        let mut i: usize = 0;
        while i < n
            invariant
                0 <= i <= n,
                n <= data@.len(),
                n <= buf@.len(),
                buf@.len() == old(buf)@.len(),
                forall|j: int| 0 <= j < i ==> buf@[j] == data@[j],
                forall|j: int| i <= j < buf@.len() ==> buf@[j] == old(buf)@[j],
            decreases n - i,
        {
            let b = data[i];
            buf.set(i, b);
            i += 1;
        }
        self.pos = self.pos + (n as u64);
        n
    }

    /// Read from the cursor into `buf`, advancing the cursor by the number
    /// of bytes actually received. The range requested is
    /// `[cursor, min(cursor + buf.len(), length))`; when that range is empty
    /// (cursor at or past the end, or an empty buffer), 0 is returned with no
    /// request made and nothing changed. On failure the reader and the
    /// buffer stand as before, and the reader stays usable.
    pub fn read(&mut self, buf: &mut Vec<u8>) -> (r: Result<usize, GCSReaderError>)
        ensures
            ({
                let start = old(self).cursor() as int;
                let end = read_end_spec(start, old(buf)@.len() as int, old(self).length() as int);
                &&& (start >= end ==> r == Ok::<usize, GCSReaderError>(0usize) && *final(self)
                    == *old(self) && final(buf)@ == old(buf)@)
                &&& (r matches Ok(n) ==> n <= end - start || n == 0)
                &&& (r matches Ok(n) ==> final(self).cursor() == start + n)
                &&& (r matches Ok(n) ==> forall|i: int|
                    n <= i < old(buf)@.len() ==> final(buf)@[i] == old(buf)@[i])
                &&& (r matches Err(_) ==> *final(self) == *old(self) && final(buf)@ == old(buf)@)
                &&& final(self).length() == old(self).length()
                &&& final(self).locator() == old(self).locator()
                &&& final(self).transport() == old(self).transport()
                &&& final(buf)@.len() == old(buf)@.len()
            }),
    {
        let start = self.pos;
        let end = read_end(self.pos, buf.len(), self.len);
        if start >= end {
            return Ok(0);
        }
        let data = match self.read_range(start, end) {
            Ok(d) => d,
            Err(e) => return Err(e),
        };
        let n = self.commit_read(&data, buf, end);
        Ok(n)
    }

    /// Move the cursor as the origin and offset say; no request is made.
    /// Succeeds with the new position exactly when the target lies in
    /// `[0, u64::MAX]`; otherwise fails with `InvalidSeekPosition` carrying
    /// the attempted position, and the cursor stands as before.
    pub fn seek(&mut self, from: SeekFrom) -> (r: Result<u64, GCSReaderError>)
        ensures
            ({
                let t = seek_target_spec(old(self).cursor(), old(self).length(), from);
                &&& (0 <= t <= u64::MAX ==> r == Ok::<u64, GCSReaderError>(t as u64)
                    && final(self).cursor() == t)
                &&& (!(0 <= t <= u64::MAX) ==> r == Err::<u64, GCSReaderError>(
                    GCSReaderError::InvalidSeekPosition(t as i128),
                ) && final(self).cursor() == old(self).cursor())
                &&& final(self).length() == old(self).length()
                &&& final(self).locator() == old(self).locator()
                &&& final(self).transport() == old(self).transport()
            }),
    {
        match seek_target(self.pos, self.len, from) {
            Ok(p) => {
                self.pos = p;
                Ok(p)
            },
            Err(e) => Err(e),
        }
    }
}

/// Extract the object length from a metadata body: the JSON object's `size`
/// field, read as a decimal numeral. `Some` exactly when the field is there
/// and denotes a `u64`.
pub fn size_from_metadata(body: &str) -> (r: Option<u64>)
    ensures
        r == match json_size_of(body@) {
            Some(s) => parses_to_u64(s),
            None => None::<u64>,
        },
{
    match json_size_string(body) {
        Some(s) => parse_u64_decimal(s.as_str()),
        None => None,
    }
}

/// The bytes an honest range request returns for a read at `pos` with a
/// buffer of `k` bytes, when the service serves the object `content`: the
/// slice `[pos, min(pos + k, content.len()))`, empty when that range is.
pub open spec fn served_chunk(content: Seq<u8>, pos: int, k: int) -> Seq<u8> {
    let end = read_end_spec(pos, k, content.len() as int);
    if 0 <= pos < end {
        content.subrange(pos, end)
    } else {
        Seq::<u8>::empty()
    }
}

/// After a seek to `Start(p)`, whatever the cursor was, the cursor is `p`;
/// a read there with a buffer of `k` bytes whose range lies within the
/// object is served exactly the bytes `[p, p + k)` of the content.
pub proof fn lemma_read_after_seek_start(content: Seq<u8>, pos0: u64, len: u64, p: u64, k: int)
    requires
        content.len() == len,
        0 < k,
        p + k <= len,
    ensures
        seek_target_spec(pos0, len, SeekFrom::Start(p)) == p,
        served_chunk(content, p as int, k) == content.subrange(p as int, p as int + k),
{
}

/// After a seek to `End(o)` with `o` negative and within the object, the
/// cursor sits `-o` bytes before the end; a read there with a buffer of at
/// least `-o` bytes is served exactly the last `-o` bytes of the content.
pub proof fn lemma_read_after_seek_end(content: Seq<u8>, pos0: u64, len: u64, o: i64, k: int)
    requires
        content.len() == len,
        o < 0,
        len + o >= 0,
        k >= -(o as int),
    ensures
        seek_target_spec(pos0, len, SeekFrom::End(o)) == len + o,
        served_chunk(content, len as int + o as int, k) == content.skip(len as int + o as int),
{
    assert(served_chunk(content, len as int + o as int, k) =~= content.skip(
        len as int + o as int,
    ));
}

/// The bytes that repeated reads deliver from `pos` on, each request of `k`
/// bytes served from `content` and each advancing the cursor by the bytes
/// received, until a read returns nothing.
pub open spec fn drain_from(content: Seq<u8>, pos: int, k: int) -> Seq<u8>
    decreases content.len() - pos,
    when 0 <= pos <= content.len() && k > 0
{
    if pos >= content.len() {
        Seq::<u8>::empty()
    } else {
        served_chunk(content, pos, k) + drain_from(
            content,
            read_end_spec(pos, k, content.len() as int),
            k,
        )
    }
}

/// Repeated reads from `pos` deliver the rest of the content.
pub proof fn lemma_drain_from(content: Seq<u8>, pos: int, k: int)
    requires
        0 <= pos <= content.len(),
        k > 0,
    ensures
        drain_from(content, pos, k) == content.skip(pos),
    decreases content.len() - pos,
{
    if pos >= content.len() {
        assert(content.skip(pos) =~= Seq::<u8>::empty());
    } else {
        let end = read_end_spec(pos, k, content.len() as int);
        lemma_drain_from(content, end, k);
        assert(served_chunk(content, pos, k) == content.subrange(pos, end));
        assert(content.subrange(pos, end) + content.skip(end) =~= content.skip(pos));
    }
}

/// Reading from cursor 0 to end-of-stream reproduces the object's content,
/// byte for byte and in order.
pub proof fn lemma_read_to_end(content: Seq<u8>, k: int)
    requires
        k > 0,
    ensures
        drain_from(content, 0, k) == content,
{
    lemma_drain_from(content, 0, k);
    assert(content.skip(0) =~= content);
}

} // verus!

