//! Parsing of `gs://bucket/object` identifiers and construction of the
//! storage service's object endpoint URL.

use vstd::prelude::*;

use crate::errors::GCSObjectURIError;

verus! {

/// The characters of the required scheme prefix, `gs://`.
pub open spec fn gs_prefix() -> Seq<char> {
    seq!['g', 's', ':', '/', '/']
}

/// Whether `s` begins with `gs://`.
pub open spec fn has_gs_prefix(s: Seq<char>) -> bool {
    s.len() >= 5 && s.subrange(0, 5) == gs_prefix()
}

/// Index of the first `/` in `s` at or after `i`; `s.len()` if there is none.
pub open spec fn find_slash(s: Seq<char>, i: int) -> int
    decreases s.len() - i,
{
    if i < 0 || i >= s.len() {
        s.len() as int
    } else if s[i] == '/' {
        i
    } else {
        find_slash(s, i + 1)
    }
}

pub proof fn lemma_find_slash(s: Seq<char>, i: int)
    requires
        0 <= i <= s.len(),
    ensures
        i <= find_slash(s, i) <= s.len(),
        find_slash(s, i) < s.len() ==> s[find_slash(s, i)] == '/',
        forall|j: int| i <= j < find_slash(s, i) ==> s[j] != '/',
    decreases s.len() - i,
{
    if i < s.len() && s[i] != '/' {
        lemma_find_slash(s, i + 1);
    }
}

/// A position `k` whose prefix holds no `/`, and which is either the end of
/// `s` or a `/` itself, is exactly where the first `/` is found.
pub proof fn lemma_find_slash_unique(s: Seq<char>, i: int, k: int)
    requires
        0 <= i <= k <= s.len(),
        forall|j: int| i <= j < k ==> s[j] != '/',
        k < s.len() ==> s[k] == '/',
    ensures
        find_slash(s, i) == k,
    decreases k - i,
{
    if i < k {
        lemma_find_slash_unique(s, i + 1, k);
    }
}

/// What follows the scheme prefix.
pub open spec fn rest_of(s: Seq<char>) -> Seq<char> {
    s.skip(5)
}

/// The bucket segment of an identifier: everything after the prefix and
/// before the first `/`.
pub open spec fn bucket_of(s: Seq<char>) -> Seq<char> {
    rest_of(s).subrange(0, find_slash(rest_of(s), 0))
}

/// The object segment of an identifier: everything after the first `/` that
/// follows the prefix; empty when no such `/` exists.
pub open spec fn object_of(s: Seq<char>) -> Seq<char> {
    let rest = rest_of(s);
    let k = find_slash(rest, 0);
    if k < rest.len() {
        rest.skip(k + 1)
    } else {
        Seq::<char>::empty()
    }
}

/// An identifier that parses: prefixed, with non-empty bucket and object.
pub open spec fn parse_ok(s: Seq<char>) -> bool {
    &&& has_gs_prefix(s)
    &&& bucket_of(s).len() > 0
    &&& object_of(s).len() > 0
}

/// `gs://{bucket}/{object}`, as characters.
pub open spec fn canonical_spec(bucket: Seq<char>, object: Seq<char>) -> Seq<char> {
    gs_prefix() + bucket + seq!['/'] + object
}

/// One character of an object name as it appears in the endpoint path:
/// `/` becomes `%2F`, every other character stands as itself.
pub open spec fn enc_char(c: char) -> Seq<char> {
    if c == '/' {
        seq!['%', '2', 'F']
    } else {
        seq![c]
    }
}

/// An object name with every `/` percent-encoded as `%2F`.
pub open spec fn encode_slashes(s: Seq<char>) -> Seq<char>
    decreases s.len(),
{
    if s.len() == 0 {
        Seq::<char>::empty()
    } else {
        encode_slashes(s.drop_last()) + enc_char(s.last())
    }
}

/// The storage service's object endpoint for the given coordinates.
pub open spec fn endpoint_spec(bucket: Seq<char>, object: Seq<char>) -> Seq<char> {
    "https://storage.googleapis.com/storage/v1/b/"@ + bucket + "/o/"@ + encode_slashes(object)
}

/// The coordinates of one object: a bucket name and an object name.
/// Both are non-empty, and the bucket name holds no `/`.
#[derive(Debug, Clone)]
pub struct GCSObjectURI {
    bucket: String,
    object: String,
}

impl GCSObjectURI {
    /// The bucket name, as a sequence of characters.
    pub closed spec fn bucket_spec(&self) -> Seq<char> {
        self.bucket@
    }

    /// The object name, as a sequence of characters.
    pub closed spec fn object_spec(&self) -> Seq<char> {
        self.object@
    }

    /// Structural invariant: both segments non-empty, no `/` in the bucket.
    pub open spec fn wf(&self) -> bool {
        &&& self.bucket_spec().len() > 0
        &&& self.object_spec().len() > 0
        &&& forall|i: int| 0 <= i < self.bucket_spec().len() ==> self.bucket_spec()[i] != '/'
    }

    /// Parse an identifier of the form `gs://{bucket}/{object}`.
    ///
    /// Exactly one of four outcomes holds: the prefix is wrong, the bucket
    /// segment is empty, the object segment is empty or absent, or the parse
    /// succeeds with the two segments split at the first `/` after the prefix.
    pub fn new(uri: &str) -> (r: Result<Self, GCSObjectURIError>)
        ensures
            match r {
                Ok(o) => {
                    &&& parse_ok(uri@)
                    &&& o.bucket_spec() == bucket_of(uri@)
                    &&& o.object_spec() == object_of(uri@)
                    &&& o.wf()
                },
                Err(GCSObjectURIError::InvalidPrefix(u)) => !has_gs_prefix(uri@) && u@ == uri@,
                Err(GCSObjectURIError::MissingBucket) => has_gs_prefix(uri@) && bucket_of(
                    uri@,
                ).len() == 0,
                Err(GCSObjectURIError::MissingObject) => has_gs_prefix(uri@) && bucket_of(
                    uri@,
                ).len() > 0 && object_of(uri@).len() == 0,
            },
    {
        let n = uri.unicode_len();
        if n < 5 || uri.get_char(0) != 'g' || uri.get_char(1) != 's' || uri.get_char(2) != ':'
            || uri.get_char(3) != '/' || uri.get_char(4) != '/' {
            proof {
                if has_gs_prefix(uri@) {
                    assert(uri@.subrange(0, 5)[0] == uri@[0]);
                    assert(uri@.subrange(0, 5)[1] == uri@[1]);
                    assert(uri@.subrange(0, 5)[2] == uri@[2]);
                    assert(uri@.subrange(0, 5)[3] == uri@[3]);
                    assert(uri@.subrange(0, 5)[4] == uri@[4]);
                }
            }
            return Err(GCSObjectURIError::InvalidPrefix(uri.to_owned()));
        }
        proof {
            assert(uri@.subrange(0, 5) =~= gs_prefix());
        }
        let ghost rest = rest_of(uri@);
        let mut i: usize = 5;
        while i < n && uri.get_char(i) != '/'
            invariant
                5 <= i <= n,
                n == uri@.len(),
                forall|j: int| 5 <= j < i ==> uri@[j] != '/',
            decreases n - i,
        {
            i += 1;
        }
        proof {
            assert(rest.len() == n - 5);
            assert forall|j: int| 0 <= j < i - 5 implies rest[j] != '/' by {
                assert(rest[j] == uri@[j + 5]);
            }
            if i < n {
                assert(rest[i - 5] == uri@[i as int]);
            }
            lemma_find_slash_unique(rest, 0, i - 5);
        }
        if i == 5 {
            return Err(GCSObjectURIError::MissingBucket);
        }
        if i >= n - 1 {
            proof {
                assert(bucket_of(uri@).len() == i - 5 > 0);
                assert(object_of(uri@).len() == 0);
            }
            return Err(GCSObjectURIError::MissingObject);
        }
        let bucket = uri.substring_char(5, i).to_owned();
        let object = uri.substring_char(i + 1, n).to_owned();
        proof {
            assert(bucket@ =~= bucket_of(uri@));
            assert(object@ =~= object_of(uri@));
            lemma_find_slash(rest, 0);
        }
        Ok(GCSObjectURI { bucket, object })
    }

    /// The raw bucket name.
    pub fn bucket(&self) -> (r: &str)
        ensures
            r@ == self.bucket_spec(),
    {
        self.bucket.as_str()
    }

    /// The raw, unescaped object name.
    pub fn object(&self) -> (r: &str)
        ensures
            r@ == self.object_spec(),
    {
        self.object.as_str()
    }

    /// The storage service's object endpoint URL, with every `/` of the
    /// object name percent-encoded as `%2F`.
    pub fn endpoint(&self) -> (r: String)
        ensures
            r@ == endpoint_spec(self.bucket_spec(), self.object_spec()),
    {
        let mut r = String::from_str("https://storage.googleapis.com/storage/v1/b/");
        r.append(self.bucket.as_str());
        r.append("/o/");
        let enc = encode_object(self.object.as_str());
        r.append(enc.as_str());
        proof {
            assert(r@ =~= endpoint_spec(self.bucket_spec(), self.object_spec()));
        }
        r
    }

    /// The canonical `gs://{bucket}/{object}` identifier.
    pub fn uri(&self) -> (r: String)
        ensures
            r@ == canonical_spec(self.bucket_spec(), self.object_spec()),
    {
        let mut r = String::from_str("gs://");
        r.append(self.bucket.as_str());
        r.append("/");
        r.append(self.object.as_str());
        proof {
            reveal_strlit("gs://");
            reveal_strlit("/");
            assert(r@ =~= canonical_spec(self.bucket_spec(), self.object_spec()));
        }
        r
    }
}

/// Percent-encode every `/` of `s` as `%2F`, leaving all else as it stands.
fn encode_object(s: &str) -> (r: String)
    ensures
        r@ == encode_slashes(s@),
{
    let n = s.unicode_len();
    let mut r = String::new();
    let mut i: usize = 0;
    proof {
        reveal_strlit("%2F");
        assert(s@.subrange(0, 0) =~= Seq::<char>::empty());
    }
    while i < n
        invariant
            0 <= i <= n,
            n == s@.len(),
            r@ == encode_slashes(s@.subrange(0, i as int)),
        decreases n - i,
    {
        let c = s.get_char(i);
        if c == '/' {
            r.append("%2F");
            proof {
                reveal_strlit("%2F");
            }
        } else {
            let piece = s.substring_char(i, i + 1);
            r.append(piece);
        }
        proof {
            let pre = s@.subrange(0, i + 1);
            assert(pre.drop_last() =~= s@.subrange(0, i as int));
            assert(pre.last() == s@[i as int]);
            if s@[i as int] != '/' {
                assert(s@.subrange(i as int, i + 1) =~= seq![s@[i as int]]);
            }
            assert(r@ =~= encode_slashes(s@.subrange(0, i + 1)));
        }
        i += 1;
    }
    proof {
        assert(s@.subrange(0, n as int) =~= s@);
    }
    r
}

/// Round trip: a canonical identifier built from a non-empty bucket without
/// `/` and a non-empty object parses back to exactly those two segments.
pub proof fn lemma_parse_canonical(b: Seq<char>, o: Seq<char>)
    requires
        b.len() > 0,
        o.len() > 0,
        forall|i: int| 0 <= i < b.len() ==> b[i] != '/',
    ensures
        parse_ok(canonical_spec(b, o)),
        bucket_of(canonical_spec(b, o)) == b,
        object_of(canonical_spec(b, o)) == o,
{
    let s = canonical_spec(b, o);
    assert(s.subrange(0, 5) =~= gs_prefix());
    let rest = rest_of(s);
    assert(rest =~= b + seq!['/'] + o);
    assert forall|j: int| 0 <= j < b.len() implies rest[j] != '/' by {
        assert(rest[j] == b[j]);
    }
    assert(rest[b.len() as int] == '/');
    lemma_find_slash_unique(rest, 0, b.len() as int);
    assert(bucket_of(s) =~= b);
    assert(object_of(s) =~= o);
}

/// The other direction of the round trip: any identifier that parses equals
/// the canonical form of its own two segments.
pub proof fn lemma_canonical_reconstructs(s: Seq<char>)
    requires
        parse_ok(s),
    ensures
        canonical_spec(bucket_of(s), object_of(s)) == s,
{
    let rest = rest_of(s);
    let k = find_slash(rest, 0);
    lemma_find_slash(rest, 0);
    assert(k < rest.len());
    let c = canonical_spec(bucket_of(s), object_of(s));
    assert forall|i: int| 0 <= i < s.len() implies c[i] == s[i] by {
        if i < 5 {
            assert(c[i] == gs_prefix()[i]);
            assert(s.subrange(0, 5)[i] == s[i]);
        } else if i < 5 + k {
            assert(c[i] == bucket_of(s)[i - 5]);
            assert(bucket_of(s)[i - 5] == rest[i - 5]);
            assert(rest[i - 5] == s[i]);
        } else if i == 5 + k {
            assert(c[i] == '/');
            assert(rest[k] == s[i]);
        } else {
            assert(c[i] == object_of(s)[i - 5 - k - 1]);
            assert(object_of(s)[i - 5 - k - 1] == rest[i - 5]);
            assert(rest[i - 5] == s[i]);
        }
    }
    assert(c =~= s);
}

} // verus!
