use vstd::prelude::*;
use vstd::string::StringSliceAdditionalSpecFns;

verus! {

/// A type usable as a cache key.
///
/// Every key has a mathematical identity, [`CacheKey::key_id`]: an injective
/// byte encoding of the key.  Two keys address the same cache entry exactly
/// when their identities are equal, and the cache's contracts are stated
/// over these identities.
pub trait CacheKey {
    /// The identity of this key: an injective byte encoding.
    spec fn key_id(&self) -> Seq<u8>;

    /// Decide whether two keys have the same identity.
    fn same_key(&self, other: &Self) -> (r: bool)
        ensures
            r == (self.key_id() == other.key_id()),
    ;
}

/// Byte-for-byte equality of two slices.
fn bytes_equal(a: &[u8], b: &[u8]) -> (r: bool)
    ensures
        r == (a@ == b@),
{
    if a.len() != b.len() {
        return false;
    }
    let n = a.len();
    let mut i: usize = 0;
    while i < n
        invariant
            n == a@.len(),
            n == b@.len(),
            i <= n,
            forall|j: int| 0 <= j < i ==> a@[j] == b@[j],
        decreases n - i,
    {
        if a[i] != b[i] {
            return false;
        }
        i = i + 1;
    }
    proof {
        assert(a@ =~= b@);
    }
    true
}

impl<'a> CacheKey for &'a str {
    open spec fn key_id(&self) -> Seq<u8> {
        self.spec_bytes()
    }

    fn same_key(&self, other: &Self) -> (r: bool) {
        bytes_equal(self.as_bytes(), other.as_bytes())
    }
}

impl CacheKey for String {
    open spec fn key_id(&self) -> Seq<u8> {
        vstd::utf8::encode_utf8(self@)
    }

    fn same_key(&self, other: &Self) -> (r: bool) {
        bytes_equal(self.as_str().as_bytes(), other.as_str().as_bytes())
    }
}

impl CacheKey for Vec<u8> {
    open spec fn key_id(&self) -> Seq<u8> {
        self@
    }

    fn same_key(&self, other: &Self) -> (r: bool) {
        bytes_equal(self.as_slice(), other.as_slice())
    }
}

} // verus!
