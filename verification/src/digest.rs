//! SHA-256 and Git blob hashes of downloaded content, computed as the bytes
//! stream by, through the `sha2` and `sha1` crates.

use vstd::prelude::*;

use sha2::Digest;

use crate::text::{decimal, hex_lower, to_hex_lower, u64_to_decimal};

verus! {

/// A running SHA-256 computation (`sha2::Sha256`), held opaque and reached
/// only through the functions below. The hasher's own type is
/// `CoreWrapper<CtVariableCoreWrapper<..>>` over `typenum` numbers, with
/// bounds on `digest` traits that a type declaration here cannot carry.
#[verifier::external_body]
pub struct Sha256Hasher {
    inner: sha2::Sha256,
}

/// A running SHA-1 computation (`sha1::Sha1`, a `CoreWrapper` too), kept
/// opaque for the same reason.
#[verifier::external_body]
pub struct Sha1Hasher {
    inner: sha1::Sha1,
}

/// The bytes a SHA-256 hasher has been fed.
pub uninterp spec fn sha256_fed(h: Sha256Hasher) -> Seq<u8>;

/// The bytes a SHA-1 hasher has been fed.
pub uninterp spec fn sha1_fed(h: Sha1Hasher) -> Seq<u8>;

/// The SHA-256 digest of a byte string.
pub uninterp spec fn sha256_of(data: Seq<u8>) -> Seq<u8>;

/// The SHA-1 digest of a byte string.
pub uninterp spec fn sha1_of(data: Seq<u8>) -> Seq<u8>;

impl Sha256Hasher {
    /// `sha2::Sha256::new`: a hasher that has been fed nothing.
    #[verifier::external_body]
    pub(crate) fn new() -> (res: Sha256Hasher)
        ensures
            sha256_fed(res) == Seq::<u8>::empty(),
    {
        Sha256Hasher { inner: sha2::Sha256::new() }
    }

    /// `Digest::update`: the bytes are appended to what the hasher was fed.
    #[verifier::external_body]
    pub(crate) fn update(&mut self, data: &[u8])
        ensures
            sha256_fed(*final(self)) == sha256_fed(*old(self)) + data@,
    {
        self.inner.update(data);
    }

    /// `Digest::finalize`: the SHA-256 digest of everything the hasher was fed.
    #[verifier::external_body]
    pub(crate) fn finalize(self) -> (res: Vec<u8>)
        ensures
            res@ == sha256_of(sha256_fed(self)),
    {
        self.inner.finalize().to_vec()
    }
}

impl Sha1Hasher {
    /// `sha1::Sha1::new`: a hasher that has been fed nothing.
    #[verifier::external_body]
    pub(crate) fn new() -> (res: Sha1Hasher)
        ensures
            sha1_fed(res) == Seq::<u8>::empty(),
    {
        Sha1Hasher { inner: sha1::Sha1::new() }
    }

    /// `Digest::update`: the bytes are appended to what the hasher was fed.
    #[verifier::external_body]
    pub(crate) fn update(&mut self, data: &[u8])
        ensures
            sha1_fed(*final(self)) == sha1_fed(*old(self)) + data@,
    {
        self.inner.update(data);
    }

    /// `Digest::finalize`: the SHA-1 digest of everything the hasher was fed.
    #[verifier::external_body]
    pub(crate) fn finalize(self) -> (res: Vec<u8>)
        ensures
            res@ == sha1_of(sha1_fed(self)),
    {
        self.inner.finalize().to_vec()
    }
}

/// The bytes of an ASCII character string.
pub open spec fn ascii_bytes(s: Seq<char>) -> Seq<u8> {
    s.map_values(|c: char| c as u8)
}

/// The header Git hashes before a blob's content: `blob <size>` and a zero byte.
pub open spec fn git_blob_header(size: u64) -> Seq<u8> {
    ascii_bytes(seq!['b', 'l', 'o', 'b', ' '] + decimal(size as nat)).push(0u8)
}

/// The Git blob id of content of a stated size.
pub open spec fn git_blob_id_of(size: u64, content: Seq<u8>) -> Seq<char> {
    hex_lower(sha1_of(git_blob_header(size) + content))
}

proof fn lemma_decimal_ascii(n: nat)
    ensures
        forall|i: int| 0 <= i < decimal(n).len() ==> 48 <= #[trigger] (decimal(n)[i] as int) <= 57,
    decreases n,
{
    if n >= 10 {
        lemma_decimal_ascii(n / 10);
        let d = decimal(n / 10);
        assert forall|i: int| 0 <= i < decimal(n).len() implies 48 <= #[trigger] (decimal(n)[i] as int) <= 57 by {
            if i < d.len() {
                assert(decimal(n)[i] == d[i]);
            }
        }
    }
}

/// The header bytes of a Git blob of a given size.
pub fn git_blob_header_bytes(size: u64) -> (res: Vec<u8>)
    ensures
        res@ == git_blob_header(size),
{
    let digits = crate::text::chars_of(u64_to_decimal(size).as_str());
    let mut res: Vec<u8> = Vec::new();
    res.push(98u8);
    res.push(108u8);
    res.push(111u8);
    res.push(98u8);
    res.push(32u8);
    proof {
        lemma_decimal_ascii(size as nat);
    }
    let ghost lead = seq!['b', 'l', 'o', 'b', ' '];
    assert(res@ =~= ascii_bytes(lead));
    let mut i: usize = 0;
    while i < digits.len()
        invariant
            i <= digits@.len(),
            digits@ == decimal(size as nat),
            forall|k: int| 0 <= k < digits@.len() ==> 48 <= #[trigger] (digits@[k] as int) <= 57,
            res@ == ascii_bytes(lead + digits@.take(i as int)),
        decreases digits@.len() - i,
    {
        let c = digits[i];
        assert(48 <= (c as int) <= 57);
        let b: u8 = c as u8;
        res.push(b);
        assert(ascii_bytes(lead + digits@.take(i + 1)) =~= ascii_bytes(lead + digits@.take(i as int)).push(c as u8));
        i += 1;
    }
    assert(digits@.take(i as int) =~= digits@);
    res.push(0u8);
    res
}

/// The two hashes of a download, fed as its bytes arrive: SHA-256 over the
/// content, and SHA-1 over the Git blob header and the content.
pub struct DownloadDigests {
    sha256: Sha256Hasher,
    git: Sha1Hasher,
    size: u64,
}

impl DownloadDigests {
    #[verifier::type_invariant]
    spec fn consistent(self) -> bool {
        sha1_fed(self.git) == git_blob_header(self.size) + sha256_fed(self.sha256)
    }

    /// The content fed so far.
    pub closed spec fn content(&self) -> Seq<u8> {
        sha256_fed(self.sha256)
    }

    /// The size the Git blob header states.
    pub closed spec fn stated_size(&self) -> u64 {
        self.size
    }

    /// Hashers for content of the stated size, fed nothing yet.
    pub fn new(size: u64) -> (res: DownloadDigests)
        ensures
            res.content() == Seq::<u8>::empty(),
            res.stated_size() == size,
    {
        let sha256 = Sha256Hasher::new();
        let mut git = Sha1Hasher::new();
        let header = git_blob_header_bytes(size);
        git.update(header.as_slice());
        assert(git_blob_header(size) + sha256_fed(sha256) =~= git_blob_header(size));
        assert(Seq::<u8>::empty() + header@ =~= header@);
        DownloadDigests { sha256, git, size }
    }

    /// Feeds the next bytes of the content.
    pub fn update(&mut self, chunk: &[u8])
        ensures
            final(self).content() == old(self).content() + chunk@,
            final(self).stated_size() == old(self).stated_size(),
    {
        proof {
            use_type_invariant(&*self);
        }
        let mut taken = DownloadDigests::new(0);
        std::mem::swap(&mut taken, self);
        let DownloadDigests { mut sha256, mut git, size } = taken;
        let ghost before = sha256_fed(sha256);
        sha256.update(chunk);
        git.update(chunk);
        assert(git_blob_header(size) + before + chunk@ =~= git_blob_header(size) + (before + chunk@));
        *self = DownloadDigests { sha256, git, size };
    }

    /// The lower-case hexadecimal SHA-256 of the content and the Git blob id.
    pub fn finish(self) -> (res: (String, String))
        ensures
            res.0@ == hex_lower(sha256_of(self.content())),
            res.1@ == git_blob_id_of(self.stated_size(), self.content()),
    {
        proof {
            use_type_invariant(&self);
        }
        let DownloadDigests { sha256, git, size } = self;
        let a = sha256.finalize();
        let b = git.finalize();
        (to_hex_lower(a.as_slice()), to_hex_lower(b.as_slice()))
    }
}

} // verus!
