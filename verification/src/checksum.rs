use vstd::prelude::*;
use md5::Digest;
use crate::stream::{digest_trailer, lower_hex, md5_of, md5_trailer_text, to_lower_hex};
use crate::task::Checksums;

verus! {

/// An MD5 hasher (`md5::Md5`) being fed the bytes of a stream. Verus refuses
/// to declare `md5::Md5` itself (it is an alias of a generic wrapper), so the
/// hasher is held here, out of Verus's sight; `md5_fed` names what it was fed.
#[verifier::external_body]
pub struct Md5Stream {
    inner: md5::Md5,
}

/// The bytes an MD5 hasher has been fed, in order.
pub uninterp spec fn md5_fed(h: Md5Stream) -> Seq<u8>;

/// `md5::Md5::new()`: a hasher that has been fed nothing.
#[verifier::external_body]
fn md5_stream_new() -> (h: Md5Stream)
    ensures
        md5_fed(h) == Seq::<u8>::empty(),
{
    Md5Stream { inner: md5::Md5::new() }
}

/// `Digest::update` on an MD5 hasher: the bytes are appended to what it
/// was fed.
#[verifier::external_body]
fn md5_stream_update(h: &mut Md5Stream, data: &[u8])
    ensures
        md5_fed(*final(h)) == md5_fed(*old(h)) + data@,
{
    h.inner.update(data);
}

/// `Digest::finalize` on an MD5 hasher: the 16-byte digest of everything it
/// was fed (the same as `Md5::digest` of those bytes).
#[verifier::external_body]
fn md5_stream_finish(h: Md5Stream) -> (d: Vec<u8>)
    ensures
        d@ == md5_of(md5_fed(h)),
        d@.len() == 16,
{
    h.inner.finalize().to_vec()
}

/// A SHA-256 hasher (`sha2::Sha256`) being fed the bytes of a stream, held
/// out of Verus's sight for the same reason as `Md5Stream`.
#[verifier::external_body]
pub struct Sha256Stream {
    inner: sha2::Sha256,
}

/// The SHA-256 digest of a byte string, as computed by the `sha2` crate.
pub uninterp spec fn sha256_of(data: Seq<u8>) -> Seq<u8>;

/// The bytes a SHA-256 hasher has been fed, in order.
pub uninterp spec fn sha256_fed(h: Sha256Stream) -> Seq<u8>;

/// `sha2::Sha256::new()`: a hasher that has been fed nothing.
#[verifier::external_body]
fn sha256_stream_new() -> (h: Sha256Stream)
    ensures
        sha256_fed(h) == Seq::<u8>::empty(),
{
    Sha256Stream { inner: sha2::Sha256::new() }
}

/// `Digest::update` on a SHA-256 hasher: the bytes are appended to what it
/// was fed.
#[verifier::external_body]
fn sha256_stream_update(h: &mut Sha256Stream, data: &[u8])
    ensures
        sha256_fed(*final(h)) == sha256_fed(*old(h)) + data@,
{
    h.inner.update(data);
}

/// `Digest::finalize` on a SHA-256 hasher: the 32-byte digest of everything
/// it was fed.
#[verifier::external_body]
fn sha256_stream_finish(h: Sha256Stream) -> (d: Vec<u8>)
    ensures
        d@ == sha256_of(sha256_fed(h)),
        d@.len() == 32,
{
    h.inner.finalize().to_vec()
}

impl Md5Stream {
    /// A hasher that has been fed nothing.
    pub fn new() -> (h: Self)
        ensures
            md5_fed(h) == Seq::<u8>::empty(),
    {
        md5_stream_new()
    }

    /// Feeds more bytes.
    pub fn update(&mut self, data: &[u8])
        ensures
            md5_fed(*final(self)) == md5_fed(*old(self)) + data@,
    {
        md5_stream_update(self, data)
    }

    /// The digest of everything fed, in lowercase hexadecimal.
    pub fn finish_hex(self) -> (s: String)
        ensures
            s@ == lower_hex(md5_of(md5_fed(self))),
    {
        let d = md5_stream_finish(self);
        to_lower_hex(&d)
    }

    /// The trailer announcing the digest of everything fed.
    pub fn trailer(self) -> (s: String)
        ensures
            s@ == md5_trailer_text(md5_fed(self)),
    {
        let d = md5_stream_finish(self);
        digest_trailer(&d)
    }
}

impl Sha256Stream {
    /// A hasher that has been fed nothing.
    pub fn new() -> (h: Self)
        ensures
            sha256_fed(h) == Seq::<u8>::empty(),
    {
        sha256_stream_new()
    }

    /// Feeds more bytes.
    pub fn update(&mut self, data: &[u8])
        ensures
            sha256_fed(*final(self)) == sha256_fed(*old(self)) + data@,
    {
        sha256_stream_update(self, data)
    }

    /// The digest of everything fed, in lowercase hexadecimal.
    pub fn finish_hex(self) -> (s: String)
        ensures
            s@ == lower_hex(sha256_of(sha256_fed(self))),
    {
        let d = sha256_stream_finish(self);
        to_lower_hex(&d)
    }
}

/// The checksums of a file as its bytes are read: both hashers are always
/// fed the same bytes.
pub struct FileDigest {
    md5: Md5Stream,
    sha256: Sha256Stream,
}

impl FileDigest {
    /// The bytes fed so far.
    pub closed spec fn fed(&self) -> Seq<u8> {
        md5_fed(self.md5)
    }

    /// Well formed: both hashers were fed the same bytes.
    pub closed spec fn wf(&self) -> bool {
        md5_fed(self.md5) == sha256_fed(self.sha256)
    }

    /// Nothing read yet.
    pub fn new() -> (d: Self)
        ensures
            d.wf(),
            d.fed() == Seq::<u8>::empty(),
    {
        FileDigest { md5: Md5Stream::new(), sha256: Sha256Stream::new() }
    }

    /// Takes the next bytes of the file.
    pub fn update(&mut self, data: &[u8])
        requires
            old(self).wf(),
        ensures
            final(self).wf(),
            final(self).fed() == old(self).fed() + data@,
    {
        self.md5.update(data);
        self.sha256.update(data);
    }

    /// The checksums of every byte read: MD5 and SHA-256 in lowercase
    /// hexadecimal.
    pub fn finish(self) -> (c: Checksums)
        requires
            self.wf(),
        ensures
            c.md5 matches Some(m) && m@ == lower_hex(md5_of(self.fed())),
            c.sha256 matches Some(h) && h@ == lower_hex(sha256_of(self.fed())),
    {
        let FileDigest { md5, sha256 } = self;
        let m = md5.finish_hex();
        let h = sha256.finish_hex();
        Checksums { md5: Some(m), sha256: Some(h) }
    }
}

} // verus!
