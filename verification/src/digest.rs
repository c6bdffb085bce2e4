//! MD5 digests in lower-case hexadecimal, from the `md5` crate.

use vstd::prelude::*;

use crate::text::{hex_lower, hex_lower_string, lemma_hex_lower_len};

verus! {

#[verifier::external_type_specification]
#[verifier::external_body]
pub struct ExMd5Context(md5::Context);

/// The MD5 digest (16 bytes) of `data`, as `md5::compute` returns it.
pub uninterp spec fn md5_digest(data: Seq<u8>) -> Seq<u8>;

/// The bytes an `md5::Context` has consumed since it was created.
pub uninterp spec fn md5_consumed(context: md5::Context) -> Seq<u8>;

/// `md5::compute`: the digest of `data`.
#[verifier::external_body]
fn md5_compute(data: &[u8]) -> (digest: [u8; 16])
    ensures
        digest@ == md5_digest(data@),
{
    md5::compute(data).0
}

/// `md5::Context::new`: a context that has consumed nothing.
#[verifier::external_body]
fn md5_context_new() -> (context: md5::Context)
    ensures
        md5_consumed(context) == Seq::<u8>::empty(),
{
    md5::Context::new()
}

/// `md5::Context::consume`: the context has consumed `data` after what it had consumed.
#[verifier::external_body]
fn md5_context_consume(context: &mut md5::Context, data: &[u8])
    ensures
        md5_consumed(*final(context)) == md5_consumed(*old(context)) + data@,
{
    context.consume(data)
}

/// `md5::Context::finalize`: the digest of everything the context has consumed, the one
/// `md5::compute` gives for those bytes (`compute` is `new`, `consume` and `finalize`).
#[verifier::external_body]
fn md5_context_finalize(context: md5::Context) -> (digest: [u8; 16])
    ensures
        digest@ == md5_digest(md5_consumed(context)),
{
    context.finalize().0
}

/// The MD5 digest of `data` in lower-case hexadecimal (what `format!("{:x}", md5::compute(data))`
/// writes).
pub fn md5_hex(data: &[u8]) -> (r: String)
    ensures
        r@ == hex_lower(md5_digest(data@)),
        r@.len() == 32,
{
    let digest = md5_compute(data);
    proof {
        lemma_hex_lower_len(digest@);
    }
    hex_lower_string(&digest)
}

/// An MD5 digest computed over data that arrives in pieces.
pub struct DigestStream {
    context: md5::Context,
}

impl DigestStream {
    /// All the bytes fed so far.
    pub closed spec fn consumed(&self) -> Seq<u8> {
        md5_consumed(self.context)
    }

    /// A stream that has been fed nothing.
    pub fn new() -> (s: Self)
        ensures
            s.consumed() == Seq::<u8>::empty(),
    {
        DigestStream { context: md5_context_new() }
    }

    /// Feeds `data` after what was fed before.
    pub fn feed(&mut self, data: &[u8])
        ensures
            final(self).consumed() == old(self).consumed() + data@,
    {
        md5_context_consume(&mut self.context, data);
    }

    /// The digest of all the bytes fed, in lower-case hexadecimal.
    pub fn finish_hex(self) -> (r: String)
        ensures
            r@ == hex_lower(md5_digest(self.consumed())),
            r@.len() == 32,
    {
        let digest = md5_context_finalize(self.context);
        proof {
            lemma_hex_lower_len(digest@);
        }
        hex_lower_string(&digest)
    }
}

} // verus!
