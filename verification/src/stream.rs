//! Checking a byte stream against an expected digest while it is written out.

use vstd::prelude::*;
use vstd::slice::slice_subrange;
use crate::error::Error;
use crate::hasher::{digest_of, hex_of, kind_of_name, to_hex, HashKind, HasherInner};

verus! {

/// Holds one output sink for the length of one attempt. The caller writes
/// to the sink and records here what the sink accepted; `finish` hands the
/// sink back only if the digest of the recorded bytes is the expected one.
pub struct HashVerifier<W> {
    inner: W,
    hasher: HasherInner,
    expected_hash: String,
    bytes_written: u64,
}

impl<W> HashVerifier<W> {
    /// The counter agrees with the bytes recorded.
    pub closed spec fn well_formed(&self) -> bool {
        self.bytes_written == self.hasher.absorbed().len()
    }

    /// The sink.
    pub closed spec fn sink(&self) -> W {
        self.inner
    }

    /// The digest algorithm.
    pub closed spec fn kind(&self) -> HashKind {
        self.hasher.kind()
    }

    /// The bytes recorded so far, in order.
    pub closed spec fn recorded(&self) -> Seq<u8> {
        self.hasher.absorbed()
    }

    /// The expected digest, as the caller gave it.
    pub closed spec fn expected(&self) -> Seq<char> {
        self.expected_hash@
    }

    /// The digest of the recorded bytes, in lower-case hexadecimal.
    pub open spec fn actual(&self) -> Seq<char> {
        hex_of(digest_of(self.kind(), self.recorded()))
    }

    /// A verifier for `inner` that has recorded nothing. `algo` is a
    /// supported canonical name.
    pub fn new(algo: &str, expected_hash: &str, inner: W) -> (v: Self)
        requires
            kind_of_name(algo@) is Some,
        ensures
            v.well_formed(),
            Some(v.kind()) == kind_of_name(algo@),
            v.recorded() == Seq::<u8>::empty(),
            v.expected() == expected_hash@,
            v.sink() == inner,
    {
        let hasher = HasherInner::new(algo).unwrap();
        HashVerifier { inner, hasher, expected_hash: String::from_str(expected_hash), bytes_written: 0 }
    }

    /// Number of bytes recorded so far.
    pub fn bytes_written(&self) -> (n: u64)
        requires
            self.well_formed(),
        ensures
            n == self.recorded().len(),
    {
        self.bytes_written
    }

    /// The sink, to write to. Nothing else of the verifier changes.
    pub fn sink_mut(&mut self) -> (w: &mut W)
        ensures
            *w == old(self).sink(),
            final(self).sink() == *final(w),
            final(self).well_formed() == old(self).well_formed(),
            final(self).recorded() == old(self).recorded(),
            final(self).kind() == old(self).kind(),
            final(self).expected() == old(self).expected(),
    {
        &mut self.inner
    }

    /// Records that the sink accepted the first `n` bytes of `buf`: exactly
    /// those enter the digest and the count.
    pub fn record_written(&mut self, buf: &[u8], n: usize)
        requires
            old(self).well_formed(),
            n <= buf@.len(),
            old(self).recorded().len() + n <= u64::MAX,
        ensures
            final(self).well_formed(),
            final(self).recorded() == old(self).recorded() + buf@.take(n as int),
            final(self).kind() == old(self).kind(),
            final(self).expected() == old(self).expected(),
            final(self).sink() == old(self).sink(),
    {
        let accepted = slice_subrange(buf, 0, n);
        assert(accepted@ =~= buf@.take(n as int));
        self.hasher.update(accepted);
        self.bytes_written = self.bytes_written + n as u64;
    }

    /// Ends the attempt. The sink comes back if and only if the digest of
    /// the recorded bytes, in lower-case hexadecimal, equals the expected
    /// digest character for character; otherwise the sink is dropped and
    /// the error carries both digests.
    pub fn finish(self) -> (r: Result<W, Error>)
        ensures
            match r {
                Ok(w) => w == self.sink() && self.actual() == self.expected(),
                Err(Error::HashMismatch { expected, actual }) => expected@ == self.expected()
                    && actual@ == self.actual() && self.actual() != self.expected(),
                Err(_) => false,
            },
    {
        let actual = to_hex(self.hasher.finalize().as_slice());
        if actual == self.expected_hash {
            Ok(self.inner)
        } else {
            Err(Error::HashMismatch { expected: self.expected_hash, actual })
        }
    }
}

} // verus!
