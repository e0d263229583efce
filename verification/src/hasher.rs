//! The digest of a byte stream, for each supported algorithm.

use vstd::prelude::*;
use digest::Digest;
use crate::text::same_text;

verus! {

/// A running SHA-1 computation: a `sha1::Sha1`, whose inside the proofs do
/// not see. What is known of it is what the functions below state.
#[verifier::external_body]
pub struct Sha1State {
    inner: sha1::Sha1,
}

/// A running SHA-256 computation: a `sha2::Sha256`, whose inside the proofs
/// do not see. What is known of it is what the functions below state.
#[verifier::external_body]
pub struct Sha256State {
    inner: sha2::Sha256,
}

/// A running SHA-512 computation: a `sha2::Sha512`, whose inside the proofs
/// do not see. What is known of it is what the functions below state.
#[verifier::external_body]
pub struct Sha512State {
    inner: sha2::Sha512,
}

/// The bytes that a SHA-1 computation has taken in so far.
pub uninterp spec fn sha1_absorbed(h: Sha1State) -> Seq<u8>;

/// The bytes that a SHA-256 computation has taken in so far.
pub uninterp spec fn sha256_absorbed(h: Sha256State) -> Seq<u8>;

/// The bytes that a SHA-512 computation has taken in so far.
pub uninterp spec fn sha512_absorbed(h: Sha512State) -> Seq<u8>;

/// The SHA-1 digest of a byte string.
pub uninterp spec fn sha1_digest(data: Seq<u8>) -> Seq<u8>;

/// The SHA-256 digest of a byte string.
pub uninterp spec fn sha256_digest(data: Seq<u8>) -> Seq<u8>;

/// The SHA-512 digest of a byte string.
pub uninterp spec fn sha512_digest(data: Seq<u8>) -> Seq<u8>;

/// `Digest::new` of `sha1::Sha1`: a computation that has taken in nothing.
#[verifier::external_body]
fn sha1_new() -> (h: Sha1State)
    ensures
        sha1_absorbed(h) == Seq::<u8>::empty(),
{
    Sha1State { inner: sha1::Sha1::new() }
}

/// `Digest::update` of `sha1::Sha1`: the computation takes in `data` after
/// what it had.
#[verifier::external_body]
fn sha1_update(h: &mut Sha1State, data: &[u8])
    ensures
        sha1_absorbed(*final(h)) == sha1_absorbed(*old(h)) + data@,
{
    h.inner.update(data)
}

/// `Digest::finalize` of `sha1::Sha1`: the digest of all that was taken in.
#[verifier::external_body]
fn sha1_finalize(h: Sha1State) -> (out: Vec<u8>)
    ensures
        out@ == sha1_digest(sha1_absorbed(h)),
{
    h.inner.finalize().to_vec()
}

/// `Digest::new` of `sha2::Sha256`: a computation that has taken in nothing.
#[verifier::external_body]
fn sha256_new() -> (h: Sha256State)
    ensures
        sha256_absorbed(h) == Seq::<u8>::empty(),
{
    Sha256State { inner: sha2::Sha256::new() }
}

/// `Digest::update` of `sha2::Sha256`: the computation takes in `data`
/// after what it had.
#[verifier::external_body]
fn sha256_update(h: &mut Sha256State, data: &[u8])
    ensures
        sha256_absorbed(*final(h)) == sha256_absorbed(*old(h)) + data@,
{
    h.inner.update(data)
}

/// `Digest::finalize` of `sha2::Sha256`: the digest of all that was taken in.
#[verifier::external_body]
fn sha256_finalize(h: Sha256State) -> (out: Vec<u8>)
    ensures
        out@ == sha256_digest(sha256_absorbed(h)),
{
    h.inner.finalize().to_vec()
}

/// `Digest::new` of `sha2::Sha512`: a computation that has taken in nothing.
#[verifier::external_body]
fn sha512_new() -> (h: Sha512State)
    ensures
        sha512_absorbed(h) == Seq::<u8>::empty(),
{
    Sha512State { inner: sha2::Sha512::new() }
}

/// `Digest::update` of `sha2::Sha512`: the computation takes in `data`
/// after what it had.
#[verifier::external_body]
fn sha512_update(h: &mut Sha512State, data: &[u8])
    ensures
        sha512_absorbed(*final(h)) == sha512_absorbed(*old(h)) + data@,
{
    h.inner.update(data)
}

/// `Digest::finalize` of `sha2::Sha512`: the digest of all that was taken in.
#[verifier::external_body]
fn sha512_finalize(h: Sha512State) -> (out: Vec<u8>)
    ensures
        out@ == sha512_digest(sha512_absorbed(h)),
{
    h.inner.finalize().to_vec()
}

/// The supported digest algorithms.
pub enum HashKind {
    Sha1,
    Sha256,
    Sha512,
}

/// The algorithm that a canonical name stands for.
pub open spec fn kind_of_name(name: Seq<char>) -> Option<HashKind> {
    if name == seq!['s', 'h', 'a', '1'] {
        Some(HashKind::Sha1)
    } else if name == seq!['s', 'h', 'a', '2', '5', '6'] {
        Some(HashKind::Sha256)
    } else if name == seq!['s', 'h', 'a', '5', '1', '2'] {
        Some(HashKind::Sha512)
    } else {
        None
    }
}

/// The digest of `data` under the given algorithm.
pub open spec fn digest_of(kind: HashKind, data: Seq<u8>) -> Seq<u8> {
    match kind {
        HashKind::Sha1 => sha1_digest(data),
        HashKind::Sha256 => sha256_digest(data),
        HashKind::Sha512 => sha512_digest(data),
    }
}

/// A running digest computation under one of the supported algorithms.
pub enum HasherInner {
    Sha1(Sha1State),
    Sha256(Sha256State),
    Sha512(Sha512State),
}

impl HasherInner {
    /// The algorithm of the computation.
    pub open spec fn kind(self) -> HashKind {
        match self {
            HasherInner::Sha1(_) => HashKind::Sha1,
            HasherInner::Sha256(_) => HashKind::Sha256,
            HasherInner::Sha512(_) => HashKind::Sha512,
        }
    }

    /// The bytes taken in so far.
    pub open spec fn absorbed(self) -> Seq<u8> {
        match self {
            HasherInner::Sha1(h) => sha1_absorbed(h),
            HasherInner::Sha256(h) => sha256_absorbed(h),
            HasherInner::Sha512(h) => sha512_absorbed(h),
        }
    }

    /// A fresh computation for a canonical algorithm name; `None` for any
    /// other name.
    pub fn new(algo: &str) -> (r: Option<HasherInner>)
        ensures
            match r {
                Some(h) => kind_of_name(algo@) == Some(h.kind()) && h.absorbed() == Seq::<
                    u8,
                >::empty(),
                None => kind_of_name(algo@) is None,
            },
    {
        proof {
            reveal_strlit("sha1");
            reveal_strlit("sha256");
            reveal_strlit("sha512");
            assert("sha1"@ =~= seq!['s', 'h', 'a', '1']);
            assert("sha256"@ =~= seq!['s', 'h', 'a', '2', '5', '6']);
            assert("sha512"@ =~= seq!['s', 'h', 'a', '5', '1', '2']);
        }
        if same_text(algo, "sha1") {
            Some(HasherInner::Sha1(sha1_new()))
        } else if same_text(algo, "sha256") {
            Some(HasherInner::Sha256(sha256_new()))
        } else if same_text(algo, "sha512") {
            Some(HasherInner::Sha512(sha512_new()))
        } else {
            None
        }
    }

    /// Takes in `data`.
    pub fn update(&mut self, data: &[u8])
        ensures
            final(self).kind() == old(self).kind(),
            final(self).absorbed() == old(self).absorbed() + data@,
    {
        match self {
            HasherInner::Sha1(h) => sha1_update(h, data),
            HasherInner::Sha256(h) => sha256_update(h, data),
            HasherInner::Sha512(h) => sha512_update(h, data),
        }
    }

    /// Ends the computation and gives the digest of all that was taken in.
    pub fn finalize(self) -> (out: Vec<u8>)
        ensures
            out@ == digest_of(self.kind(), self.absorbed()),
    {
        match self {
            HasherInner::Sha1(h) => sha1_finalize(h),
            HasherInner::Sha256(h) => sha256_finalize(h),
            HasherInner::Sha512(h) => sha512_finalize(h),
        }
    }
}

/// The lower-case hexadecimal digit for a value below sixteen.
pub open spec fn hex_digit(n: u8) -> char {
    if n < 10 {
        (48 + n) as char
    } else {
        (87 + n) as char
    }
}

/// The lower-case hexadecimal rendering of a byte string, two digits a byte.
pub open spec fn hex_of(bytes: Seq<u8>) -> Seq<char>
    decreases bytes.len(),
{
    if bytes.len() == 0 {
        Seq::empty()
    } else {
        hex_of(bytes.drop_last()).push(hex_digit(bytes.last() / 16)).push(
            hex_digit(bytes.last() % 16),
        )
    }
}

fn hex_digit_of(n: u8) -> (c: char)
    requires
        n < 16,
    ensures
        c == hex_digit(n),
{
    if n < 10 {
        (48u8 + n) as char
    } else {
        (87u8 + n) as char
    }
}

/// Renders bytes as lower-case hexadecimal.
pub fn to_hex(bytes: &[u8]) -> (out: String)
    ensures
        out@ == hex_of(bytes@),
{
    let mut out = String::new();
    let mut i: usize = 0;
    while i < bytes.len()
        invariant
            i <= bytes.len(),
            out@ == hex_of(bytes@.take(i as int)),
        decreases bytes.len() - i,
    {
        let b = bytes[i];
        proof {
            assert(bytes@.take(i + 1).drop_last() =~= bytes@.take(i as int));
        }
        out.push(hex_digit_of(b / 16));
        out.push(hex_digit_of(b % 16));
        i += 1;
    }
    proof {
        assert(bytes@.take(i as int) =~= bytes@);
    }
    out
}

} // verus!
