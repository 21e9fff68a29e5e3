//! The digest computations of the outside crates, each behind a state type
//! of this library and three trusted calls: start, absorb bytes, finish.
//!
//! Every state type stands for the bytes absorbed so far (`*_input`), and
//! every finished digest is the algorithm's digest of those bytes
//! (`*_digest`), with the length the algorithm fixes. The digest
//! crates' hasher types are instances of a generic wrapper over `typenum`
//! sizes that Verus cannot declare, so each is held in a private field of an
//! opaque struct.

use vstd::prelude::*;
use digest::Digest;

verus! {

/// The running state of a MD5 computation: a `md5::Md5`.
#[verifier::external_body]
pub struct Md5State {
    inner: md5::Md5,
}

/// The bytes a MD5 state has absorbed since it was made.
pub uninterp spec fn md5_input(state: Md5State) -> Seq<u8>;

/// The MD5 digest of `data`.
pub uninterp spec fn md5_digest(data: Seq<u8>) -> Seq<u8>;

/// `md5::Md5::new()` (through `Digest::new`): a state that has absorbed nothing.
#[verifier::external_body]
pub(crate) fn md5_new() -> (s: Md5State)
    ensures
        md5_input(s) == Seq::<u8>::empty(),
{
    Md5State { inner: <md5::Md5 as Digest>::new() }
}

/// `Digest::update` on a `md5::Md5`: the data is absorbed after what came before.
#[verifier::external_body]
pub(crate) fn md5_update(s: &mut Md5State, data: &[u8])
    ensures
        md5_input(*final(s)) == md5_input(*old(s)) + data@,
{
    Digest::update(&mut s.inner, data);
}

/// `Digest::finalize` on a `md5::Md5`, its output copied into a vector: the
/// MD5 digest of all absorbed bytes, 16 bytes long.
#[verifier::external_body]
pub(crate) fn md5_finalize(s: Md5State) -> (d: Vec<u8>)
    ensures
        d@ == md5_digest(md5_input(s)),
        d@.len() == 16,
{
    Digest::finalize(s.inner).to_vec()
}

/// The running state of a SHA-1 computation: a `sha1::Sha1`.
#[verifier::external_body]
pub struct Sha1State {
    inner: sha1::Sha1,
}

/// The bytes a SHA-1 state has absorbed since it was made.
pub uninterp spec fn sha1_input(state: Sha1State) -> Seq<u8>;

/// The SHA-1 digest of `data`.
pub uninterp spec fn sha1_digest(data: Seq<u8>) -> Seq<u8>;

/// `sha1::Sha1::new()` (through `Digest::new`): a state that has absorbed nothing.
#[verifier::external_body]
pub(crate) fn sha1_new() -> (s: Sha1State)
    ensures
        sha1_input(s) == Seq::<u8>::empty(),
{
    Sha1State { inner: <sha1::Sha1 as Digest>::new() }
}

/// `Digest::update` on a `sha1::Sha1`: the data is absorbed after what came before.
#[verifier::external_body]
pub(crate) fn sha1_update(s: &mut Sha1State, data: &[u8])
    ensures
        sha1_input(*final(s)) == sha1_input(*old(s)) + data@,
{
    Digest::update(&mut s.inner, data);
}

/// `Digest::finalize` on a `sha1::Sha1`, its output copied into a vector: the
/// SHA-1 digest of all absorbed bytes, 20 bytes long.
#[verifier::external_body]
pub(crate) fn sha1_finalize(s: Sha1State) -> (d: Vec<u8>)
    ensures
        d@ == sha1_digest(sha1_input(s)),
        d@.len() == 20,
{
    Digest::finalize(s.inner).to_vec()
}

/// The running state of a SHA-224 computation: a `sha2::Sha224`.
#[verifier::external_body]
pub struct Sha224State {
    inner: sha2::Sha224,
}

/// The bytes a SHA-224 state has absorbed since it was made.
pub uninterp spec fn sha224_input(state: Sha224State) -> Seq<u8>;

/// The SHA-224 digest of `data`.
pub uninterp spec fn sha224_digest(data: Seq<u8>) -> Seq<u8>;

/// `sha2::Sha224::new()` (through `Digest::new`): a state that has absorbed nothing.
#[verifier::external_body]
pub(crate) fn sha224_new() -> (s: Sha224State)
    ensures
        sha224_input(s) == Seq::<u8>::empty(),
{
    Sha224State { inner: <sha2::Sha224 as Digest>::new() }
}

/// `Digest::update` on a `sha2::Sha224`: the data is absorbed after what came before.
#[verifier::external_body]
pub(crate) fn sha224_update(s: &mut Sha224State, data: &[u8])
    ensures
        sha224_input(*final(s)) == sha224_input(*old(s)) + data@,
{
    Digest::update(&mut s.inner, data);
}

/// `Digest::finalize` on a `sha2::Sha224`, its output copied into a vector: the
/// SHA-224 digest of all absorbed bytes, 28 bytes long.
#[verifier::external_body]
pub(crate) fn sha224_finalize(s: Sha224State) -> (d: Vec<u8>)
    ensures
        d@ == sha224_digest(sha224_input(s)),
        d@.len() == 28,
{
    Digest::finalize(s.inner).to_vec()
}

/// The running state of a SHA-256 computation: a `sha2::Sha256`.
#[verifier::external_body]
pub struct Sha256State {
    inner: sha2::Sha256,
}

/// The bytes a SHA-256 state has absorbed since it was made.
pub uninterp spec fn sha256_input(state: Sha256State) -> Seq<u8>;

/// The SHA-256 digest of `data`.
pub uninterp spec fn sha256_digest(data: Seq<u8>) -> Seq<u8>;

/// `sha2::Sha256::new()` (through `Digest::new`): a state that has absorbed nothing.
#[verifier::external_body]
pub(crate) fn sha256_new() -> (s: Sha256State)
    ensures
        sha256_input(s) == Seq::<u8>::empty(),
{
    Sha256State { inner: <sha2::Sha256 as Digest>::new() }
}

/// `Digest::update` on a `sha2::Sha256`: the data is absorbed after what came before.
#[verifier::external_body]
pub(crate) fn sha256_update(s: &mut Sha256State, data: &[u8])
    ensures
        sha256_input(*final(s)) == sha256_input(*old(s)) + data@,
{
    Digest::update(&mut s.inner, data);
}

/// `Digest::finalize` on a `sha2::Sha256`, its output copied into a vector: the
/// SHA-256 digest of all absorbed bytes, 32 bytes long.
#[verifier::external_body]
pub(crate) fn sha256_finalize(s: Sha256State) -> (d: Vec<u8>)
    ensures
        d@ == sha256_digest(sha256_input(s)),
        d@.len() == 32,
{
    Digest::finalize(s.inner).to_vec()
}

/// The running state of a SHA-384 computation: a `sha2::Sha384`.
#[verifier::external_body]
pub struct Sha384State {
    inner: sha2::Sha384,
}

/// The bytes a SHA-384 state has absorbed since it was made.
pub uninterp spec fn sha384_input(state: Sha384State) -> Seq<u8>;

/// The SHA-384 digest of `data`.
pub uninterp spec fn sha384_digest(data: Seq<u8>) -> Seq<u8>;

/// `sha2::Sha384::new()` (through `Digest::new`): a state that has absorbed nothing.
#[verifier::external_body]
pub(crate) fn sha384_new() -> (s: Sha384State)
    ensures
        sha384_input(s) == Seq::<u8>::empty(),
{
    Sha384State { inner: <sha2::Sha384 as Digest>::new() }
}

/// `Digest::update` on a `sha2::Sha384`: the data is absorbed after what came before.
#[verifier::external_body]
pub(crate) fn sha384_update(s: &mut Sha384State, data: &[u8])
    ensures
        sha384_input(*final(s)) == sha384_input(*old(s)) + data@,
{
    Digest::update(&mut s.inner, data);
}

/// `Digest::finalize` on a `sha2::Sha384`, its output copied into a vector: the
/// SHA-384 digest of all absorbed bytes, 48 bytes long.
#[verifier::external_body]
pub(crate) fn sha384_finalize(s: Sha384State) -> (d: Vec<u8>)
    ensures
        d@ == sha384_digest(sha384_input(s)),
        d@.len() == 48,
{
    Digest::finalize(s.inner).to_vec()
}

/// The running state of a SHA-512 computation: a `sha2::Sha512`.
#[verifier::external_body]
pub struct Sha512State {
    inner: sha2::Sha512,
}

/// The bytes a SHA-512 state has absorbed since it was made.
pub uninterp spec fn sha512_input(state: Sha512State) -> Seq<u8>;

/// The SHA-512 digest of `data`.
pub uninterp spec fn sha512_digest(data: Seq<u8>) -> Seq<u8>;

/// `sha2::Sha512::new()` (through `Digest::new`): a state that has absorbed nothing.
#[verifier::external_body]
pub(crate) fn sha512_new() -> (s: Sha512State)
    ensures
        sha512_input(s) == Seq::<u8>::empty(),
{
    Sha512State { inner: <sha2::Sha512 as Digest>::new() }
}

/// `Digest::update` on a `sha2::Sha512`: the data is absorbed after what came before.
#[verifier::external_body]
pub(crate) fn sha512_update(s: &mut Sha512State, data: &[u8])
    ensures
        sha512_input(*final(s)) == sha512_input(*old(s)) + data@,
{
    Digest::update(&mut s.inner, data);
}

/// `Digest::finalize` on a `sha2::Sha512`, its output copied into a vector: the
/// SHA-512 digest of all absorbed bytes, 64 bytes long.
#[verifier::external_body]
pub(crate) fn sha512_finalize(s: Sha512State) -> (d: Vec<u8>)
    ensures
        d@ == sha512_digest(sha512_input(s)),
        d@.len() == 64,
{
    Digest::finalize(s.inner).to_vec()
}

/// The running state of a SHA-512/256 computation: a `sha2::Sha512_256`.
#[verifier::external_body]
pub struct Sha512_256State {
    inner: sha2::Sha512_256,
}

/// The bytes a SHA-512/256 state has absorbed since it was made.
pub uninterp spec fn sha512_256_input(state: Sha512_256State) -> Seq<u8>;

/// The SHA-512/256 digest of `data`.
pub uninterp spec fn sha512_256_digest(data: Seq<u8>) -> Seq<u8>;

/// `sha2::Sha512_256::new()` (through `Digest::new`): a state that has absorbed nothing.
#[verifier::external_body]
pub(crate) fn sha512_256_new() -> (s: Sha512_256State)
    ensures
        sha512_256_input(s) == Seq::<u8>::empty(),
{
    Sha512_256State { inner: <sha2::Sha512_256 as Digest>::new() }
}

/// `Digest::update` on a `sha2::Sha512_256`: the data is absorbed after what came before.
#[verifier::external_body]
pub(crate) fn sha512_256_update(s: &mut Sha512_256State, data: &[u8])
    ensures
        sha512_256_input(*final(s)) == sha512_256_input(*old(s)) + data@,
{
    Digest::update(&mut s.inner, data);
}

/// `Digest::finalize` on a `sha2::Sha512_256`, its output copied into a vector: the
/// SHA-512/256 digest of all absorbed bytes, 32 bytes long.
#[verifier::external_body]
pub(crate) fn sha512_256_finalize(s: Sha512_256State) -> (d: Vec<u8>)
    ensures
        d@ == sha512_256_digest(sha512_256_input(s)),
        d@.len() == 32,
{
    Digest::finalize(s.inner).to_vec()
}

/// The running state of a BLAKE2s-256 computation: a `blake2::Blake2s256`.
#[verifier::external_body]
pub struct Blake2sState {
    inner: blake2::Blake2s256,
}

/// The bytes a BLAKE2s-256 state has absorbed since it was made.
pub uninterp spec fn blake2s_input(state: Blake2sState) -> Seq<u8>;

/// The BLAKE2s-256 digest of `data`.
pub uninterp spec fn blake2s_digest(data: Seq<u8>) -> Seq<u8>;

/// `blake2::Blake2s256::new()` (through `Digest::new`): a state that has absorbed nothing.
#[verifier::external_body]
pub(crate) fn blake2s_new() -> (s: Blake2sState)
    ensures
        blake2s_input(s) == Seq::<u8>::empty(),
{
    Blake2sState { inner: <blake2::Blake2s256 as Digest>::new() }
}

/// `Digest::update` on a `blake2::Blake2s256`: the data is absorbed after what came before.
#[verifier::external_body]
pub(crate) fn blake2s_update(s: &mut Blake2sState, data: &[u8])
    ensures
        blake2s_input(*final(s)) == blake2s_input(*old(s)) + data@,
{
    Digest::update(&mut s.inner, data);
}

/// `Digest::finalize` on a `blake2::Blake2s256`, its output copied into a vector: the
/// BLAKE2s-256 digest of all absorbed bytes, 32 bytes long.
#[verifier::external_body]
pub(crate) fn blake2s_finalize(s: Blake2sState) -> (d: Vec<u8>)
    ensures
        d@ == blake2s_digest(blake2s_input(s)),
        d@.len() == 32,
{
    Digest::finalize(s.inner).to_vec()
}

/// The running state of a BLAKE2b-512 computation: a `blake2::Blake2b512`.
#[verifier::external_body]
pub struct Blake2bState {
    inner: blake2::Blake2b512,
}

/// The bytes a BLAKE2b-512 state has absorbed since it was made.
pub uninterp spec fn blake2b_input(state: Blake2bState) -> Seq<u8>;

/// The BLAKE2b-512 digest of `data`.
pub uninterp spec fn blake2b_digest(data: Seq<u8>) -> Seq<u8>;

/// `blake2::Blake2b512::new()` (through `Digest::new`): a state that has absorbed nothing.
#[verifier::external_body]
pub(crate) fn blake2b_new() -> (s: Blake2bState)
    ensures
        blake2b_input(s) == Seq::<u8>::empty(),
{
    Blake2bState { inner: <blake2::Blake2b512 as Digest>::new() }
}

/// `Digest::update` on a `blake2::Blake2b512`: the data is absorbed after what came before.
#[verifier::external_body]
pub(crate) fn blake2b_update(s: &mut Blake2bState, data: &[u8])
    ensures
        blake2b_input(*final(s)) == blake2b_input(*old(s)) + data@,
{
    Digest::update(&mut s.inner, data);
}

/// `Digest::finalize` on a `blake2::Blake2b512`, its output copied into a vector: the
/// BLAKE2b-512 digest of all absorbed bytes, 64 bytes long.
#[verifier::external_body]
pub(crate) fn blake2b_finalize(s: Blake2bState) -> (d: Vec<u8>)
    ensures
        d@ == blake2b_digest(blake2b_input(s)),
        d@.len() == 64,
{
    Digest::finalize(s.inner).to_vec()
}

#[verifier::external_type_specification]
#[verifier::external_body]
pub struct ExBlake3Hasher(blake3::Hasher);

/// The bytes a BLAKE3 hasher has absorbed since it was made.
pub uninterp spec fn blake3_input(state: blake3::Hasher) -> Seq<u8>;

/// The BLAKE3 digest (default 32-byte output) of `data`.
pub uninterp spec fn blake3_digest(data: Seq<u8>) -> Seq<u8>;

/// `blake3::Hasher::new()`: a hasher that has absorbed nothing.
#[verifier::external_body]
pub(crate) fn blake3_new() -> (h: blake3::Hasher)
    ensures
        blake3_input(h) == Seq::<u8>::empty(),
{
    blake3::Hasher::new()
}

/// `blake3::Hasher::update`: the data is absorbed after what came before.
#[verifier::external_body]
pub(crate) fn blake3_update(h: &mut blake3::Hasher, data: &[u8])
    ensures
        blake3_input(*final(h)) == blake3_input(*old(h)) + data@,
{
    h.update(data);
}

/// `blake3::Hasher::finalize`, the bytes of the resulting `Hash` copied into
/// a vector: the BLAKE3 digest of all absorbed bytes, 32 bytes long.
#[verifier::external_body]
pub(crate) fn blake3_finalize(h: blake3::Hasher) -> (d: Vec<u8>)
    ensures
        d@ == blake3_digest(blake3_input(h)),
        d@.len() == 32,
{
    h.finalize().as_bytes().to_vec()
}

} // verus!
