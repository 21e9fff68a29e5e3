//! The digest algorithms on offer: their names, and a hasher that runs any
//! of them over a stream of bytes and gives the digest in lowercase hex.

use vstd::prelude::*;
use crate::hasher::digests::{
    blake2b_digest, blake2b_finalize, blake2b_input, blake2b_new, blake2b_update, blake2s_digest,
    blake2s_finalize, blake2s_input, blake2s_new, blake2s_update, blake3_digest, blake3_finalize,
    blake3_input, blake3_new, blake3_update, md5_digest, md5_finalize, md5_input, md5_new,
    md5_update, sha1_digest, sha1_finalize, sha1_input, sha1_new, sha1_update, sha224_digest,
    sha224_finalize, sha224_input, sha224_new, sha224_update, sha256_digest, sha256_finalize,
    sha256_input, sha256_new, sha256_update, sha384_digest, sha384_finalize, sha384_input,
    sha384_new, sha384_update, sha512_256_digest, sha512_256_finalize, sha512_256_input,
    sha512_256_new, sha512_256_update, sha512_digest, sha512_finalize, sha512_input, sha512_new,
    sha512_update, Blake2bState, Blake2sState, Md5State, Sha1State, Sha224State, Sha256State,
    Sha384State, Sha512State, Sha512_256State,
};
use crate::text::{chars_of, push_char, same_chars};

verus! {

/// A digest algorithm.
#[derive(Debug, Clone, Copy, PartialEq, Eq, Structural)]
pub enum HashAlgorithm {
    Md5,
    Sha1,
    Sha224,
    Sha256,
    Sha384,
    Sha512,
    Sha512_256,
    Blake2s,
    Blake2b,
    Blake3,
}

/// The uppercase mapping of a non-ASCII character, as `char::to_uppercase`
/// yields it (one or more characters, from the Unicode character database).
pub uninterp spec fn char_uppercase(c: char) -> Seq<char>;

/// ASCII upper case of one character: `a`..`z` become `A`..`Z`.
pub open spec fn ascii_upper_char(c: char) -> char {
    if 'a' <= c && c <= 'z' {
        ((c as u32) - 32) as char
    } else {
        c
    }
}

pub open spec fn ascii_uppercase(s: Seq<char>) -> Seq<char> {
    s.map_values(|c: char| ascii_upper_char(c))
}

pub open spec fn all_ascii(s: Seq<char>) -> bool {
    forall|i: int| 0 <= i < s.len() ==> (s[i] as u32) < 128
}

/// ASCII lower case of one character: `A`..`Z` become `a`..`z`.
pub open spec fn ascii_lower_char(c: char) -> char {
    if 'A' <= c && c <= 'Z' {
        ((c as u32) + 32) as char
    } else {
        c
    }
}

pub open spec fn ascii_lowercase(s: Seq<char>) -> Seq<char> {
    s.map_values(|c: char| ascii_lower_char(c))
}

pub open spec fn is_ascii_char(c: char) -> bool {
    (c as u32) < 128
}

/// The uppercase mapping of one character: an ASCII letter `a`..`z` becomes
/// `A`..`Z`, any other ASCII character stays as it is, and a non-ASCII
/// character maps as Unicode says.
pub open spec fn upper_char(c: char) -> Seq<char> {
    if is_ascii_char(c) {
        seq![ascii_upper_char(c)]
    } else {
        char_uppercase(c)
    }
}

/// `s` in upper case: each character replaced by its uppercase mapping.
pub open spec fn uppercase(s: Seq<char>) -> Seq<char>
    decreases s.len(),
{
    if s.len() == 0 {
        s
    } else {
        uppercase(s.drop_last()) + upper_char(s.last())
    }
}

/// `char::to_uppercase`, collected into a vector. As its documentation
/// says, a character without an uppercase mapping yields itself and one with
/// a one-to-one mapping yields that character; for ASCII this means `a`..`z`
/// yield `A`..`Z` and the rest of ASCII yields itself. For other characters
/// the result is named `char_uppercase`: the Unicode tables are not written
/// out here.
#[verifier::external_body]
fn char_to_uppercase(c: char) -> (r: Vec<char>)
    ensures
        is_ascii_char(c) ==> r@ == seq![ascii_upper_char(c)],
        !is_ascii_char(c) ==> r@ == char_uppercase(c),
{
    c.to_uppercase().collect()
}

/// Upper-casing splits over concatenation.
pub proof fn lemma_uppercase_concat(a: Seq<char>, b: Seq<char>)
    ensures
        uppercase(a + b) == uppercase(a) + uppercase(b),
    decreases b.len(),
{
    if b.len() == 0 {
        assert(a + b == a);
        assert(uppercase(a) + uppercase(b) == uppercase(a));
    } else {
        lemma_uppercase_concat(a, b.drop_last());
        assert((a + b).drop_last() == a + b.drop_last());
        assert((a + b).last() == b.last());
    }
}

/// On ASCII text, upper-casing is ASCII upper case.
pub proof fn lemma_uppercase_ascii(s: Seq<char>)
    requires
        all_ascii(s),
    ensures
        uppercase(s) == ascii_uppercase(s),
    decreases s.len(),
{
    if s.len() > 0 {
        assert(all_ascii(s.drop_last()));
        lemma_uppercase_ascii(s.drop_last());
        assert(ascii_uppercase(s) =~= ascii_uppercase(s.drop_last()).push(ascii_upper_char(s.last())));
    }
}

/// Upper-casing does not see ASCII case: a text, its ASCII lower case and
/// its ASCII upper case upper-case alike.
pub proof fn lemma_uppercase_ignores_ascii_case(s: Seq<char>)
    ensures
        uppercase(ascii_lowercase(s)) == uppercase(s),
        uppercase(ascii_uppercase(s)) == uppercase(s),
    decreases s.len(),
{
    if s.len() > 0 {
        lemma_uppercase_ignores_ascii_case(s.drop_last());
        assert(ascii_lowercase(s).drop_last() =~= ascii_lowercase(s.drop_last()));
        assert(ascii_uppercase(s).drop_last() =~= ascii_uppercase(s.drop_last()));
        let c = s.last();
        assert(upper_char(ascii_lower_char(c)) == upper_char(c));
        assert(upper_char(ascii_upper_char(c)) == upper_char(c));
    }
}

fn push_all(r: &mut Vec<char>, u: &Vec<char>)
    ensures
        final(r)@ == old(r)@ + u@,
{
    let ghost start = r@;
    let mut i: usize = 0;
    while i < u.len()
        invariant
            i <= u.len(),
            r@ == start + u@.take(i as int),
        decreases u.len() - i,
    {
        r.push(u[i]);
        i += 1;
        assert(u@.take(i as int) == u@.take(i - 1).push(u@[i - 1]));
    }
    assert(u@.take(u.len() as int) == u@);
}

/// The characters of `s` in upper case, each through `char::to_uppercase`.
pub fn uppercase_chars(s: &Vec<char>) -> (r: Vec<char>)
    ensures
        r@ == uppercase(s@),
{
    let mut r: Vec<char> = Vec::new();
    let mut i: usize = 0;
    while i < s.len()
        invariant
            i <= s.len(),
            r@ == uppercase(s@.take(i as int)),
        decreases s.len() - i,
    {
        let u = char_to_uppercase(s[i]);
        assert(s@.take(i + 1).drop_last() == s@.take(i as int));
        push_all(&mut r, &u);
        i += 1;
    }
    assert(s@.take(s.len() as int) == s@);
    r
}

/// `s` without its `-` and `_` characters.
pub open spec fn strip_separators(s: Seq<char>) -> Seq<char>
    decreases s.len(),
{
    if s.len() == 0 {
        s
    } else if s.last() == '-' || s.last() == '_' {
        strip_separators(s.drop_last())
    } else {
        strip_separators(s.drop_last()).push(s.last())
    }
}

/// Removing separators from two pieces and joining them is removing them
/// from the joined pieces.
pub proof fn lemma_strip_separators_concat(a: Seq<char>, b: Seq<char>)
    ensures
        strip_separators(a + b) == strip_separators(a) + strip_separators(b),
    decreases b.len(),
{
    if b.len() == 0 {
        assert(a + b == a);
        assert(strip_separators(b) == b);
    } else {
        lemma_strip_separators_concat(a, b.drop_last());
        assert((a + b).drop_last() == a + b.drop_last());
        assert((a + b).last() == b.last());
    }
}

/// One character: a separator is removed, any other character kept; and
/// it upper-cases to its own uppercase mapping.
pub proof fn lemma_single_char(c: char)
    ensures
        strip_separators(seq![c]) == (if c == '-' || c == '_' { Seq::<char>::empty() } else { seq![c] }),
        uppercase(seq![c]) == upper_char(c),
{
    assert(seq![c].drop_last() =~= Seq::<char>::empty());
    assert(seq![c].last() == c);
    assert(strip_separators(Seq::<char>::empty()) == Seq::<char>::empty());
    assert(uppercase(Seq::<char>::empty()) == Seq::<char>::empty());
    assert(Seq::<char>::empty().push(c) =~= seq![c]);
    assert(Seq::<char>::empty() + upper_char(c) =~= upper_char(c));
}

/// Name lookup ignores ASCII letter case: any name, its ASCII lower case
/// and its ASCII upper case stand for the same algorithm, which `from_name`
/// gives for each of them.
pub proof fn lemma_lookup_ignores_case(s: Seq<char>)
    ensures
        algorithm_for(strip_separators(uppercase(ascii_lowercase(s))))
            == algorithm_for(strip_separators(uppercase(s))),
        algorithm_for(strip_separators(uppercase(ascii_uppercase(s))))
            == algorithm_for(strip_separators(uppercase(s))),
{
    lemma_uppercase_ignores_ascii_case(s);
}

/// A separator upper-cases to itself, so removing separators before or after
/// upper-casing leaves the same text.
proof fn lemma_strip_uppercase(s: Seq<char>)
    ensures
        strip_separators(uppercase(strip_separators(s))) == strip_separators(uppercase(s)),
    decreases s.len(),
{
    if s.len() > 0 {
        let p = s.drop_last();
        let c = s.last();
        lemma_strip_uppercase(p);
        lemma_strip_separators_concat(uppercase(p), upper_char(c));
        if c == '-' || c == '_' {
            assert(is_ascii_char(c) && ascii_upper_char(c) == c);
            assert(upper_char(c) == seq![c]);
            assert(seq![c].drop_last() =~= Seq::<char>::empty());
            assert(seq![c].last() == c);
            assert(strip_separators(Seq::<char>::empty()) == Seq::<char>::empty());
            assert(strip_separators(seq![c]) == strip_separators(seq![c].drop_last()));
            assert(strip_separators(seq![c]) =~= Seq::<char>::empty());
            assert(strip_separators(uppercase(p)) + Seq::<char>::empty()
                == strip_separators(uppercase(p)));
        } else {
            let sp = strip_separators(p);
            assert(strip_separators(s) == sp.push(c));
            assert(sp.push(c).drop_last() == sp);
            assert(sp.push(c).last() == c);
            assert(uppercase(sp.push(c)) == uppercase(sp) + upper_char(c));
            lemma_strip_separators_concat(uppercase(sp), upper_char(c));
        }
    }
}

/// Name lookup ignores `-` and `_` in any number and at any place: two
/// names that differ only in where and how many separators they hold stand
/// for the same algorithm, which `from_name` gives for each of them.
pub proof fn lemma_lookup_ignores_all_separators(s: Seq<char>, t: Seq<char>)
    requires
        strip_separators(s) == strip_separators(t),
    ensures
        algorithm_for(strip_separators(uppercase(t)))
            == algorithm_for(strip_separators(uppercase(s))),
{
    lemma_strip_uppercase(s);
    lemma_strip_uppercase(t);
}

/// Name lookup ignores `-` and `_` wherever they stand: inserting one at any
/// place in any name, or removing one, leaves the algorithm that `from_name`
/// gives unchanged (and so, one at a time, any number of them).
pub proof fn lemma_lookup_ignores_separators(s: Seq<char>, i: int, c: char)
    requires
        0 <= i <= s.len(),
        c == '-' || c == '_',
    ensures
        algorithm_for(strip_separators(uppercase(s.take(i) + seq![c] + s.skip(i))))
            == algorithm_for(strip_separators(uppercase(s))),
{
    let ua = uppercase(s.take(i));
    let ub = uppercase(s.skip(i));
    lemma_uppercase_concat(s.take(i) + seq![c], s.skip(i));
    lemma_uppercase_concat(s.take(i), seq![c]);
    lemma_uppercase_concat(s.take(i), s.skip(i));
    assert(s.take(i) + s.skip(i) =~= s);
    assert(seq![c].drop_last() =~= Seq::<char>::empty());
    assert(is_ascii_char(c) && ascii_upper_char(c) == c);
    assert(uppercase(Seq::<char>::empty()) == Seq::<char>::empty());
    assert(uppercase(seq![c]) =~= seq![c]);
    lemma_strip_separators_concat(ua + seq![c], ub);
    lemma_strip_separators_concat(ua, seq![c]);
    lemma_strip_separators_concat(ua, ub);
    assert(seq![c].last() == c);
    assert(strip_separators(Seq::<char>::empty()) == Seq::<char>::empty());
    assert(strip_separators(seq![c]) == strip_separators(seq![c].drop_last()));
    assert(strip_separators(seq![c]) =~= Seq::<char>::empty());
    assert(strip_separators(ua) + Seq::<char>::empty() == strip_separators(ua));
}

/// The algorithm an upper-cased, separator-free name stands for.
pub open spec fn algorithm_for(n: Seq<char>) -> Option<HashAlgorithm> {
    if n == "MD5"@ {
        Some(HashAlgorithm::Md5)
    } else if n == "SHA1"@ {
        Some(HashAlgorithm::Sha1)
    } else if n == "SHA224"@ {
        Some(HashAlgorithm::Sha224)
    } else if n == "SHA256"@ {
        Some(HashAlgorithm::Sha256)
    } else if n == "SHA384"@ {
        Some(HashAlgorithm::Sha384)
    } else if n == "SHA512"@ {
        Some(HashAlgorithm::Sha512)
    } else if n == "SHA512256"@ || n == "SHA512/256"@ {
        Some(HashAlgorithm::Sha512_256)
    } else if n == "BLAKE2S"@ || n == "BLAKE2S256"@ {
        Some(HashAlgorithm::Blake2s)
    } else if n == "BLAKE2B"@ || n == "BLAKE2B512"@ {
        Some(HashAlgorithm::Blake2b)
    } else if n == "BLAKE3"@ {
        Some(HashAlgorithm::Blake3)
    } else {
        None
    }
}

fn is_name(n: &Vec<char>, lit: &str) -> (b: bool)
    ensures
        b == (n@ == lit@),
{
    same_chars(n, &chars_of(lit))
}

/// `s` without `-` and `_`, as `str::replace(['-', '_'], "")` makes it.
pub fn remove_separators(s: &Vec<char>) -> (r: Vec<char>)
    ensures
        r@ == strip_separators(s@),
{
    let mut r: Vec<char> = Vec::new();
    let mut i: usize = 0;
    while i < s.len()
        invariant
            i <= s.len(),
            r@ == strip_separators(s@.take(i as int)),
        decreases s.len() - i,
    {
        let c = s[i];
        assert(s@.take(i + 1).drop_last() == s@.take(i as int));
        if c != '-' && c != '_' {
            r.push(c);
        }
        i += 1;
    }
    assert(s@.take(s.len() as int) == s@);
    r
}

impl HashAlgorithm {
    /// The algorithm a name stands for, once the name is in upper case: `-`
    /// and `_` are ignored, `SHA512/256` is accepted beside `SHA512256` (so
    /// the listed name `SHA-512/256` resolves), and `BLAKE2S256` and
    /// `BLAKE2B512` are accepted beside `BLAKE2S` and `BLAKE2B`.
    pub fn from_uppercased(upper: &str) -> (r: Option<HashAlgorithm>)
        ensures
            r == algorithm_for(strip_separators(upper@)),
    {
        Self::from_upper_chars(&chars_of(upper))
    }

    fn from_upper_chars(upper: &Vec<char>) -> (r: Option<HashAlgorithm>)
        ensures
            r == algorithm_for(strip_separators(upper@)),
    {
        let n = remove_separators(upper);
        if is_name(&n, "MD5") {
            Some(HashAlgorithm::Md5)
        } else if is_name(&n, "SHA1") {
            Some(HashAlgorithm::Sha1)
        } else if is_name(&n, "SHA224") {
            Some(HashAlgorithm::Sha224)
        } else if is_name(&n, "SHA256") {
            Some(HashAlgorithm::Sha256)
        } else if is_name(&n, "SHA384") {
            Some(HashAlgorithm::Sha384)
        } else if is_name(&n, "SHA512") {
            Some(HashAlgorithm::Sha512)
        } else if is_name(&n, "SHA512256") || is_name(&n, "SHA512/256") {
            Some(HashAlgorithm::Sha512_256)
        } else if is_name(&n, "BLAKE2S") || is_name(&n, "BLAKE2S256") {
            Some(HashAlgorithm::Blake2s)
        } else if is_name(&n, "BLAKE2B") || is_name(&n, "BLAKE2B512") {
            Some(HashAlgorithm::Blake2b)
        } else if is_name(&n, "BLAKE3") {
            Some(HashAlgorithm::Blake3)
        } else {
            None
        }
    }

    /// The algorithm a name stands for, whatever its case, with `-` and `_`
    /// ignored; `None` for a name that stands for none.
    pub fn from_name(name: &str) -> (r: Option<HashAlgorithm>)
        ensures
            r == algorithm_for(strip_separators(uppercase(name@))),
            all_ascii(name@) ==> r == algorithm_for(strip_separators(ascii_uppercase(name@))),
    {
        proof {
            if all_ascii(name@) {
                lemma_uppercase_ascii(name@);
            }
        }
        let upper = uppercase_chars(&chars_of(name));
        Self::from_upper_chars(&upper)
    }
}


/// A hasher for one algorithm, with the bytes it has absorbed so far.
pub enum DynHasher {
    Md5(Md5State),
    Sha1(Sha1State),
    Sha224(Sha224State),
    Sha256(Sha256State),
    Sha384(Sha384State),
    Sha512(Sha512State),
    Sha512_256(Sha512_256State),
    Blake2s(Blake2sState),
    Blake2b(Blake2bState),
    Blake3(blake3::Hasher),
}

/// The digest of `data` under `alg`.
pub open spec fn digest_of(alg: HashAlgorithm, data: Seq<u8>) -> Seq<u8> {
    match alg {
        HashAlgorithm::Md5 => md5_digest(data),
        HashAlgorithm::Sha1 => sha1_digest(data),
        HashAlgorithm::Sha224 => sha224_digest(data),
        HashAlgorithm::Sha256 => sha256_digest(data),
        HashAlgorithm::Sha384 => sha384_digest(data),
        HashAlgorithm::Sha512 => sha512_digest(data),
        HashAlgorithm::Sha512_256 => sha512_256_digest(data),
        HashAlgorithm::Blake2s => blake2s_digest(data),
        HashAlgorithm::Blake2b => blake2b_digest(data),
        HashAlgorithm::Blake3 => blake3_digest(data),
    }
}

/// The digest length of `alg`, in bytes.
pub open spec fn digest_len(alg: HashAlgorithm) -> nat {
    match alg {
        HashAlgorithm::Md5 => 16,
        HashAlgorithm::Sha1 => 20,
        HashAlgorithm::Sha224 => 28,
        HashAlgorithm::Sha256 => 32,
        HashAlgorithm::Sha384 => 48,
        HashAlgorithm::Sha512 => 64,
        HashAlgorithm::Sha512_256 => 32,
        HashAlgorithm::Blake2s => 32,
        HashAlgorithm::Blake2b => 64,
        HashAlgorithm::Blake3 => 32,
    }
}

/// The lowercase hexadecimal digit for `d` (below sixteen).
pub open spec fn hex_digit(d: int) -> char {
    if d < 10 {
        ((d + 48) as u32) as char
    } else {
        ((d + 87) as u32) as char
    }
}

/// Two lowercase hex digits per byte, high nibble first, as `{:x}` prints
/// a digest and as `blake3::Hash::to_hex` writes one.
pub open spec fn lower_hex(bytes: Seq<u8>) -> Seq<char>
    decreases bytes.len(),
{
    if bytes.len() == 0 {
        Seq::empty()
    } else {
        lower_hex(bytes.drop_last()).push(hex_digit(bytes.last() as int / 16)).push(
            hex_digit(bytes.last() as int % 16),
        )
    }
}

proof fn lemma_lower_hex_len(bytes: Seq<u8>)
    ensures
        lower_hex(bytes).len() == 2 * bytes.len(),
    decreases bytes.len(),
{
    if bytes.len() > 0 {
        lemma_lower_hex_len(bytes.drop_last());
    }
}

/// The hex text of a byte string holds two characters per byte, in byte
/// order: the digit of the high nibble, then that of the low nibble, each
/// from `0123456789abcdef`.
pub proof fn lemma_lower_hex_digits(bytes: Seq<u8>)
    ensures
        lower_hex(bytes).len() == 2 * bytes.len(),
        forall|i: int| 0 <= i < bytes.len() ==> {
            &&& #[trigger] lower_hex(bytes)[2 * i] == seq!['0', '1', '2', '3', '4', '5', '6', '7', '8', '9', 'a', 'b', 'c', 'd', 'e', 'f'][bytes[i] as int / 16]
            &&& lower_hex(bytes)[2 * i + 1] == seq!['0', '1', '2', '3', '4', '5', '6', '7', '8', '9', 'a', 'b', 'c', 'd', 'e', 'f'][bytes[i] as int % 16]
        },
    decreases bytes.len(),
{
    lemma_lower_hex_len(bytes);
    if bytes.len() > 0 {
        let p = bytes.drop_last();
        lemma_lower_hex_digits(p);
        lemma_lower_hex_len(p);
        let hx = seq!['0', '1', '2', '3', '4', '5', '6', '7', '8', '9', 'a', 'b', 'c', 'd', 'e', 'f'];
        assert forall|d: int| 0 <= d < 16 implies #[trigger] hex_digit(d) == hx[d] by {}
        assert forall|i: int| 0 <= i < bytes.len() implies {
            &&& #[trigger] lower_hex(bytes)[2 * i] == hx[bytes[i] as int / 16]
            &&& lower_hex(bytes)[2 * i + 1] == hx[bytes[i] as int % 16]
        } by {
            if i < p.len() {
                assert(bytes[i] == p[i]);
                assert(lower_hex(bytes)[2 * i] == lower_hex(p)[2 * i]);
                assert(lower_hex(bytes)[2 * i + 1] == lower_hex(p)[2 * i + 1]);
            } else {
                assert(hex_digit(bytes.last() as int / 16) == hx[bytes.last() as int / 16]);
                assert(hex_digit(bytes.last() as int % 16) == hx[bytes.last() as int % 16]);
            }
        }
    }
}

fn hex_char(d: u8) -> (c: char)
    requires
        d < 16,
    ensures
        c == hex_digit(d as int),
{
    if d == 0 { '0' }
    else if d == 1 { '1' }
    else if d == 2 { '2' }
    else if d == 3 { '3' }
    else if d == 4 { '4' }
    else if d == 5 { '5' }
    else if d == 6 { '6' }
    else if d == 7 { '7' }
    else if d == 8 { '8' }
    else if d == 9 { '9' }
    else if d == 10 { 'a' }
    else if d == 11 { 'b' }
    else if d == 12 { 'c' }
    else if d == 13 { 'd' }
    else if d == 14 { 'e' }
    else { 'f' }
}

/// Lowercase hexadecimal of a byte string.
pub fn to_lower_hex(bytes: &Vec<u8>) -> (s: String)
    ensures
        s@ == lower_hex(bytes@),
        s@.len() == 2 * bytes@.len(),
{
    let mut s = String::new();
    let mut i: usize = 0;
    while i < bytes.len()
        invariant
            i <= bytes.len(),
            s@ == lower_hex(bytes@.take(i as int)),
        decreases bytes.len() - i,
    {
        let b = bytes[i];
        assert(bytes@.take(i + 1).drop_last() == bytes@.take(i as int));
        push_char(&mut s, hex_char(b / 16));
        push_char(&mut s, hex_char(b % 16));
        i += 1;
    }
    assert(bytes@.take(bytes.len() as int) == bytes@);
    proof {
        lemma_lower_hex_len(bytes@);
    }
    s
}

impl HashAlgorithm {
    /// A hasher for this algorithm that has absorbed nothing yet.
    pub fn create_hasher(&self) -> (h: DynHasher)
        ensures
            h.algorithm() == *self,
            h.input() == Seq::<u8>::empty(),
    {
        match self {
            HashAlgorithm::Md5 => DynHasher::Md5(md5_new()),
            HashAlgorithm::Sha1 => DynHasher::Sha1(sha1_new()),
            HashAlgorithm::Sha224 => DynHasher::Sha224(sha224_new()),
            HashAlgorithm::Sha256 => DynHasher::Sha256(sha256_new()),
            HashAlgorithm::Sha384 => DynHasher::Sha384(sha384_new()),
            HashAlgorithm::Sha512 => DynHasher::Sha512(sha512_new()),
            HashAlgorithm::Sha512_256 => DynHasher::Sha512_256(sha512_256_new()),
            HashAlgorithm::Blake2s => DynHasher::Blake2s(blake2s_new()),
            HashAlgorithm::Blake2b => DynHasher::Blake2b(blake2b_new()),
            HashAlgorithm::Blake3 => DynHasher::Blake3(blake3_new()),
        }
    }
}

impl DynHasher {
    /// The algorithm this hasher runs.
    pub open spec fn algorithm(&self) -> HashAlgorithm {
        match self {
            DynHasher::Md5(_) => HashAlgorithm::Md5,
            DynHasher::Sha1(_) => HashAlgorithm::Sha1,
            DynHasher::Sha224(_) => HashAlgorithm::Sha224,
            DynHasher::Sha256(_) => HashAlgorithm::Sha256,
            DynHasher::Sha384(_) => HashAlgorithm::Sha384,
            DynHasher::Sha512(_) => HashAlgorithm::Sha512,
            DynHasher::Sha512_256(_) => HashAlgorithm::Sha512_256,
            DynHasher::Blake2s(_) => HashAlgorithm::Blake2s,
            DynHasher::Blake2b(_) => HashAlgorithm::Blake2b,
            DynHasher::Blake3(_) => HashAlgorithm::Blake3,
        }
    }

    /// The bytes this hasher has absorbed.
    pub open spec fn input(&self) -> Seq<u8> {
        match self {
            DynHasher::Md5(s) => md5_input(*s),
            DynHasher::Sha1(s) => sha1_input(*s),
            DynHasher::Sha224(s) => sha224_input(*s),
            DynHasher::Sha256(s) => sha256_input(*s),
            DynHasher::Sha384(s) => sha384_input(*s),
            DynHasher::Sha512(s) => sha512_input(*s),
            DynHasher::Sha512_256(s) => sha512_256_input(*s),
            DynHasher::Blake2s(s) => blake2s_input(*s),
            DynHasher::Blake2b(s) => blake2b_input(*s),
            DynHasher::Blake3(h) => blake3_input(*h),
        }
    }

    /// Absorbs `data` after the bytes absorbed so far.
    pub fn update(&mut self, data: &[u8])
        ensures
            final(self).algorithm() == old(self).algorithm(),
            final(self).input() == old(self).input() + data@,
    {
        match self {
            DynHasher::Md5(s) => md5_update(s, data),
            DynHasher::Sha1(s) => sha1_update(s, data),
            DynHasher::Sha224(s) => sha224_update(s, data),
            DynHasher::Sha256(s) => sha256_update(s, data),
            DynHasher::Sha384(s) => sha384_update(s, data),
            DynHasher::Sha512(s) => sha512_update(s, data),
            DynHasher::Sha512_256(s) => sha512_256_update(s, data),
            DynHasher::Blake2s(s) => blake2s_update(s, data),
            DynHasher::Blake2b(s) => blake2b_update(s, data),
            DynHasher::Blake3(h) => blake3_update(h, data),
        }
    }

    /// The digest of everything absorbed, in lowercase hex.
    pub fn finalize_hex(self) -> (s: String)
        ensures
            s@ == lower_hex(digest_of(self.algorithm(), self.input())),
            s@.len() == 2 * digest_len(self.algorithm()),
    {
        let d = match self {
            DynHasher::Md5(s) => md5_finalize(s),
            DynHasher::Sha1(s) => sha1_finalize(s),
            DynHasher::Sha224(s) => sha224_finalize(s),
            DynHasher::Sha256(s) => sha256_finalize(s),
            DynHasher::Sha384(s) => sha384_finalize(s),
            DynHasher::Sha512(s) => sha512_finalize(s),
            DynHasher::Sha512_256(s) => sha512_256_finalize(s),
            DynHasher::Blake2s(s) => blake2s_finalize(s),
            DynHasher::Blake2b(s) => blake2b_finalize(s),
            DynHasher::Blake3(h) => blake3_finalize(h),
        };
        to_lower_hex(&d)
    }
}

} // verus!
