//! Hashes in the form `<algorithm>:<hex digits>`: parsing, formatting,
//! computing digests of byte buffers and validating claimed digests.

use vstd::prelude::*;

use crate::strings::{chars_to_string, str_to_chars};
use sha2::Digest;

verus! {

/// The digest algorithms the repository recognises.
#[derive(Clone, Copy, PartialEq, Eq, Structural, Debug)]
pub enum HashAlgorithm {
    Md5,
    Sha1,
    Sha256,
}

/// A parsed hash: an algorithm and the lowercase hex digits of a digest.
#[derive(Clone, Debug)]
pub struct Hash {
    pub algorithm: HashAlgorithm,
    pub value: String,
}

/// An error from parsing or validating a hash, carrying a human-readable
/// explanation.
#[derive(Debug)]
pub struct HashError {
    pub explanation: String,
}

/// The canonical (lowercase) name of an algorithm.
pub open spec fn spec_algorithm_name(alg: HashAlgorithm) -> Seq<char> {
    match alg {
        HashAlgorithm::Md5 => "md5"@,
        HashAlgorithm::Sha1 => "sha1"@,
        HashAlgorithm::Sha256 => "sha256"@,
    }
}

/// The canonical name of an algorithm, as written on disk and on the wire.
pub fn algorithm_name(alg: HashAlgorithm) -> (r: &'static str)
    ensures
        r@ == spec_algorithm_name(alg),
{
    match alg {
        HashAlgorithm::Md5 => "md5",
        HashAlgorithm::Sha1 => "sha1",
        HashAlgorithm::Sha256 => "sha256",
    }
}

/// Number of bytes in a digest produced by each algorithm.
pub open spec fn spec_digest_len(alg: HashAlgorithm) -> int {
    match alg {
        HashAlgorithm::Md5 => 16,
        HashAlgorithm::Sha1 => 20,
        HashAlgorithm::Sha256 => 32,
    }
}

/// The MD5 digest of a byte sequence, named but not defined here.
pub uninterp spec fn md5_digest_of(data: Seq<u8>) -> Seq<u8>;

/// The SHA-1 digest of a byte sequence, named but not defined here.
pub uninterp spec fn sha1_digest_of(data: Seq<u8>) -> Seq<u8>;

/// The SHA-256 digest of a byte sequence, named but not defined here.
pub uninterp spec fn sha256_digest_of(data: Seq<u8>) -> Seq<u8>;

/// The digest of `data` under `alg`; a function of its arguments alone.
pub open spec fn spec_digest(alg: HashAlgorithm, data: Seq<u8>) -> Seq<u8> {
    match alg {
        HashAlgorithm::Md5 => md5_digest_of(data),
        HashAlgorithm::Sha1 => sha1_digest_of(data),
        HashAlgorithm::Sha256 => sha256_digest_of(data),
    }
}

/// Relies on `md5::Md5` (the `md-5` crate): the digest is a function of the
/// input bytes alone and is 16 bytes long.
#[verifier::external_body]
fn md5_digest(data: &[u8]) -> (r: Vec<u8>)
    ensures
        r@ == md5_digest_of(data@),
        r@.len() == 16,
{
    md5::Md5::digest(data).to_vec()
}

/// Relies on `sha1::Sha1`: the digest is a function of the input bytes alone
/// and is 20 bytes long.
#[verifier::external_body]
fn sha1_digest(data: &[u8]) -> (r: Vec<u8>)
    ensures
        r@ == sha1_digest_of(data@),
        r@.len() == 20,
{
    sha1::Sha1::digest(data).to_vec()
}

/// Relies on `sha2::Sha256`: the digest is a function of the input bytes alone
/// and is 32 bytes long.
#[verifier::external_body]
fn sha256_digest(data: &[u8]) -> (r: Vec<u8>)
    ensures
        r@ == sha256_digest_of(data@),
        r@.len() == 32,
{
    sha2::Sha256::digest(data).to_vec()
}

/// The lowercase hex digit with value `n`.
pub open spec fn hex_digit(n: int) -> char {
    if n == 0 {
        '0'
    } else if n == 1 {
        '1'
    } else if n == 2 {
        '2'
    } else if n == 3 {
        '3'
    } else if n == 4 {
        '4'
    } else if n == 5 {
        '5'
    } else if n == 6 {
        '6'
    } else if n == 7 {
        '7'
    } else if n == 8 {
        '8'
    } else if n == 9 {
        '9'
    } else if n == 10 {
        'a'
    } else if n == 11 {
        'b'
    } else if n == 12 {
        'c'
    } else if n == 13 {
        'd'
    } else if n == 14 {
        'e'
    } else {
        'f'
    }
}

fn hex_digit_exec(n: u8) -> (c: char)
    requires
        n < 16,
    ensures
        c == hex_digit(n as int),
{
    match n {
        0 => '0',
        1 => '1',
        2 => '2',
        3 => '3',
        4 => '4',
        5 => '5',
        6 => '6',
        7 => '7',
        8 => '8',
        9 => '9',
        10 => 'a',
        11 => 'b',
        12 => 'c',
        13 => 'd',
        14 => 'e',
        _ => 'f',
    }
}

/// The lowercase hex encoding of a byte sequence, two digits per byte.
pub open spec fn hex_of_bytes(data: Seq<u8>) -> Seq<char>
    decreases data.len(),
{
    if data.len() == 0 {
        Seq::<char>::empty()
    } else {
        seq![
            hex_digit((data.first() >> 4) as int),
            hex_digit((data.first() & 0x0f) as int),
        ] + hex_of_bytes(data.drop_first())
    }
}

/// Whether `c` is a lowercase hex digit.
pub open spec fn is_lower_hex(c: char) -> bool {
    (48 <= c as int && c as int <= 57) || (97 <= c as int && c as int <= 102)
}

pub proof fn lemma_hex_of_bytes_len(data: Seq<u8>)
    ensures
        hex_of_bytes(data).len() == 2 * data.len(),
    decreases data.len(),
{
    if data.len() > 0 {
        lemma_hex_of_bytes_len(data.drop_first());
    }
}

pub proof fn lemma_hex_of_bytes_is_lower_hex(data: Seq<u8>)
    ensures
        forall|i: int|
            0 <= i < hex_of_bytes(data).len() ==> #[trigger] is_lower_hex(hex_of_bytes(data)[i]),
    decreases data.len(),
{
    if data.len() > 0 {
        lemma_hex_of_bytes_is_lower_hex(data.drop_first());
        let b = data.first();
        assert(b >> 4 < 16 && (b & 0x0f) < 16) by (bit_vector);
        let rest = hex_of_bytes(data.drop_first());
        let whole = hex_of_bytes(data);
        assert(is_lower_hex(hex_digit((b >> 4) as int)));
        assert(is_lower_hex(hex_digit((b & 0x0f) as int)));
        assert forall|i: int| 0 <= i < whole.len() implies #[trigger] is_lower_hex(whole[i]) by {
            if i >= 2 {
                assert(whole[i] == rest[i - 2]);
                assert(is_lower_hex(rest[i - 2]));
            }
        }
    }
}

/// Encode bytes as lowercase hex, two digits per byte.
pub fn to_hex(data: &[u8]) -> (r: String)
    ensures
        r@ == hex_of_bytes(data@),
{
    let n = data.len();
    let mut out: Vec<char> = Vec::new();
    proof {
        assert(data@.skip(0) =~= data@);
    }
    for i in 0..n
        invariant
            n == data@.len(),
            hex_of_bytes(data@) =~= out@ + hex_of_bytes(data@.skip(i as int)),
    {
        let b = data[i];
        assert((b >> 4) < 16 && (b & 0x0f) < 16) by (bit_vector);
        out.push(hex_digit_exec(b >> 4));
        out.push(hex_digit_exec(b & 0x0f));
        proof {
            assert(data@.skip(i as int).drop_first() =~= data@.skip(i + 1));
            assert(data@.skip(i as int).first() == data@[i as int]);
        }
    }
    proof {
        assert(out@ =~= hex_of_bytes(data@));
    }
    chars_to_string(&out)
}

/// Hash a byte buffer with the given algorithm.
pub fn hash_data(data: &[u8], alg: HashAlgorithm) -> (h: Hash)
    ensures
        h.algorithm == alg,
        h.value@ == hex_of_bytes(spec_digest(alg, data@)),
        h.value@.len() == 2 * spec_digest_len(alg),
{
    let digest: Vec<u8> = match alg {
        HashAlgorithm::Md5 => md5_digest(data),
        HashAlgorithm::Sha1 => sha1_digest(data),
        HashAlgorithm::Sha256 => sha256_digest(data),
    };
    let value = to_hex(digest.as_slice());
    proof {
        lemma_hex_of_bytes_len(digest@);
    }
    Hash { algorithm: alg, value }
}

/// The string form of a hash: `<algorithm>:<hex digits>`.
pub open spec fn spec_hash_string(alg: HashAlgorithm, value: Seq<char>) -> Seq<char> {
    spec_algorithm_name(alg) + seq![':'] + value
}

impl Hash {
    /// Render the hash as `<algorithm>:<hex digits>`.
    pub fn to_string(&self) -> (r: String)
        ensures
            r@ == spec_hash_string(self.algorithm, self.value@),
    {
        let mut out = String::new();
        out.append(algorithm_name(self.algorithm));
        out.append(":");
        out.append(self.value.as_str());
        proof {
            reveal_strlit(":");
            assert(":"@ =~= seq![':']);
            assert(out@ =~= spec_hash_string(self.algorithm, self.value@));
        }
        out
    }
}

/// Lowercase a character, folding only ASCII letters.
pub open spec fn to_lower_char(c: char) -> char {
    if 65 <= c as int && c as int <= 90 {
        ((c as u8) + 32) as char
    } else {
        c
    }
}

/// Lowercase a character sequence.
pub open spec fn lower(s: Seq<char>) -> Seq<char> {
    s.map_values(|c: char| to_lower_char(c))
}

fn to_lower_char_exec(c: char) -> (r: char)
    ensures
        r == to_lower_char(c),
{
    if 65 <= (c as u32) && (c as u32) <= 90 {
        ((c as u8) + 32) as char
    } else {
        c
    }
}

/// Whether `c` is a lowercase letter or a digit.
pub open spec fn is_lower_alnum(c: char) -> bool {
    (48 <= c as int && c as int <= 57) || (97 <= c as int && c as int <= 122)
}

/// The index of the first `:` in `s`, or -1 if there is none.
pub open spec fn colon_idx(s: Seq<char>) -> int
    decreases s.len(),
{
    if s.len() == 0 {
        -1
    } else if s[0] == ':' {
        0
    } else {
        let r = colon_idx(s.drop_first());
        if r == -1 {
            -1
        } else {
            r + 1
        }
    }
}

pub proof fn lemma_colon_idx(s: Seq<char>)
    ensures
        -1 <= colon_idx(s) < s.len(),
        colon_idx(s) == -1 ==> forall|i: int| 0 <= i < s.len() ==> s[i] != ':',
        colon_idx(s) >= 0 ==> {
            &&& colon_idx(s) < s.len()
            &&& s[colon_idx(s)] == ':'
            &&& forall|i: int| 0 <= i < colon_idx(s) ==> s[i] != ':'
        },
    decreases s.len(),
{
    if s.len() > 0 && s[0] != ':' {
        let t = s.drop_first();
        lemma_colon_idx(t);
        assert(t.len() == s.len() - 1);
        assert(forall|i: int| 0 <= i < t.len() ==> t[i] == s[i + 1]);
        if colon_idx(s) == -1 {
            assert(colon_idx(t) == -1);
            assert forall|i: int| 0 <= i < s.len() implies s[i] != ':' by {
                if i > 0 {
                    assert(t[i - 1] != ':');
                    assert(t[i - 1] == s[i]);
                }
            }
        } else {
            let k = colon_idx(s);
            assert(colon_idx(t) == k - 1);
            assert(k - 1 < t.len());
            assert(t[k - 1] == ':');
            assert(s[k] == t[k - 1]);
            assert forall|i: int| 0 <= i < k implies s[i] != ':' by {
                if i > 0 {
                    assert(t[i - 1] != ':');
                    assert(t[i - 1] == s[i]);
                }
            }
        }
    }
}

/// Whether `s` has the shape `<name>:<hex>`: a first colon preceded by at
/// least one character, all of them letters or digits, and followed by at
/// least one character, all of them hex digits (case-insensitively).
pub open spec fn hash_format_ok(s: Seq<char>) -> bool {
    let k = colon_idx(s);
    &&& k >= 1
    &&& k + 1 < s.len()
    &&& forall|i: int| 0 <= i < k ==> #[trigger] is_lower_alnum(to_lower_char(s[i]))
    &&& forall|i: int| k < i < s.len() ==> #[trigger] is_lower_hex(to_lower_char(s[i]))
}

/// The lowercased algorithm part of a well-formed hash string.
pub open spec fn algo_part(s: Seq<char>) -> Seq<char> {
    lower(s.subrange(0, colon_idx(s)))
}

/// The lowercased hex part of a well-formed hash string.
pub open spec fn value_part(s: Seq<char>) -> Seq<char> {
    lower(s.subrange(colon_idx(s) + 1, s.len() as int))
}

/// The algorithm with the given canonical name, if any.
pub open spec fn algo_from_name(n: Seq<char>) -> Option<HashAlgorithm> {
    if n == spec_algorithm_name(HashAlgorithm::Md5) {
        Some(HashAlgorithm::Md5)
    } else if n == spec_algorithm_name(HashAlgorithm::Sha1) {
        Some(HashAlgorithm::Sha1)
    } else if n == spec_algorithm_name(HashAlgorithm::Sha256) {
        Some(HashAlgorithm::Sha256)
    } else {
        None
    }
}

/// How a hash string parses: the result of `parse_hash` on view level.
pub open spec fn spec_parse_hash(s: Seq<char>) -> Result<(HashAlgorithm, Seq<char>), Seq<char>> {
    if !hash_format_ok(s) {
        Err("Invalid hash format '"@ + s + "'"@)
    } else {
        match algo_from_name(algo_part(s)) {
            Some(alg) => Ok((alg, value_part(s))),
            None => Err("Invalid hash algorithm '"@ + algo_part(s) + "'"@),
        }
    }
}

/// Whether the characters of `v` spell exactly the string `s`.
fn chars_eq_str(v: &Vec<char>, s: &str) -> (r: bool)
    ensures
        r == (v@ == s@),
{
    let n = s.unicode_len();
    if v.len() != n {
        return false;
    }
    for i in 0..n
        invariant
            n == s@.len(),
            n == v@.len(),
            forall|j: int| 0 <= j < i ==> v@[j] == s@[j],
    {
        if v[i] != s.get_char(i) {
            return false;
        }
    }
    proof {
        assert(v@ =~= s@);
    }
    true
}

/// Parse `<algorithm>:<hex>`, case-insensitively; the parsed value is stored
/// lowercase.
pub fn parse_hash(s: &str) -> (r: Result<Hash, HashError>)
    ensures
        match r {
            Ok(h) => {
                &&& spec_parse_hash(s@) is Ok
                &&& (h.algorithm, h.value@) == spec_parse_hash(s@)->Ok_0
            },
            Err(e) => {
                &&& spec_parse_hash(s@) is Err
                &&& e.explanation@ == spec_parse_hash(s@)->Err_0
            },
        },
{
    let chars = str_to_chars(s);
    let n = chars.len();

    // Find the first colon.
    let mut k: usize = 0;
    proof {
        lemma_colon_idx(s@);
    }
    while k < n && chars[k] != ':'
        invariant
            n == chars.len(),
            chars@ == s@,
            k <= n,
            forall|i: int| 0 <= i < k ==> s@[i] != ':',
        decreases n - k,
    {
        k = k + 1;
    }

    proof {
        if k < n {
            assert(s@[k as int] == ':');
            lemma_colon_idx_unique(s@, k as int);
        } else {
            lemma_colon_idx_unique_none(s@);
        }
    }

    if k == 0 || k >= n || k + 1 >= n {
        proof {
            assert(!hash_format_ok(s@));
        }
        let mut msg = String::new();
        msg.append("Invalid hash format '");
        msg.append(s);
        msg.append("'");
        return Err(HashError { explanation: msg });
    }

    // Lowercase the two parts and check their characters.
    let mut algo_ok = true;
    let mut algo_chars: Vec<char> = Vec::new();
    for i in 0..k
        invariant
            0 < k < n,
            k + 1 < n,
            n == chars.len(),
            chars@ == s@,
            algo_chars@ =~= lower(s@.subrange(0, i as int)),
            algo_ok == (forall|j: int|
                0 <= j < i ==> #[trigger] is_lower_alnum(to_lower_char(s@[j]))),
    {
        let c = to_lower_char_exec(chars[i]);
        let cv = c as u32;
        let good = (48 <= cv && cv <= 57) || (97 <= cv && cv <= 122);
        proof {
            assert(good == is_lower_alnum(to_lower_char(s@[i as int])));
        }
        if !good {
            algo_ok = false;
        }
        algo_chars.push(c);
        proof {
            assert(lower(s@.subrange(0, i + 1)) =~= lower(s@.subrange(0, i as int)).push(
                to_lower_char(s@[i as int])));
        }
    }

    let mut value_ok = true;
    let mut value_chars: Vec<char> = Vec::new();
    let mut i: usize = k + 1;
    while i < n
        invariant
            0 < k < n,
            k + 1 < n,
            n == chars.len(),
            chars@ == s@,
            k + 1 <= i <= n,
            value_chars@ =~= lower(s@.subrange(k + 1, i as int)),
            value_ok == (forall|j: int|
                k < j < i ==> #[trigger] is_lower_hex(to_lower_char(s@[j]))),
        decreases n - i,
    {
        let c = to_lower_char_exec(chars[i]);
        let cv = c as u32;
        let good = (48 <= cv && cv <= 57) || (97 <= cv && cv <= 102);
        proof {
            assert(good == is_lower_hex(to_lower_char(s@[i as int])));
        }
        if !good {
            value_ok = false;
        }
        value_chars.push(c);
        proof {
            assert(lower(s@.subrange(k + 1, i + 1)) =~= lower(s@.subrange(k + 1, i as int)).push(
                to_lower_char(s@[i as int])));
        }
        i = i + 1;
    }

    if !algo_ok || !value_ok {
        proof {
            assert(!hash_format_ok(s@));
        }
        let mut msg = String::new();
        msg.append("Invalid hash format '");
        msg.append(s);
        msg.append("'");
        return Err(HashError { explanation: msg });
    }

    proof {
        assert(hash_format_ok(s@));
        assert(algo_chars@ =~= algo_part(s@));
        assert(value_chars@ =~= value_part(s@));
    }

    let alg = if chars_eq_str(&algo_chars, "md5") {
        Some(HashAlgorithm::Md5)
    } else if chars_eq_str(&algo_chars, "sha1") {
        Some(HashAlgorithm::Sha1)
    } else if chars_eq_str(&algo_chars, "sha256") {
        Some(HashAlgorithm::Sha256)
    } else {
        None
    };

    match alg {
        Some(algorithm) => Ok(Hash { algorithm, value: chars_to_string(&value_chars) }),
        None => {
            let mut msg = String::new();
            msg.append("Invalid hash algorithm '");
            let algo_str = chars_to_string(&algo_chars);
            msg.append(algo_str.as_str());
            msg.append("'");
            Err(HashError { explanation: msg })
        },
    }
}

proof fn lemma_colon_idx_unique(s: Seq<char>, k: int)
    requires
        0 <= k < s.len(),
        s[k] == ':',
        forall|i: int| 0 <= i < k ==> s[i] != ':',
    ensures
        colon_idx(s) == k,
    decreases s.len(),
{
    if k > 0 {
        assert(forall|i: int| 0 <= i < k - 1 ==> s.drop_first()[i] == s[i + 1]);
        lemma_colon_idx_unique(s.drop_first(), k - 1);
    }
}

proof fn lemma_colon_idx_unique_none(s: Seq<char>)
    requires
        forall|i: int| 0 <= i < s.len() ==> s[i] != ':',
    ensures
        colon_idx(s) == -1,
    decreases s.len(),
{
    if s.len() > 0 {
        lemma_colon_idx_unique_none(s.drop_first());
    }
}

/// Parse an algorithm name: exactly `md5`, `sha1` or `sha256`,
/// case-insensitively.
pub fn algorithm_from_str(name: &str) -> (r: Result<HashAlgorithm, HashError>)
    ensures
        match r {
            Ok(alg) => algo_from_name(lower(name@)) == Some(alg),
            Err(e) => {
                &&& algo_from_name(lower(name@)) is None
                &&& e.explanation@ == "Invalid hash algorithm '"@ + name@ + "'"@
            },
        },
{
    let chars = str_to_chars(name);
    let mut lowered: Vec<char> = Vec::new();
    let n = chars.len();
    for i in 0..n
        invariant
            n == chars.len(),
            chars@ == name@,
            lowered@ =~= lower(name@.subrange(0, i as int)),
    {
        lowered.push(to_lower_char_exec(chars[i]));
        proof {
            assert(lower(name@.subrange(0, i + 1)) =~= lower(name@.subrange(0, i as int)).push(
                to_lower_char(name@[i as int])));
        }
    }
    proof {
        assert(lowered@ =~= lower(name@));
    }
    if chars_eq_str(&lowered, "md5") {
        Ok(HashAlgorithm::Md5)
    } else if chars_eq_str(&lowered, "sha1") {
        Ok(HashAlgorithm::Sha1)
    } else if chars_eq_str(&lowered, "sha256") {
        Ok(HashAlgorithm::Sha256)
    } else {
        let mut msg = String::new();
        msg.append("Invalid hash algorithm '");
        msg.append(name);
        msg.append("'");
        Err(HashError { explanation: msg })
    }
}

/// Validate that `data` hashes, under the algorithm named in `expected`, to
/// the digest `expected` claims.  On mismatch the explanation quotes both
/// sides.
pub fn validate_hash_data(data: &[u8], expected: &str) -> (r: Result<(), HashError>)
    ensures
        match spec_parse_hash(expected@) {
            Err(msg) => r is Err && r->Err_0.explanation@ == msg,
            Ok((alg, value)) => {
                let found = spec_hash_string(alg, hex_of_bytes(spec_digest(alg, data@)));
                let claimed = spec_hash_string(alg, value);
                if found == claimed {
                    r is Ok
                } else {
                    r is Err && r->Err_0.explanation@ == "Expected hash '"@ + expected@
                        + "' but found '"@ + found + "'"@
                }
            },
        },
{
    let parsed = match parse_hash(expected) {
        Ok(h) => h,
        Err(e) => {
            return Err(e);
        },
    };
    let found = hash_data(data, parsed.algorithm);
    let found_str = found.to_string();
    let claimed_str = parsed.to_string();
    if found_str == claimed_str {
        Ok(())
    } else {
        let mut msg = String::new();
        msg.append("Expected hash '");
        msg.append(expected);
        msg.append("' but found '");
        msg.append(found_str.as_str());
        msg.append("'");
        Err(HashError { explanation: msg })
    }
}

/// Formatting a parsed hash gives back the input, lowercased: parsing and
/// rendering round-trip on every string that parses.
pub proof fn lemma_hash_round_trip(s: Seq<char>)
    requires
        spec_parse_hash(s) is Ok,
    ensures
        spec_hash_string(spec_parse_hash(s)->Ok_0.0, spec_parse_hash(s)->Ok_0.1) == lower(s),
{
    lemma_colon_idx(s);
    let k = colon_idx(s);
    let alg = spec_parse_hash(s)->Ok_0.0;
    assert(hash_format_ok(s));
    assert(algo_from_name(algo_part(s)) == Some(alg));
    assert(spec_algorithm_name(alg) == algo_part(s));
    assert(s[k] == ':');
    assert(lower(s) =~= algo_part(s) + seq![':'] + value_part(s)) by {
        assert forall|i: int| 0 <= i < s.len() implies lower(s)[i] == (algo_part(s) + seq![':']
            + value_part(s))[i] by {
            assert(lower(s)[i] == to_lower_char(s[i]));
            if i < k {
                assert(algo_part(s)[i] == to_lower_char(s.subrange(0, k)[i]));
            } else if i == k {
                assert(to_lower_char(':') == ':');
            } else {
                assert(value_part(s)[i - k - 1] == to_lower_char(
                    s.subrange(k + 1, s.len() as int)[i - k - 1],
                ));
            }
        }
    }
    assert(spec_hash_string(alg, value_part(s)) == algo_part(s) + seq![':'] + value_part(s));
}

} // verus!
