//! Packet-id recognition, whitespace trimming and the idempotent-write rule.

use vstd::prelude::*;

use crate::hash::is_lower_hex;
use crate::responses::{ErrorKind, OutpackError};
use crate::strings::{chars_to_string, str_to_chars};

verus! {

/// Whether `c` is an ASCII decimal digit.
pub open spec fn is_digit(c: char) -> bool {
    48 <= c as int && c as int <= 57
}

/// A packet id: eight digits, a dash, six digits, a dash, eight lowercase hex
/// digits (`YYYYMMDD-HHMMSS-xxxxxxxx`).
pub open spec fn is_packet_id(s: Seq<char>) -> bool {
    &&& s.len() == 24
    &&& forall|i: int| 0 <= i < 8 ==> is_digit(#[trigger] s[i])
    &&& s[8] == '-'
    &&& forall|i: int| 9 <= i < 15 ==> is_digit(#[trigger] s[i])
    &&& s[15] == '-'
    &&& forall|i: int| 16 <= i < 24 ==> is_lower_hex(#[trigger] s[i])
}

/// Whether `name` is a well-formed packet id.
pub fn is_packet_str(name: &str) -> (r: bool)
    ensures
        r == is_packet_id(name@),
{
    let n = name.unicode_len();
    if n != 24 {
        return false;
    }
    for i in 0..24usize
        invariant
            n == name@.len(),
            n == 24,
            forall|j: int| 0 <= j < i && j < 8 ==> is_digit(#[trigger] name@[j]),
            forall|j: int| 0 <= j < i && 9 <= j < 15 ==> is_digit(#[trigger] name@[j]),
            forall|j: int| 0 <= j < i && 16 <= j ==> is_lower_hex(#[trigger] name@[j]),
            i > 8 ==> name@[8] == '-',
            i > 15 ==> name@[15] == '-',
    {
        let c = name.get_char(i);
        let v = c as u32;
        let ok = if i == 8 || i == 15 {
            c == '-'
        } else if i < 15 {
            48 <= v && v <= 57
        } else {
            (48 <= v && v <= 57) || (97 <= v && v <= 102)
        };
        if !ok {
            return false;
        }
    }
    true
}

/// Whether `c` is one of the ASCII whitespace characters trimmed from ids.
pub open spec fn is_space(c: char) -> bool {
    c == ' ' || c == '\t' || c == '\n' || c == '\r'
}

/// The number of leading whitespace characters of `s`.
pub open spec fn leading_spaces(s: Seq<char>) -> int
    decreases s.len(),
{
    if s.len() == 0 {
        0
    } else if is_space(s[0]) {
        1 + leading_spaces(s.drop_first())
    } else {
        0
    }
}

pub proof fn lemma_leading_spaces(s: Seq<char>)
    ensures
        0 <= leading_spaces(s) <= s.len(),
        forall|i: int| 0 <= i < leading_spaces(s) ==> is_space(#[trigger] s[i]),
        leading_spaces(s) < s.len() ==> !is_space(s[leading_spaces(s)]),
    decreases s.len(),
{
    if s.len() > 0 && is_space(s[0]) {
        let t = s.drop_first();
        lemma_leading_spaces(t);
        assert(forall|i: int| 0 <= i < t.len() ==> t[i] == s[i + 1]);
        let l = leading_spaces(s);
        assert forall|i: int| 0 <= i < l implies is_space(#[trigger] s[i]) by {
            if i > 0 {
                assert(is_space(t[i - 1]));
            }
        }
    }
}

/// `s` with leading and trailing whitespace removed.
pub open spec fn spec_trim(s: Seq<char>) -> Seq<char> {
    let start = leading_spaces(s);
    let end = s.len() - leading_spaces(s.reverse());
    if start == s.len() {
        Seq::<char>::empty()
    } else {
        s.subrange(start, end)
    }
}

/// Remove leading and trailing ASCII whitespace.
pub fn trim(s: &str) -> (r: String)
    ensures
        r@ == spec_trim(s@),
{
    let chars = str_to_chars(s);
    let n = chars.len();
    let mut start: usize = 0;
    proof {
        lemma_leading_spaces(s@);
        lemma_leading_spaces(s@.reverse());
    }
    while start < n && is_space_exec(chars[start])
        invariant
            n == chars.len(),
            chars@ == s@,
            start <= n,
            start <= leading_spaces(s@),
            forall|i: int| 0 <= i < start ==> is_space(#[trigger] s@[i]),
        decreases n - start,
    {
        proof {
            lemma_leading_spaces(s@);
            if start + 1 > leading_spaces(s@) {
                assert(!is_space(s@[leading_spaces(s@)]));
            }
        }
        start = start + 1;
    }
    proof {
        assert(start == leading_spaces(s@));
    }
    if start == n {
        proof {
            assert(spec_trim(s@) =~= Seq::<char>::empty());
        }
        return String::new();
    }
    let mut end: usize = n;
    while end > start && is_space_exec(chars[end - 1])
        invariant
            n == chars.len(),
            chars@ == s@,
            start < n,
            !is_space(s@[start as int]),
            start <= end <= n,
            n - end <= leading_spaces(s@.reverse()),
            forall|i: int| end <= i < n ==> is_space(#[trigger] s@[i]),
        decreases end,
    {
        proof {
            let rev = s@.reverse();
            lemma_leading_spaces(rev);
            assert(forall|i: int| 0 <= i < n ==> rev[i] == s@[n - 1 - i]);
            if n - end + 1 > leading_spaces(rev) {
                assert(!is_space(rev[leading_spaces(rev)]));
                assert(rev[n - end] == s@[end - 1]);
            }
        }
        end = end - 1;
    }
    proof {
        let rev = s@.reverse();
        lemma_leading_spaces(rev);
        assert(forall|i: int| 0 <= i < n ==> rev[i] == s@[n - 1 - i]);
        assert(n - end == leading_spaces(rev)) by {
            if n - end < leading_spaces(rev) {
                assert(is_space(rev[n - end]));
                assert(rev[n - end] == s@[end - 1]);
            }
        }
    }
    let mut out: Vec<char> = Vec::new();
    let mut i: usize = start;
    while i < end
        invariant
            n == chars.len(),
            chars@ == s@,
            start <= i <= end <= n,
            out@ =~= s@.subrange(start as int, i as int),
        decreases end - i,
    {
        out.push(chars[i]);
        proof {
            assert(s@.subrange(start as int, i + 1) =~= s@.subrange(start as int, i as int).push(
                s@[i as int]));
        }
        i = i + 1;
    }
    proof {
        assert(out@ =~= spec_trim(s@));
    }
    chars_to_string(&out)
}

pub fn is_space_exec(c: char) -> (r: bool)
    ensures
        r == is_space(c),
{
    c == ' ' || c == '\t' || c == '\n' || c == '\r'
}

/// Whether two byte strings are equal.
pub fn bytes_eq(a: &[u8], b: &[u8]) -> (r: bool)
    ensures
        r == (a@ == b@),
{
    if a.len() != b.len() {
        proof {
            assert(a@.len() != b@.len());
        }
        return false;
    }
    let n = a.len();
    for i in 0..n
        invariant
            n == a@.len(),
            n == b@.len(),
            forall|j: int| 0 <= j < i ==> a@[j] == b@[j],
    {
        if a[i] != b[i] {
            return false;
        }
    }
    proof {
        assert(a@ =~= b@);
    }
    true
}

/// The idempotent-write rule: writing `contents` where `existing` already
/// stands succeeds without a write if the bytes are identical, is a plain
/// write if nothing stands there, and is refused otherwise.  Returns whether
/// a write is needed.
pub fn write_idempotent_outcome(existing: Option<&Vec<u8>>, contents: &[u8]) -> (r: Result<
    bool,
    OutpackError,
>)
    ensures
        match existing {
            None => r matches Ok(w) && w,
            Some(e) => {
                if e@ == contents@ {
                    r matches Ok(w) && !w
                } else {
                    r matches Err(err) && err.kind == Some(ErrorKind::AlreadyExists)
                        && err.detail@ == crate::responses::spec_kind_tag(ErrorKind::AlreadyExists)
                }
            },
        },
{
    match existing {
        None => Ok(true),
        Some(e) => {
            if bytes_eq(e.as_slice(), contents) {
                Ok(false)
            } else {
                Err(OutpackError::new(
                    ErrorKind::AlreadyExists,
                    crate::responses::kind_tag(ErrorKind::AlreadyExists).to_owned(),
                ))
            }
        },
    }
}

} // verus!
