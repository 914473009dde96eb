//! The content-addressed file store: the layout of blob paths under a
//! repository root, the missing-blob computation, and the decision rule of
//! blob insertion.  Reading and writing the blobs themselves is left to the
//! caller, which hands the outcomes of its probes in as plain values.

use vstd::prelude::*;

use crate::hash::{
    algorithm_name, parse_hash, spec_algorithm_name, spec_digest, spec_hash_string,
    spec_parse_hash, validate_hash_data, hex_of_bytes, HashAlgorithm,
};
use crate::responses::{ErrorKind, OutpackError};

verus! {

/// Where the blob for digest `value` under `alg` lives, relative to `root`:
/// `root/.outpack/files/<algorithm>/<first two hex digits>/<remaining digits>`.
pub open spec fn spec_file_path(root: Seq<char>, alg: HashAlgorithm, value: Seq<char>) -> Seq<
    char,
> {
    root + "/.outpack/files/"@ + spec_algorithm_name(alg) + "/"@ + value.subrange(0, 2) + "/"@
        + value.skip(2)
}

/// Whether `parse_hash` accepts `s` and leaves at least the two hex digits
/// the store layout needs.
pub open spec fn spec_storable_hash(s: Seq<char>) -> bool {
    &&& spec_parse_hash(s) is Ok
    &&& spec_parse_hash(s)->Ok_0.1.len() >= 2
}

/// The on-disk path of the blob a hash string names.  A hash that does not
/// parse, or whose hex part is shorter than the two digits the layout splits
/// off, is refused with the parse error.
pub fn file_path(root: &str, hash: &str) -> (r: Result<String, OutpackError>)
    ensures
        match r {
            Ok(p) => {
                &&& spec_storable_hash(hash@)
                &&& p@ == spec_file_path(
                    root@,
                    spec_parse_hash(hash@)->Ok_0.0,
                    spec_parse_hash(hash@)->Ok_0.1,
                )
            },
            Err(e) => {
                &&& !spec_storable_hash(hash@)
                &&& e.kind == Some(ErrorKind::InvalidInput)
                &&& match spec_parse_hash(hash@) {
                    Err(msg) => e.detail@ == msg,
                    Ok(_) => e.detail@ == "Invalid hash format '"@ + hash@ + "'"@,
                }
            },
        },
{
    let parsed: crate::hash::Hash = match parse_hash(hash) {
        Ok(h) => h,
        Err(e) => {
            return Err(OutpackError::from_hash_error(e));
        },
    };
    let value = parsed.value.as_str();
    let n = value.unicode_len();
    if n < 2 {
        let mut msg = String::new();
        msg.append("Invalid hash format '");
        msg.append(hash);
        msg.append("'");
        return Err(OutpackError::new(ErrorKind::InvalidInput, msg));
    }
    let mut out = String::new();
    out.append(root);
    out.append("/.outpack/files/");
    out.append(algorithm_name(parsed.algorithm));
    out.append("/");
    out.append(value.substring_char(0, 2));
    out.append("/");
    out.append(value.substring_char(2, n));
    proof {
        assert(value@.subrange(2, n as int) =~= value@.skip(2));
        assert(out@ =~= spec_file_path(root@, parsed.algorithm, parsed.value@));
    }
    Ok(out)
}

proof fn lemma_concat_cancel_left<A>(a: Seq<A>, b: Seq<A>, c: Seq<A>)
    requires
        a + b == a + c,
    ensures
        b =~= c,
{
    assert((a + b).len() == a.len() + b.len());
    assert((a + c).len() == a.len() + c.len());
    assert(b.len() == c.len());
    assert forall|i: int| 0 <= i < b.len() implies b[i] == c[i] by {
        assert(0 <= a.len() + i < (a + b).len());
        assert((a + b)[a.len() + i] == b[i]);
        assert((a + c)[a.len() + i] == c[i]);
    }
}

/// Distinct hashes are stored at distinct paths: the blob path determines the
/// algorithm and the full hex digest.
pub proof fn lemma_file_path_distinct(
    root: Seq<char>,
    alg1: HashAlgorithm,
    v1: Seq<char>,
    alg2: HashAlgorithm,
    v2: Seq<char>,
)
    requires
        v1.len() >= 2,
        v2.len() >= 2,
        spec_file_path(root, alg1, v1) == spec_file_path(root, alg2, v2),
    ensures
        alg1 == alg2,
        v1 == v2,
{
    reveal_strlit("md5");
    reveal_strlit("sha1");
    reveal_strlit("sha256");
    reveal_strlit("/");
    let pre = root + "/.outpack/files/"@;
    let rest1 = spec_algorithm_name(alg1) + "/"@ + v1.subrange(0, 2) + "/"@ + v1.skip(2);
    let rest2 = spec_algorithm_name(alg2) + "/"@ + v2.subrange(0, 2) + "/"@ + v2.skip(2);
    assert(pre + rest1 =~= spec_file_path(root, alg1, v1));
    assert(pre + rest2 =~= spec_file_path(root, alg2, v2));
    lemma_concat_cancel_left(pre, rest1, rest2);
    // The algorithm names have pairwise distinct lengths, and the name is
    // followed by a slash; a mismatch puts a slash where the longer name has
    // a letter or digit.
    let n1 = spec_algorithm_name(alg1);
    let n2 = spec_algorithm_name(alg2);
    assert(rest1[n1.len() as int] == '/');
    assert(rest2[n2.len() as int] == '/');
    if alg1 != alg2 {
        if n1.len() < n2.len() {
            assert(rest2[n1.len() as int] == n2[n1.len() as int]);
            assert(rest1[n1.len() as int] == '/');
            assert(n2[n1.len() as int] != '/');
            assert(false);
        } else {
            assert(rest1[n2.len() as int] == n1[n2.len() as int]);
            assert(rest2[n2.len() as int] == '/');
            assert(n1[n2.len() as int] != '/');
            assert(false);
        }
    }
    assert(n1 == n2);
    assert((n1 + "/"@) + (v1.subrange(0, 2) + "/"@ + v1.skip(2)) =~= rest1);
    assert((n2 + "/"@) + (v2.subrange(0, 2) + "/"@ + v2.skip(2)) =~= rest2);
    lemma_concat_cancel_left(n1 + "/"@, v1.subrange(0, 2) + "/"@ + v1.skip(2), v2.subrange(0, 2)
        + "/"@ + v2.skip(2));
    let t1 = v1.subrange(0, 2) + "/"@ + v1.skip(2);
    let t2 = v2.subrange(0, 2) + "/"@ + v2.skip(2);
    assert(t1 =~= t2);
    assert(v1.subrange(0, 2)[0] == t1[0] && v1.subrange(0, 2)[1] == t1[1]);
    assert(v2.subrange(0, 2)[0] == t2[0] && v2.subrange(0, 2)[1] == t2[1]);
    assert(v1.subrange(0, 2) =~= v2.subrange(0, 2));
    assert forall|i: int| 0 <= i < v1.skip(2).len() implies v1.skip(2)[i] == v2.skip(2)[i] by {
        assert(t1[3 + i] == v1.skip(2)[i]);
        assert(t2[3 + i] == v2.skip(2)[i]);
    }
    assert(v1.skip(2).len() == v2.skip(2).len());
    assert(v1.skip(2) =~= v2.skip(2));
    assert(v1 =~= v1.subrange(0, 2) + v1.skip(2));
    assert(v2 =~= v2.subrange(0, 2) + v2.skip(2));
    assert(v1 =~= v2);
}

/// The views of a vector of strings.
pub open spec fn views(v: Seq<String>) -> Seq<Seq<char>> {
    v.map_values(|s: String| s@)
}

/// The index of the first entry that `parse_hash` refuses, or -1.
pub open spec fn first_unparsable(ws: Seq<Seq<char>>) -> int
    decreases ws.len(),
{
    if ws.len() == 0 {
        -1
    } else if spec_parse_hash(ws[0]) is Err {
        0
    } else {
        let r = first_unparsable(ws.drop_first());
        if r == -1 {
            -1
        } else {
            r + 1
        }
    }
}

pub proof fn lemma_first_unparsable(ws: Seq<Seq<char>>)
    ensures
        -1 <= first_unparsable(ws) < ws.len(),
        first_unparsable(ws) == -1 ==> forall|i: int|
            0 <= i < ws.len() ==> spec_parse_hash(#[trigger] ws[i]) is Ok,
        first_unparsable(ws) >= 0 ==> {
            &&& spec_parse_hash(ws[first_unparsable(ws)]) is Err
            &&& forall|i: int|
                0 <= i < first_unparsable(ws) ==> spec_parse_hash(#[trigger] ws[i]) is Ok
        },
    decreases ws.len(),
{
    if ws.len() > 0 && spec_parse_hash(ws[0]) is Ok {
        let t = ws.drop_first();
        lemma_first_unparsable(t);
        assert(forall|i: int| 0 <= i < t.len() ==> t[i] == ws[i + 1]);
        if first_unparsable(ws) == -1 {
            assert forall|i: int| 0 <= i < ws.len() implies spec_parse_hash(
                #[trigger] ws[i]) is Ok by {
                if i > 0 {
                    assert(spec_parse_hash(t[i - 1]) is Ok);
                }
            }
        } else {
            let k = first_unparsable(ws);
            assert(first_unparsable(t) == k - 1);
            assert(ws[k] == t[k - 1]);
            assert forall|i: int| 0 <= i < k implies spec_parse_hash(#[trigger] ws[i]) is Ok by {
                if i > 0 {
                    assert(spec_parse_hash(t[i - 1]) is Ok);
                }
            }
        }
    }
}

/// The entries of `ws` that are not present, in order.
pub open spec fn spec_missing(ws: Seq<Seq<char>>, present: Seq<bool>) -> Seq<Seq<char>>
    decreases ws.len(),
{
    if ws.len() == 0 {
        Seq::<Seq<char>>::empty()
    } else {
        let rest = spec_missing(ws.drop_first(), present.drop_first());
        if present[0] {
            rest
        } else {
            seq![ws[0]] + rest
        }
    }
}

/// Which of the wanted blobs are absent.  `present[i]` reports the caller's
/// probe of the store for `wanted[i]`; the first hash that does not parse is
/// refused, as the probe itself would have refused it.
pub fn get_missing_files(wanted: &Vec<String>, present: &Vec<bool>) -> (r: Result<
    Vec<String>,
    OutpackError,
>)
    requires
        wanted@.len() == present@.len(),
    ensures
        match r {
            Ok(v) => {
                &&& first_unparsable(views(wanted@)) == -1
                &&& views(v@) == spec_missing(views(wanted@), present@)
            },
            Err(e) => {
                let k = first_unparsable(views(wanted@));
                &&& k >= 0
                &&& e.kind == Some(ErrorKind::InvalidInput)
                &&& e.detail@ == spec_parse_hash(views(wanted@)[k])->Err_0
            },
        },
{
    let ghost ws = views(wanted@);
    proof {
        lemma_first_unparsable(ws);
    }
    let n = wanted.len();
    let mut out: Vec<String> = Vec::new();
    for i in 0..n
        invariant
            n == wanted@.len(),
            n == present@.len(),
            ws == views(wanted@),
            forall|j: int| 0 <= j < i ==> spec_parse_hash(#[trigger] ws[j]) is Ok,
            views(out@) =~= spec_missing(ws.subrange(0, i as int), present@.subrange(0, i as int)),
    {
        match parse_hash(wanted[i].as_str()) {
            Ok(_) => {},
            Err(e) => {
                proof {
                    lemma_first_unparsable(ws);
                    assert(spec_parse_hash(ws[i as int]) is Err);
                }
                return Err(OutpackError::from_hash_error(e));
            },
        }
        if !present[i] {
            out.push(wanted[i].clone());
        }
        proof {
            lemma_spec_missing_snoc(ws, present@, i as int);
        }
    }
    proof {
        assert(ws.subrange(0, n as int) =~= ws);
        assert(present@.subrange(0, n as int) =~= present@);
        lemma_first_unparsable(ws);
    }
    Ok(out)
}

proof fn lemma_spec_missing_snoc(ws: Seq<Seq<char>>, ps: Seq<bool>, i: int)
    requires
        0 <= i < ws.len(),
        ws.len() == ps.len(),
    ensures
        spec_missing(ws.subrange(0, i + 1), ps.subrange(0, i + 1)) =~= if ps[i] {
            spec_missing(ws.subrange(0, i), ps.subrange(0, i))
        } else {
            spec_missing(ws.subrange(0, i), ps.subrange(0, i)) + seq![ws[i]]
        },
    decreases i,
{
    if i == 0 {
        assert(ws.subrange(0, 1).drop_first() =~= ws.subrange(0, 0));
        assert(ps.subrange(0, 1).drop_first() =~= ps.subrange(0, 0));
        assert(spec_missing(ws.subrange(0, 0), ps.subrange(0, 0)) =~= Seq::<Seq<char>>::empty());
    } else {
        lemma_spec_missing_snoc(ws.drop_first(), ps.drop_first(), i - 1);
        assert(ws.subrange(0, i + 1).drop_first() =~= ws.drop_first().subrange(0, i));
        assert(ps.subrange(0, i + 1).drop_first() =~= ps.drop_first().subrange(0, i));
        assert(ws.subrange(0, i).drop_first() =~= ws.drop_first().subrange(0, i - 1));
        assert(ps.subrange(0, i).drop_first() =~= ps.drop_first().subrange(0, i - 1));
        assert(ws.drop_first()[i - 1] == ws[i]);
        assert(ps.drop_first()[i - 1] == ps[i]);
    }
}

/// Whether the store accepts `data` under the claimed hash `hash`: the hash
/// parses, leaves the two hex digits the layout needs, and matches the data's
/// digest.
pub open spec fn spec_put_file_accepts(data: Seq<u8>, hash: Seq<char>) -> bool {
    &&& spec_storable_hash(hash)
    &&& {
        let (alg, value) = spec_parse_hash(hash)->Ok_0;
        spec_hash_string(alg, hex_of_bytes(spec_digest(alg, data))) == spec_hash_string(alg, value)
    }
}

/// The decision rule of blob insertion: validate the claimed hash against the
/// data, then either succeed as a no-op (the blob is already present) or name
/// the path the data must be moved to.  Mirrors the store's insertion steps
/// up to the rename, which the caller performs.
///
/// The last three clauses state the store laws: rejected data is never given
/// a destination, so a failed insertion leaves the store untouched; and a
/// repeated insertion of an accepted blob is a no-op.
pub fn put_file(root: &str, data: &[u8], hash: &str, already_present: bool) -> (r: Result<
    Option<String>,
    OutpackError,
>)
    ensures
        match spec_parse_hash(hash@) {
            Err(msg) => {
                &&& r is Err
                &&& r->Err_0.detail@ == msg
                &&& r->Err_0.kind == Some(ErrorKind::InvalidInput)
            },
            Ok((alg, value)) => {
                let found = spec_hash_string(alg, hex_of_bytes(spec_digest(alg, data@)));
                if found != spec_hash_string(alg, value) {
                    &&& r is Err
                    &&& r->Err_0.kind == Some(ErrorKind::InvalidInput)
                    &&& r->Err_0.detail@ == "Expected hash '"@ + hash@ + "' but found '"@ + found
                        + "'"@
                } else if value.len() < 2 {
                    &&& r is Err
                    &&& r->Err_0.kind == Some(ErrorKind::InvalidInput)
                    &&& r->Err_0.detail@ == "Invalid hash format '"@ + hash@ + "'"@
                } else if already_present {
                    r matches Ok(p) && p is None
                } else {
                    r matches Ok(p) && p matches Some(dest) && dest@ == spec_file_path(
                        root@,
                        alg,
                        value,
                    )
                }
            },
        },
        !spec_put_file_accepts(data@, hash@) ==> r is Err,
        spec_put_file_accepts(data@, hash@) && !already_present ==> (r matches Ok(p) && p matches
            Some(dest) && dest@ == spec_file_path(
            root@,
            spec_parse_hash(hash@)->Ok_0.0,
            spec_parse_hash(hash@)->Ok_0.1,
        )),
        spec_put_file_accepts(data@, hash@) && already_present ==> (r matches Ok(p) && p is None),
{
    match validate_hash_data(data, hash) {
        Ok(()) => {},
        Err(e) => {
            return Err(OutpackError::from_hash_error(e));
        },
    }
    let dest = match file_path(root, hash) {
        Ok(p) => p,
        Err(e) => {
            return Err(e);
        },
    };
    if already_present {
        Ok(None)
    } else {
        Ok(Some(dest))
    }
}

} // verus!
