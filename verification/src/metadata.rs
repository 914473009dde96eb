//! The metadata index: packet documents, id validation, the missing-id
//! computation, and the digest over the sorted id list.

use vstd::prelude::*;
use vstd::relations::sorted_by;
use vstd::seq_lib::lemma_sorted_unique;

use crate::hash::{
    algorithm_from_str, hash_data, hex_of_bytes, spec_digest, spec_hash_string, HashAlgorithm,
};
use crate::responses::{ErrorKind, OutpackError};
use crate::store::views;
use crate::strings::{lex_leq, lex_leq_fn, lemma_lex_leq_total_ordering, str_leq};
use crate::utils::{is_packet_id, is_packet_str, spec_trim, trim};

verus! {

/// A file a packet declares: its path within the packet, the hash of its
/// contents, and its size in bytes.
#[derive(Clone, Debug)]
pub struct PacketFile {
    pub path: String,
    pub hash: String,
    pub size: usize,
}

/// A correspondence between a file of this packet and one of a dependency.
#[derive(Clone, Debug)]
pub struct DependencyFile {
    pub here: String,
    pub there: String,
}

/// A dependency of a packet: the dependency's id and the files taken from it.
#[derive(Clone, Debug)]
pub struct PacketDependency {
    pub packet: String,
    pub files: Vec<DependencyFile>,
}

/// When a packet ran, in milliseconds since the epoch.
#[derive(Clone, Copy, PartialEq, Eq, Structural, Debug)]
pub struct PacketTime {
    pub start: u64,
    pub end: u64,
}

/// The structural fields of a packet metadata document.  The document itself
/// is opaque: it is persisted byte-identical, and only these fields are read.
#[derive(Clone, Debug)]
pub struct Packet {
    pub id: String,
    pub name: String,
    pub files: Vec<PacketFile>,
    pub depends: Vec<PacketDependency>,
    pub time: PacketTime,
}

/// Where the metadata document for `id` lives under `root`.
pub open spec fn spec_metadata_path(root: Seq<char>, id: Seq<char>) -> Seq<char> {
    root + "/.outpack/metadata/"@ + id
}

/// The on-disk path of the metadata document for `id`.
pub fn get_path(root: &str, id: &str) -> (r: String)
    ensures
        r@ == spec_metadata_path(root@, id@),
{
    let mut out = String::new();
    out.append(root);
    out.append("/.outpack/metadata/");
    out.append(id);
    proof {
        assert(out@ =~= spec_metadata_path(root@, id@));
    }
    out
}

/// The path of the metadata document for `id`, given whether the caller found
/// it on disk; an absent document is refused with `NotFound`.
pub fn get_metadata_file(root: &str, id: &str, found: bool) -> (r: Result<String, OutpackError>)
    ensures
        match r {
            Ok(p) => found && p@ == spec_metadata_path(root@, id@),
            Err(e) => {
                &&& !found
                &&& e.kind == Some(ErrorKind::NotFound)
                &&& e.detail@ == "packet with id '"@ + id@ + "' does not exist"@
            },
        },
{
    if found {
        Ok(get_path(root, id))
    } else {
        let mut msg = String::new();
        msg.append("packet with id '");
        msg.append(id);
        msg.append("' does not exist");
        Err(OutpackError::new(ErrorKind::NotFound, msg))
    }
}

/// Trim an id and insist that the result is a well-formed packet id.
pub fn get_valid_id(id: &String) -> (r: Result<String, OutpackError>)
    ensures
        match r {
            Ok(t) => is_packet_id(spec_trim(id@)) && t@ == spec_trim(id@),
            Err(e) => {
                &&& !is_packet_id(spec_trim(id@))
                &&& e.kind == Some(ErrorKind::InvalidInput)
                &&& e.detail@ == "Invalid packet id '"@ + id@ + "'"@
            },
        },
{
    let t = trim(id.as_str());
    if is_packet_str(t.as_str()) {
        Ok(t)
    } else {
        let mut msg = String::new();
        msg.append("Invalid packet id '");
        msg.append(id.as_str());
        msg.append("'");
        Err(OutpackError::new(ErrorKind::InvalidInput, msg))
    }
}

/// Whether some element of `v` reads `s`.
pub fn contains_str(v: &Vec<String>, s: &String) -> (r: bool)
    ensures
        r == views(v@).contains(s@),
{
    let n = v.len();
    for i in 0..n
        invariant
            n == v@.len(),
            forall|j: int| 0 <= j < i ==> views(v@)[j] != s@,
    {
        proof {
            assert(views(v@)[i as int] == v@[i as int]@);
        }
        if v[i].eq(s) {
            proof {
                assert(views(v@)[i as int] == s@);
            }
            return true;
        }
    }
    proof {
        assert(forall|j: int| 0 <= j < views(v@).len() ==> views(v@)[j] != s@);
    }
    false
}

/// The index of the first entry whose trimmed form is not a packet id, or -1.
pub open spec fn first_invalid_id(ws: Seq<Seq<char>>) -> int
    decreases ws.len(),
{
    if ws.len() == 0 {
        -1
    } else if !is_packet_id(spec_trim(ws[0])) {
        0
    } else {
        let r = first_invalid_id(ws.drop_first());
        if r == -1 {
            -1
        } else {
            r + 1
        }
    }
}

pub proof fn lemma_first_invalid_id(ws: Seq<Seq<char>>)
    ensures
        -1 <= first_invalid_id(ws) < ws.len(),
        first_invalid_id(ws) == -1 ==> forall|i: int|
            0 <= i < ws.len() ==> is_packet_id(spec_trim(#[trigger] ws[i])),
        first_invalid_id(ws) >= 0 ==> {
            &&& !is_packet_id(spec_trim(ws[first_invalid_id(ws)]))
            &&& forall|i: int|
                0 <= i < first_invalid_id(ws) ==> is_packet_id(spec_trim(#[trigger] ws[i]))
        },
    decreases ws.len(),
{
    if ws.len() > 0 && is_packet_id(spec_trim(ws[0])) {
        let t = ws.drop_first();
        lemma_first_invalid_id(t);
        assert(forall|i: int| 0 <= i < t.len() ==> t[i] == ws[i + 1]);
        if first_invalid_id(ws) == -1 {
            assert forall|i: int| 0 <= i < ws.len() implies is_packet_id(
                spec_trim(#[trigger] ws[i])) by {
                if i > 0 {
                    assert(is_packet_id(spec_trim(t[i - 1])));
                }
            }
        } else {
            let k = first_invalid_id(ws);
            assert(first_invalid_id(t) == k - 1);
            assert(ws[k] == t[k - 1]);
            assert forall|i: int| 0 <= i < k implies is_packet_id(spec_trim(#[trigger] ws[i])) by {
                if i > 0 {
                    assert(is_packet_id(spec_trim(t[i - 1])));
                }
            }
        }
    }
}

/// The wanted ids, trimmed, de-duplicated and with the known ones removed,
/// in order of first occurrence.
pub open spec fn spec_missing_ids_rec(
    ws: Seq<Seq<char>>,
    known: Seq<Seq<char>>,
    acc: Seq<Seq<char>>,
) -> Seq<Seq<char>>
    decreases ws.len(),
{
    if ws.len() == 0 {
        acc
    } else {
        let t = spec_trim(ws[0]);
        if known.contains(t) || acc.contains(t) {
            spec_missing_ids_rec(ws.drop_first(), known, acc)
        } else {
            spec_missing_ids_rec(ws.drop_first(), known, acc.push(t))
        }
    }
}

/// The wanted ids the repository does not know: trimmed, de-duplicated, known
/// ones removed, in order of first occurrence.
pub open spec fn spec_missing_ids(ws: Seq<Seq<char>>, known: Seq<Seq<char>>) -> Seq<Seq<char>> {
    spec_missing_ids_rec(ws, known, Seq::<Seq<char>>::empty())
}

/// The wanted ids, trimmed, that the repository does not know: every id in
/// the result is a trimmed wanted id absent from `known`, each appears once,
/// and every such id appears.  Ids that do not trim to a well-formed packet
/// id are refused, at the first offender.
pub fn get_missing_ids(wanted: &Vec<String>, known: &Vec<String>) -> (r: Result<
    Vec<String>,
    OutpackError,
>)
    ensures
        match r {
            Ok(v) => {
                &&& first_invalid_id(views(wanted@)) == -1
                &&& forall|x: Seq<char>|
                    #[trigger] views(v@).contains(x) <==> ((exists|i: int|
                        0 <= i < wanted@.len() && spec_trim(#[trigger] views(wanted@)[i]) == x)
                        && !views(known@).contains(x))
                &&& views(v@).no_duplicates()
                &&& views(v@) == spec_missing_ids(views(wanted@), views(known@))
            },
            Err(e) => {
                let k = first_invalid_id(views(wanted@));
                &&& k >= 0
                &&& e.kind == Some(ErrorKind::InvalidInput)
                &&& e.detail@ == "Invalid packet id '"@ + views(wanted@)[k] + "'"@
            },
        },
{
    let ghost ws = views(wanted@);
    let ghost knownv = views(known@);
    proof {
        lemma_first_invalid_id(ws);
        assert(ws.skip(0) =~= ws);
    }
    let n = wanted.len();
    let mut out: Vec<String> = Vec::new();
    proof {
        assert(views(out@) =~= Seq::<Seq<char>>::empty());
    }
    for i in 0..n
        invariant
            n == wanted@.len(),
            ws == views(wanted@),
            knownv == views(known@),
            forall|j: int| 0 <= j < i ==> is_packet_id(spec_trim(#[trigger] ws[j])),
            forall|x: Seq<char>|
                #[trigger] views(out@).contains(x) <==> ((exists|j: int|
                    0 <= j < i && spec_trim(#[trigger] ws[j]) == x) && !views(known@).contains(x)),
            views(out@).no_duplicates(),
            spec_missing_ids_rec(ws.skip(i as int), knownv, views(out@)) == spec_missing_ids(
                ws,
                knownv,
            ),
    {
        proof {
            assert(ws.skip(i as int)[0] == ws[i as int]);
            assert(ws.skip(i as int).drop_first() =~= ws.skip(i + 1));
        }
        let t = match get_valid_id(&wanted[i]) {
            Ok(t) => t,
            Err(e) => {
                proof {
                    lemma_first_invalid_id(ws);
                    assert(!is_packet_id(spec_trim(ws[i as int])));
                }
                return Err(e);
            },
        };
        let ghost prev = views(out@);
        if !contains_str(known, &t) && !contains_str(&out, &t) {
            out.push(t);
            proof {
                assert(views(out@) =~= prev.push(spec_trim(ws[i as int])));
                assert(spec_missing_ids_rec(ws.skip(i as int), knownv, prev)
                    == spec_missing_ids_rec(ws.skip(i + 1), knownv, views(out@)));
                assert forall|x: Seq<char>| #[trigger] views(out@).contains(x) implies ((exists|
                    j: int,
                |
                    0 <= j < i + 1 && spec_trim(#[trigger] ws[j]) == x) && !views(
                    known@).contains(x)) by {
                    let j = choose|j: int| 0 <= j < views(out@).len() && views(out@)[j] == x;
                    if j < prev.len() {
                        assert(prev.contains(x));
                    } else {
                        assert(x == spec_trim(ws[i as int]));
                    }
                }
                assert forall|x: Seq<char>|
                    ((exists|j: int| 0 <= j < i + 1 && spec_trim(#[trigger] ws[j]) == x) && !views(
                        known@).contains(x)) implies #[trigger] views(out@).contains(x) by {
                    let j = choose|j: int| 0 <= j < i + 1 && spec_trim(ws[j]) == x;
                    if j < i {
                        assert(prev.contains(x));
                        let m = choose|m: int| 0 <= m < prev.len() && prev[m] == x;
                        assert(views(out@)[m] == x);
                    } else {
                        assert(views(out@)[prev.len() as int] == x);
                    }
                }
            }
        } else {
            proof {
                assert(spec_missing_ids_rec(ws.skip(i as int), knownv, views(out@))
                    == spec_missing_ids_rec(ws.skip(i + 1), knownv, views(out@)));
                assert forall|x: Seq<char>| #[trigger] views(out@).contains(x) implies ((exists|
                    j: int,
                |
                    0 <= j < i + 1 && spec_trim(#[trigger] ws[j]) == x) && !views(
                    known@).contains(x)) by {}
                assert forall|x: Seq<char>|
                    ((exists|j: int| 0 <= j < i + 1 && spec_trim(#[trigger] ws[j]) == x) && !views(
                        known@).contains(x)) implies #[trigger] views(out@).contains(x) by {
                    let j = choose|j: int| 0 <= j < i + 1 && spec_trim(ws[j]) == x;
                    if j < i {
                        assert(views(out@).contains(x));
                    } else {
                        // x is the id just examined: it was already known or
                        // already collected.
                        assert(x == spec_trim(ws[i as int]));
                    }
                }
            }
        }
    }
    proof {
        lemma_first_invalid_id(ws);
        assert(ws.skip(n as int) =~= Seq::<Seq<char>>::empty());
        assert(spec_missing_ids_rec(ws.skip(n as int), knownv, views(out@)) == views(out@));
    }
    Ok(out)
}

/// The concatenation, in lexicographic order, of a multiset of ids.
pub open spec fn spec_sorted_concat(vs: Seq<Seq<char>>) -> Seq<char> {
    vs.sort_by(lex_leq_fn()).flatten()
}

/// Sort strings lexicographically by their characters.
pub fn sort_strings(ids: Vec<String>) -> (r: Vec<String>)
    ensures
        sorted_by(views(r@), lex_leq_fn()),
        views(r@).to_multiset() == views(ids@).to_multiset(),
{
    broadcast use vstd::seq_lib::group_to_multiset_ensures;

    let n = ids.len();
    let mut out: Vec<String> = Vec::new();
    proof {
        assert(views(ids@.subrange(0, 0)) =~= Seq::<Seq<char>>::empty());
        assert(views(out@) =~= Seq::<Seq<char>>::empty());
    }
    for idx in 0..n
        invariant
            n == ids@.len(),
            sorted_by(views(out@), lex_leq_fn()),
            views(out@).to_multiset() == views(ids@.subrange(0, idx as int)).to_multiset(),
    {
        broadcast use vstd::seq_lib::group_to_multiset_ensures;

        let x = ids[idx].clone();
        let mut j: usize = 0;
        while j < out.len() && str_leq(out[j].as_str(), x.as_str())
            invariant
                j <= out@.len(),
                x@ == views(ids@)[idx as int],
                sorted_by(views(out@), lex_leq_fn()),
                forall|k: int| 0 <= k < j ==> lex_leq(#[trigger] views(out@)[k], x@),
            decreases out@.len() - j,
        {
            proof {
                assert(views(out@)[j as int] == out@[j as int]@);
            }
            j = j + 1;
        }
        proof {
            let vs = views(out@);
            assert forall|k: int| j <= k < vs.len() implies lex_leq(x@, #[trigger] vs[k]) by {
                crate::strings::lemma_lex_leq_connected(x@, vs[j as int]);
                if k > j {
                    assert(lex_leq_fn()(vs[j as int], vs[k]));
                    crate::strings::lemma_lex_leq_transitive(x@, vs[j as int], vs[k]);
                }
            }
        }
        let ghost prev = views(out@);
        let ghost prev_vec = out@;
        out.insert(j, x);
        proof {
            assert(views(out@) =~= prev.insert(j as int, x@)) by {
                assert(out@ == prev_vec.insert(j as int, x));
                prev_vec.insert_ensures(j as int, x);
                prev.insert_ensures(j as int, x@);
                assert forall|m: int| 0 <= m < views(out@).len() implies views(out@)[m]
                    == prev.insert(j as int, x@)[m] by {
                    assert(views(out@)[m] == out@[m]@);
                    if m < j {
                        assert(out@[m] == prev_vec[m]);
                    } else if m == j {
                        assert(out@[m] == x);
                    } else {
                        assert(out@[m] == prev_vec[m - 1]);
                    }
                }
            }
            lemma_sorted_insert(prev, j as int, x@);
            lemma_multiset_insert(prev, j as int, x@);
            assert(views(ids@.subrange(0, idx + 1)) =~= views(ids@.subrange(0, idx as int)).push(
                x@)) by {
                assert forall|m: int| 0 <= m < idx + 1 implies views(ids@.subrange(0, idx + 1))[m]
                    == views(ids@.subrange(0, idx as int)).push(x@)[m] by {
                    assert(views(ids@.subrange(0, idx + 1))[m] == ids@[m]@);
                }
            }
        }
    }
    proof {
        assert(ids@.subrange(0, n as int) =~= ids@);
    }
    out
}

proof fn lemma_sorted_insert(vs: Seq<Seq<char>>, j: int, x: Seq<char>)
    requires
        sorted_by(vs, lex_leq_fn()),
        0 <= j <= vs.len(),
        forall|k: int| 0 <= k < j ==> lex_leq(#[trigger] vs[k], x),
        forall|k: int| j <= k < vs.len() ==> lex_leq(x, #[trigger] vs[k]),
    ensures
        sorted_by(vs.insert(j, x), lex_leq_fn()),
{
    vs.insert_ensures(j, x);
    let s = vs.insert(j, x);
    assert forall|i1: int, i2: int| 0 <= i1 < i2 < s.len() implies #[trigger] lex_leq_fn()(
        s[i1],
        s[i2],
    ) by {
        if i1 < j && i2 < j {
            assert(lex_leq_fn()(vs[i1], vs[i2]));
        } else if i1 < j && i2 == j {
            assert(lex_leq(vs[i1], x));
        } else if i1 < j && i2 > j {
            assert(lex_leq_fn()(vs[i1], vs[i2 - 1]));
        } else if i1 == j {
            assert(lex_leq(x, vs[i2 - 1]));
        } else {
            assert(lex_leq_fn()(vs[i1 - 1], vs[i2 - 1]));
        }
    }
}

proof fn lemma_multiset_insert(vs: Seq<Seq<char>>, j: int, x: Seq<char>)
    requires
        0 <= j <= vs.len(),
    ensures
        vs.insert(j, x).to_multiset() == vs.push(x).to_multiset(),
{
    broadcast use vstd::seq_lib::group_to_multiset_ensures;
    broadcast use vstd::multiset::group_multiset_axioms;

    let s = vs.insert(j, x);
    vs.insert_ensures(j, x);
    assert(s.remove(j) =~= vs);
    assert(s.remove(j).to_multiset() == s.to_multiset().remove(s[j]));
    assert(s[j] == x);
    assert(s.to_multiset().contains(x)) by {
        assert(s.contains(x));
    }
    assert(vs.push(x).to_multiset() == vs.to_multiset().insert(x));
    assert(s.to_multiset() =~= vs.to_multiset().insert(x)) by {
        assert(s.to_multiset().remove(x) == vs.to_multiset());
        assert forall|y: Seq<char>|
            s.to_multiset().count(y) == #[trigger] vs.to_multiset().insert(x).count(y) by {
            if y == x {
                assert(s.to_multiset().count(x) == s.to_multiset().remove(x).count(x) + 1);
            } else {
                assert(s.to_multiset().count(y) == s.to_multiset().remove(x).count(y));
            }
        }
    }
}

/// Sort the ids and join them with no separator.
pub fn get_sorted_id_string(ids: Vec<String>) -> (r: String)
    ensures
        r@ == spec_sorted_concat(views(ids@)),
{
    broadcast use Seq::lemma_flatten_push;

    let ghost vs0 = views(ids@);
    let sorted = sort_strings(ids);
    proof {
        lemma_lex_leq_total_ordering();
        vs0.lemma_sort_by_ensures(lex_leq_fn());
        lemma_sorted_unique(views(sorted@), vs0.sort_by(lex_leq_fn()), lex_leq_fn());
        assert(views(sorted@) == vs0.sort_by(lex_leq_fn()));
    }
    let mut out = String::new();
    let n = sorted.len();
    proof {
        assert(views(sorted@).subrange(0, 0) =~= Seq::<Seq<char>>::empty());
        assert(Seq::<Seq<char>>::empty().flatten() =~= Seq::<char>::empty());
    }
    for i in 0..n
        invariant
            n == sorted@.len(),
            views(sorted@) == vs0.sort_by(lex_leq_fn()),
            out@ == views(sorted@).subrange(0, i as int).flatten(),
    {
        broadcast use Seq::lemma_flatten_push;

        out.append(sorted[i].as_str());
        proof {
            assert(views(sorted@).subrange(0, i + 1) =~= views(sorted@).subrange(0, i as int).push(
                views(sorted@)[i as int]));
        }
    }
    proof {
        assert(views(sorted@).subrange(0, n as int) =~= views(sorted@));
    }
    out
}

/// The id digest: the hash, under `alg`, of the sorted ids joined with no
/// separator, rendered `<algorithm>:<hex>`.
pub open spec fn spec_ids_digest(vs: Seq<Seq<char>>, alg: HashAlgorithm) -> Seq<char> {
    spec_hash_string(
        alg,
        hex_of_bytes(spec_digest(alg, vstd::utf8::encode_utf8(spec_sorted_concat(vs)))),
    )
}

/// Digest the sorted id list, under the named algorithm if one is given, else
/// under the repository's configured one.
pub fn get_ids_digest(ids: Vec<String>, alg_name: Option<&String>, config_alg: HashAlgorithm) -> (r:
    Result<String, OutpackError>)
    ensures
        match r {
            Ok(s) => {
                let alg = match alg_name {
                    None => config_alg,
                    Some(n) => crate::hash::algo_from_name(crate::hash::lower(n@))->Some_0,
                };
                &&& (alg_name matches Some(n) ==> crate::hash::algo_from_name(
                    crate::hash::lower(n@),
                ) is Some)
                &&& s@ == spec_ids_digest(views(ids@), alg)
            },
            Err(e) => {
                &&& alg_name matches Some(n) && crate::hash::algo_from_name(
                    crate::hash::lower(n@),
                ) is None
                &&& e.kind == Some(ErrorKind::InvalidInput)
                &&& e.detail@ == "Invalid hash algorithm '"@ + alg_name->Some_0@ + "'"@
            },
        },
{
    let alg = match alg_name {
        None => config_alg,
        Some(name) => {
            match algorithm_from_str(name.as_str()) {
                Ok(a) => a,
                Err(e) => {
                    return Err(OutpackError::from_hash_error(e));
                },
            }
        },
    };
    let id_string = get_sorted_id_string(ids);
    let h = hash_data(id_string.as_str().as_bytes(), alg);
    Ok(h.to_string())
}

/// The id digest does not depend on the order the ids were found in: id lists
/// with the same elements digest identically.
pub proof fn lemma_ids_digest_permutation(
    vs1: Seq<Seq<char>>,
    vs2: Seq<Seq<char>>,
    alg: HashAlgorithm,
)
    requires
        vs1.to_multiset() == vs2.to_multiset(),
    ensures
        spec_ids_digest(vs1, alg) == spec_ids_digest(vs2, alg),
{
    lemma_lex_leq_total_ordering();
    vs1.lemma_sort_by_ensures(lex_leq_fn());
    vs2.lemma_sort_by_ensures(lex_leq_fn());
    lemma_sorted_unique(vs1.sort_by(lex_leq_fn()), vs2.sort_by(lex_leq_fn()), lex_leq_fn());
    assert(vs1.sort_by(lex_leq_fn()) == vs2.sort_by(lex_leq_fn()));
}

/// The hashes of the files a packet declares.
pub open spec fn packet_file_hashes(p: Packet) -> Seq<Seq<char>> {
    p.files@.map_values(|f: PacketFile| f.hash@)
}

/// The ids of the packets a packet depends on.
pub open spec fn packet_dep_ids(p: Packet) -> Seq<Seq<char>> {
    p.depends@.map_values(|d: PacketDependency| d.packet@)
}

/// The message refusing ingestion for missing files.
pub open spec fn spec_missing_files_message(id: Seq<char>, missing: Seq<Seq<char>>) -> Seq<char> {
    "Can't import metadata for "@ + id + ", as files missing: \n "@ + crate::strings::spec_join(
        missing,
        ","@,
    )
}

/// The message refusing ingestion for missing dependencies.
pub open spec fn spec_missing_deps_message(id: Seq<char>, missing: Seq<Seq<char>>) -> Seq<char> {
    "Can't import metadata for "@ + id + ", as dependencies missing: \n "@
        + crate::strings::spec_join(missing, ","@)
}

/// Refuse a packet whose declared files are not all in the store.
/// `files_present[i]` reports the caller's probe for the packet's `i`-th file.
pub fn check_missing_files(packet: &Packet, files_present: &Vec<bool>) -> (r: Result<
    (),
    OutpackError,
>)
    requires
        files_present@.len() == packet.files@.len(),
    ensures
        ({
            let fh = packet_file_hashes(*packet);
            let miss = crate::store::spec_missing(fh, files_present@);
            match r {
                Ok(()) => crate::store::first_unparsable(fh) == -1 && miss.len() == 0,
                Err(e) => {
                    &&& e.kind == Some(ErrorKind::InvalidInput)
                    &&& if crate::store::first_unparsable(fh) >= 0 {
                        e.detail@ == crate::hash::spec_parse_hash(
                            fh[crate::store::first_unparsable(fh)],
                        )->Err_0
                    } else {
                        miss.len() > 0 && e.detail@ == spec_missing_files_message(
                            packet.id@,
                            miss,
                        )
                    }
                },
            }
        }),
{
    let ghost fh = packet_file_hashes(*packet);
    let n = packet.files.len();
    let mut hashes: Vec<String> = Vec::new();
    for i in 0..n
        invariant
            n == packet.files@.len(),
            fh == packet_file_hashes(*packet),
            views(hashes@) =~= fh.subrange(0, i as int),
    {
        hashes.push(packet.files[i].hash.clone());
        proof {
            assert(fh[i as int] == packet.files@[i as int].hash@);
            assert(views(hashes@) =~= fh.subrange(0, i as int).push(fh[i as int]));
            assert(fh.subrange(0, i + 1) =~= fh.subrange(0, i as int).push(fh[i as int]));
        }
    }
    proof {
        assert(views(hashes@) =~= fh);
    }
    let missing = match crate::store::get_missing_files(&hashes, files_present) {
        Ok(v) => v,
        Err(e) => {
            return Err(e);
        },
    };
    if missing.len() == 0 {
        proof {
            assert(crate::store::spec_missing(fh, files_present@).len() == 0);
        }
        Ok(())
    } else {
        let joined = crate::strings::join_strings(&missing, ",");
        let mut msg = String::new();
        msg.append("Can't import metadata for ");
        msg.append(packet.id.as_str());
        msg.append(", as files missing: \n ");
        msg.append(joined.as_str());
        proof {
            assert(msg@ =~= spec_missing_files_message(
                packet.id@,
                crate::store::spec_missing(fh, files_present@),
            ));
        }
        Err(OutpackError::new(ErrorKind::InvalidInput, msg))
    }
}

/// Refuse a packet whose dependencies are not all unpacked locally.
/// `known_unpacked` lists the ids in the local location ledger.
pub fn check_missing_dependencies(packet: &Packet, known_unpacked: &Vec<String>) -> (r: Result<
    (),
    OutpackError,
>)
    ensures
        ({
            let dd = packet_dep_ids(*packet);
            let miss = spec_missing_ids(dd, views(known_unpacked@));
            match r {
                Ok(()) => first_invalid_id(dd) == -1 && miss.len() == 0,
                Err(e) => {
                    &&& e.kind == Some(ErrorKind::InvalidInput)
                    &&& if first_invalid_id(dd) >= 0 {
                        e.detail@ == "Invalid packet id '"@ + dd[first_invalid_id(dd)] + "'"@
                    } else {
                        miss.len() > 0 && e.detail@ == spec_missing_deps_message(packet.id@, miss)
                    }
                },
            }
        }),
{
    let ghost dd = packet_dep_ids(*packet);
    let n = packet.depends.len();
    let mut deps: Vec<String> = Vec::new();
    for i in 0..n
        invariant
            n == packet.depends@.len(),
            dd == packet_dep_ids(*packet),
            views(deps@) =~= dd.subrange(0, i as int),
    {
        deps.push(packet.depends[i].packet.clone());
        proof {
            assert(dd[i as int] == packet.depends@[i as int].packet@);
            assert(views(deps@) =~= dd.subrange(0, i as int).push(dd[i as int]));
            assert(dd.subrange(0, i + 1) =~= dd.subrange(0, i as int).push(dd[i as int]));
        }
    }
    proof {
        assert(views(deps@) =~= dd);
    }
    let missing = match get_missing_ids(&deps, known_unpacked) {
        Ok(v) => v,
        Err(e) => {
            return Err(e);
        },
    };
    if missing.len() == 0 {
        Ok(())
    } else {
        let joined = crate::strings::join_strings(&missing, ",");
        let mut msg = String::new();
        msg.append("Can't import metadata for ");
        msg.append(packet.id.as_str());
        msg.append(", as dependencies missing: \n ");
        msg.append(joined.as_str());
        proof {
            assert(msg@ =~= spec_missing_deps_message(
                packet.id@,
                spec_missing_ids(dd, views(known_unpacked@)),
            ));
        }
        Err(OutpackError::new(ErrorKind::InvalidInput, msg))
    }
}

/// Admit a metadata document alone, without requiring its files or
/// dependencies to be present: the bulk-sync entry.  Validates the claimed
/// hash and applies the idempotent-write rule; on a fresh document, returns
/// the path the caller must write `data` to, byte for byte.
pub fn add_metadata(
    root: &str,
    data: &str,
    packet: &Packet,
    hash: &str,
    existing_metadata: Option<&Vec<u8>>,
) -> (r: Result<Option<String>, OutpackError>)
    ensures
        match crate::hash::spec_parse_hash(hash@) {
            Err(msg) => r matches Err(e) && e.kind == Some(ErrorKind::InvalidInput) && e.detail@
                == msg,
            Ok((alg, value)) => {
                let found = spec_hash_string(
                    alg,
                    hex_of_bytes(spec_digest(alg, vstd::utf8::encode_utf8(data@))),
                );
                if found != spec_hash_string(alg, value) {
                    r matches Err(e) && e.kind == Some(ErrorKind::InvalidInput) && e.detail@
                        == "Expected hash '"@ + hash@ + "' but found '"@ + found + "'"@
                } else if existing_metadata matches Some(b) && b@ != vstd::utf8::encode_utf8(
                    data@,
                ) {
                    r matches Err(e) && e.kind == Some(ErrorKind::AlreadyExists)
                } else if existing_metadata is Some {
                    r matches Ok(p) && p is None
                } else {
                    r matches Ok(p) && p matches Some(path) && path@ == spec_metadata_path(
                        root@,
                        packet.id@,
                    )
                }
            },
        },
{
    match crate::hash::validate_hash_data(data.as_bytes(), hash) {
        Ok(()) => {},
        Err(e) => {
            return Err(OutpackError::from_hash_error(e));
        },
    }
    let need_write = match crate::utils::write_idempotent_outcome(
        existing_metadata,
        data.as_bytes(),
    ) {
        Ok(w) => w,
        Err(e) => {
            return Err(e);
        },
    };
    if need_write {
        Ok(Some(get_path(root, packet.id.as_str())))
    } else {
        Ok(None)
    }
}

/// What admitting a packet writes: the metadata document (at its path, byte
/// for byte as the client sent it), and the local ledger entry.  `None` in
/// either place means that an identical artefact is already on disk.
#[derive(Debug)]
pub struct AddPacketPlan {
    pub metadata_path: Option<String>,
    pub location_write: Option<(String, crate::location::LocationEntry)>,
}

/// Whether ingestion accepts `data` as `packet` under the claimed hash: the
/// hash parses and matches the data's digest, every declared file hash parses
/// and is in the store, and every dependency id is valid and unpacked locally.
pub open spec fn spec_add_packet_accepts(
    data: Seq<char>,
    packet: Packet,
    hash: Seq<char>,
    files_present: Seq<bool>,
    known_unpacked: Seq<Seq<char>>,
) -> bool {
    &&& crate::hash::spec_parse_hash(hash) is Ok
    &&& {
        let (alg, value) = crate::hash::spec_parse_hash(hash)->Ok_0;
        spec_hash_string(alg, hex_of_bytes(spec_digest(alg, vstd::utf8::encode_utf8(data))))
            == spec_hash_string(alg, value)
    }
    &&& crate::store::first_unparsable(packet_file_hashes(packet)) == -1
    &&& crate::store::spec_missing(packet_file_hashes(packet), files_present).len() == 0
    &&& first_invalid_id(packet_dep_ids(packet)) == -1
    &&& spec_missing_ids(packet_dep_ids(packet), known_unpacked).len() == 0
}

/// Decide whether `data` may be admitted as the packet `packet` under the
/// claimed hash, and what must be written if so.
///
/// The last three clauses state the ingestion laws: a packet that fails any
/// precondition is refused outright, so nothing is written; re-ingesting a
/// document already stored, with its ledger entry in place, writes nothing;
/// and a different document under the same id is refused as already existing.  `packet` must carry the
/// structural fields parsed from `data`; `files_present` reports the caller's
/// store probes for the packet's files, `known_unpacked` the ids in the local
/// ledger, `existing_metadata` the bytes already stored under this id, and
/// `existing_location` the local ledger entry already recorded for it.
pub fn add_packet(
    root: &str,
    data: &str,
    packet: &Packet,
    hash: &str,
    files_present: &Vec<bool>,
    known_unpacked: &Vec<String>,
    existing_metadata: Option<&Vec<u8>>,
    existing_location: Option<&crate::location::LocationEntry>,
    time: u64,
) -> (r: Result<AddPacketPlan, OutpackError>)
    requires
        files_present@.len() == packet.files@.len(),
    ensures
        ({
            let fh = packet_file_hashes(*packet);
            let dd = packet_dep_ids(*packet);
            let miss_files = crate::store::spec_missing(fh, files_present@);
            let miss_deps = spec_missing_ids(dd, views(known_unpacked@));
            match crate::hash::spec_parse_hash(hash@) {
                Err(msg) => r matches Err(e) && e.kind == Some(ErrorKind::InvalidInput)
                    && e.detail@ == msg,
                Ok((alg, value)) => {
                    let found = spec_hash_string(
                        alg,
                        hex_of_bytes(spec_digest(alg, vstd::utf8::encode_utf8(data@))),
                    );
                    if found != spec_hash_string(alg, value) {
                        r matches Err(e) && e.kind == Some(ErrorKind::InvalidInput) && e.detail@
                            == "Expected hash '"@ + hash@ + "' but found '"@ + found + "'"@
                    } else if crate::store::first_unparsable(fh) >= 0 {
                        r matches Err(e) && e.kind == Some(ErrorKind::InvalidInput) && e.detail@
                            == crate::hash::spec_parse_hash(
                            fh[crate::store::first_unparsable(fh)],
                        )->Err_0
                    } else if miss_files.len() > 0 {
                        r matches Err(e) && e.kind == Some(ErrorKind::InvalidInput) && e.detail@
                            == spec_missing_files_message(packet.id@, miss_files)
                    } else if first_invalid_id(dd) >= 0 {
                        r matches Err(e) && e.kind == Some(ErrorKind::InvalidInput) && e.detail@
                            == "Invalid packet id '"@ + dd[first_invalid_id(dd)] + "'"@
                    } else if miss_deps.len() > 0 {
                        r matches Err(e) && e.kind == Some(ErrorKind::InvalidInput) && e.detail@
                            == spec_missing_deps_message(packet.id@, miss_deps)
                    } else if existing_metadata matches Some(b) && b@ != vstd::utf8::encode_utf8(
                        data@,
                    ) {
                        r matches Err(e) && e.kind == Some(ErrorKind::AlreadyExists)
                    } else if existing_location matches Some(le) && !(le.packet@ == packet.id@
                        && le.hash@ == hash@) {
                        r matches Err(e) && e.kind == Some(ErrorKind::AlreadyExists)
                    } else {
                        r matches Ok(plan) && {
                            &&& plan.metadata_path matches Some(p) ==> existing_metadata is None
                                && p@ == spec_metadata_path(root@, packet.id@)
                            &&& plan.metadata_path is None ==> existing_metadata is Some
                            &&& plan.location_write matches Some((p, e)) ==> existing_location
                                is None && p@ == crate::location::spec_location_entry_path(
                                root@,
                                "local"@,
                                packet.id@,
                            ) && e.packet@ == packet.id@ && e.hash@ == hash@ && e.time == time
                            &&& plan.location_write is None ==> existing_location is Some
                        }
                    }
                },
            }
        }),
        !spec_add_packet_accepts(data@, *packet, hash@, files_present@, views(known_unpacked@))
            ==> r is Err,
        spec_add_packet_accepts(data@, *packet, hash@, files_present@, views(known_unpacked@))
            && (existing_metadata matches Some(b) && b@ == vstd::utf8::encode_utf8(data@)) && (
        existing_location matches Some(le) && le.packet@ == packet.id@ && le.hash@ == hash@) ==> (r
            matches Ok(plan) && plan.metadata_path is None && plan.location_write is None),
        spec_add_packet_accepts(data@, *packet, hash@, files_present@, views(known_unpacked@))
            && (existing_metadata matches Some(b) && b@ != vstd::utf8::encode_utf8(data@)) ==> (r
            matches Err(e) && e.kind == Some(crate::responses::ErrorKind::AlreadyExists)),
{
    match crate::hash::validate_hash_data(data.as_bytes(), hash) {
        Ok(()) => {},
        Err(e) => {
            return Err(OutpackError::from_hash_error(e));
        },
    }
    match check_missing_files(packet, files_present) {
        Ok(()) => {},
        Err(e) => {
            return Err(e);
        },
    }
    match check_missing_dependencies(packet, known_unpacked) {
        Ok(()) => {},
        Err(e) => {
            return Err(e);
        },
    }
    let need_metadata_write = match crate::utils::write_idempotent_outcome(
        existing_metadata,
        data.as_bytes(),
    ) {
        Ok(w) => w,
        Err(e) => {
            return Err(e);
        },
    };
    let location_write = match crate::location::mark_packet_known(
        root,
        packet.id.as_str(),
        "local",
        hash,
        time,
        existing_location,
    ) {
        Ok(w) => w,
        Err(e) => {
            return Err(e);
        },
    };
    let metadata_path = if need_metadata_write {
        Some(get_path(root, packet.id.as_str()))
    } else {
        None
    };
    Ok(AddPacketPlan { metadata_path, location_write })
}

} // verus!
