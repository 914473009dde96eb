//! Character-level helpers shared by the whole crate: turning strings into
//! character vectors and back, and the lexicographic order on strings that
//! the id digest relies on.

use vstd::prelude::*;

verus! {

/// Lexicographic "less than or equal" over character sequences, ordering
/// characters by their scalar values.
pub open spec fn lex_leq(a: Seq<char>, b: Seq<char>) -> bool
    decreases a.len(),
{
    if a.len() == 0 {
        true
    } else if b.len() == 0 {
        false
    } else if (a[0] as int) < (b[0] as int) {
        true
    } else if (a[0] as int) > (b[0] as int) {
        false
    } else {
        lex_leq(a.drop_first(), b.drop_first())
    }
}

pub proof fn lemma_lex_leq_reflexive(a: Seq<char>)
    ensures
        lex_leq(a, a),
    decreases a.len(),
{
    if a.len() > 0 {
        lemma_lex_leq_reflexive(a.drop_first());
    }
}

pub proof fn lemma_lex_leq_antisymmetric(a: Seq<char>, b: Seq<char>)
    requires
        lex_leq(a, b),
        lex_leq(b, a),
    ensures
        a =~= b,
    decreases a.len(),
{
    if a.len() > 0 && b.len() > 0 {
        lemma_lex_leq_antisymmetric(a.drop_first(), b.drop_first());
        assert(a =~= seq![a[0]] + a.drop_first());
        assert(b =~= seq![b[0]] + b.drop_first());
    }
}

pub proof fn lemma_lex_leq_transitive(a: Seq<char>, b: Seq<char>, c: Seq<char>)
    requires
        lex_leq(a, b),
        lex_leq(b, c),
    ensures
        lex_leq(a, c),
    decreases a.len(),
{
    if a.len() > 0 && b.len() > 0 && c.len() > 0 {
        if a[0] == b[0] && b[0] == c[0] {
            lemma_lex_leq_transitive(a.drop_first(), b.drop_first(), c.drop_first());
        }
    }
}

pub proof fn lemma_lex_leq_connected(a: Seq<char>, b: Seq<char>)
    ensures
        lex_leq(a, b) || lex_leq(b, a),
    decreases a.len(),
{
    if a.len() > 0 && b.len() > 0 {
        lemma_lex_leq_connected(a.drop_first(), b.drop_first());
    }
}

/// The lexicographic order as a relation value, for `vstd::relations`.
pub open spec fn lex_leq_fn() -> spec_fn(Seq<char>, Seq<char>) -> bool {
    |x: Seq<char>, y: Seq<char>| lex_leq(x, y)
}

/// `lex_leq` is a total order, in the sense of `vstd::relations`.
pub proof fn lemma_lex_leq_total_ordering()
    ensures
        vstd::relations::total_ordering(lex_leq_fn()),
{
    let leq = lex_leq_fn();
    assert forall|x: Seq<char>| #[trigger] leq(x, x) by {
        lemma_lex_leq_reflexive(x);
    }
    assert forall|x: Seq<char>, y: Seq<char>| #[trigger] leq(x, y) && #[trigger] leq(y, x)
        implies x == y by {
        lemma_lex_leq_antisymmetric(x, y);
    }
    assert forall|x: Seq<char>, y: Seq<char>, z: Seq<char>|
        #[trigger] leq(x, y) && #[trigger] leq(y, z) implies leq(x, z) by {
        lemma_lex_leq_transitive(x, y, z);
    }
    assert forall|x: Seq<char>, y: Seq<char>| #[trigger] leq(x, y) || #[trigger] leq(y, x) by {
        lemma_lex_leq_connected(x, y);
    }
}

/// The characters of a string, one by one.
pub fn str_to_chars(s: &str) -> (r: Vec<char>)
    ensures
        r@ == s@,
{
    let n = s.unicode_len();
    let mut r: Vec<char> = Vec::new();
    for i in 0..n
        invariant
            n == s@.len(),
            r@ =~= s@.subrange(0, i as int),
    {
        r.push(s.get_char(i));
    }
    proof {
        assert(r@ =~= s@);
    }
    r
}

/// Relies on `core::iter::Iterator::collect` for `String`: collecting
/// characters yields the string made of exactly those characters, in order.
#[verifier::external_body]
pub fn chars_to_string(v: &Vec<char>) -> (r: String)
    ensures
        r@ == v@,
{
    v.iter().collect()
}

proof fn lemma_lex_leq_step(a: Seq<char>, b: Seq<char>, i: int)
    requires
        0 <= i < a.len(),
        i < b.len(),
        a[i] == b[i],
    ensures
        lex_leq(a.skip(i), b.skip(i)) == lex_leq(a.skip(i + 1), b.skip(i + 1)),
{
    assert(a.skip(i).drop_first() =~= a.skip(i + 1));
    assert(b.skip(i).drop_first() =~= b.skip(i + 1));
    assert(a.skip(i)[0] == a[i]);
    assert(b.skip(i)[0] == b[i]);
}

/// Whether `a` comes no later than `b` in lexicographic order.
pub fn str_leq(a: &str, b: &str) -> (r: bool)
    ensures
        r == lex_leq(a@, b@),
{
    let na = a.unicode_len();
    let nb = b.unicode_len();
    let mut i: usize = 0;
    proof {
        assert(a@.skip(0) =~= a@);
        assert(b@.skip(0) =~= b@);
    }
    loop
        invariant
            na == a@.len(),
            nb == b@.len(),
            i <= na,
            i <= nb,
            lex_leq(a@, b@) == lex_leq(a@.skip(i as int), b@.skip(i as int)),
        decreases na - i,
    {
        if i == na {
            proof {
                assert(a@.skip(i as int).len() == 0);
            }
            return true;
        }
        if i == nb {
            proof {
                assert(b@.skip(i as int).len() == 0);
                assert(a@.skip(i as int).len() > 0);
            }
            return false;
        }
        let ca = a.get_char(i);
        let cb = b.get_char(i);
        proof {
            assert(a@.skip(i as int)[0] == a@[i as int]);
            assert(b@.skip(i as int)[0] == b@[i as int]);
        }
        if (ca as u32) < (cb as u32) {
            return true;
        }
        if (ca as u32) > (cb as u32) {
            return false;
        }
        proof {
            lemma_lex_leq_step(a@, b@, i as int);
        }
        i = i + 1;
    }
}

/// `vs` joined with `sep` between consecutive elements.
pub open spec fn spec_join(vs: Seq<Seq<char>>, sep: Seq<char>) -> Seq<char>
    decreases vs.len(),
{
    if vs.len() == 0 {
        Seq::<char>::empty()
    } else if vs.len() == 1 {
        vs[0]
    } else {
        vs[0] + sep + spec_join(vs.drop_first(), sep)
    }
}

proof fn lemma_join_snoc(vs: Seq<Seq<char>>, x: Seq<char>, sep: Seq<char>)
    ensures
        vs.len() == 0 ==> spec_join(vs.push(x), sep) == x,
        vs.len() > 0 ==> spec_join(vs.push(x), sep) =~= spec_join(vs, sep) + sep + x,
    decreases vs.len(),
{
    if vs.len() == 0 {
        assert(spec_join(vs.push(x), sep) == vs.push(x)[0]);
    } else if vs.len() == 1 {
        assert(vs.push(x).drop_first() =~= seq![x]);
        assert(spec_join(vs.push(x), sep) == vs[0] + sep + spec_join(seq![x], sep));
    } else {
        lemma_join_snoc(vs.drop_first(), x, sep);
        assert(vs.push(x).drop_first() =~= vs.drop_first().push(x));
        assert(spec_join(vs.push(x), sep) == vs[0] + sep + spec_join(vs.drop_first().push(x), sep));
        assert(spec_join(vs, sep) == vs[0] + sep + spec_join(vs.drop_first(), sep));
        assert(spec_join(vs.push(x), sep) =~= (vs[0] + sep + spec_join(vs.drop_first(), sep)) + sep
            + x);
    }
}

/// Join strings with a separator.
pub fn join_strings(vs: &Vec<String>, sep: &str) -> (r: String)
    ensures
        r@ == spec_join(vs@.map_values(|s: String| s@), sep@),
{
    let ghost vw = vs@.map_values(|s: String| s@);
    let mut out = String::new();
    let n = vs.len();
    for i in 0..n
        invariant
            n == vs@.len(),
            vw == vs@.map_values(|s: String| s@),
            out@ == spec_join(vw.subrange(0, i as int), sep@),
    {
        if i > 0 {
            out.append(sep);
        }
        out.append(vs[i].as_str());
        proof {
            assert(vw.subrange(0, i + 1) =~= vw.subrange(0, i as int).push(vw[i as int]));
            assert(vw[i as int] == vs@[i as int]@);
            lemma_join_snoc(vw.subrange(0, i as int), vw[i as int], sep@);
        }
    }
    proof {
        assert(vw.subrange(0, n as int) =~= vw);
    }
    out
}

} // verus!
