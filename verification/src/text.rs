//! Verified text utilities: equality, code-point ordering, sorting of query
//! pairs, and query joining, used by URL canonicalization.

use vstd::prelude::*;
use vstd::multiset::Multiset;
use vstd::string::{StrSliceExecFns, StringExecFns};

verus! {

/// Strict lexicographic order on character sequences, by code point.
pub open spec fn chars_lt(a: Seq<char>, b: Seq<char>) -> bool
    decreases a.len(),
{
    if b.len() == 0 {
        false
    } else if a.len() == 0 {
        true
    } else if a[0] == b[0] {
        chars_lt(a.drop_first(), b.drop_first())
    } else {
        (a[0] as u32) < (b[0] as u32)
    }
}

/// Non-strict lexicographic order on character sequences.
pub open spec fn chars_le(a: Seq<char>, b: Seq<char>) -> bool {
    chars_lt(a, b) || a == b
}

/// Any two character sequences are ordered: one is below the other, or they
/// are equal.
pub proof fn lemma_chars_trichotomy(a: Seq<char>, b: Seq<char>)
    ensures
        chars_lt(a, b) || chars_lt(b, a) || a == b,
    decreases a.len(),
{
    if b.len() == 0 && a.len() == 0 {
        assert(a =~= b);
    } else if b.len() == 0 || a.len() == 0 {
    } else if a[0] == b[0] {
        lemma_chars_trichotomy(a.drop_first(), b.drop_first());
        if !chars_lt(a, b) && !chars_lt(b, a) {
            assert(a.drop_first() == b.drop_first());
            assert(a.len() == b.len());
            assert forall|i: int| 0 <= i < a.len() implies a[i] == b[i] by {
                if i > 0 {
                    assert(a[i] == a.drop_first()[i - 1]);
                    assert(b[i] == b.drop_first()[i - 1]);
                }
            }
            assert(a =~= b);
        }
    } else {
        if (a[0] as u32) == (b[0] as u32) {
            vstd::utf8::char_u32_cast(a[0], a[0] as u32);
            vstd::utf8::char_u32_cast(b[0], b[0] as u32);
            assert(a[0] == b[0]);
        }
    }
}

/// Text equality, decided character by character.
pub fn str_eq(a: &str, b: &str) -> (r: bool)
    ensures
        r == (a@ == b@),
{
    let alen = a.unicode_len();
    let blen = b.unicode_len();
    if alen != blen {
        return false;
    }
    let mut i: usize = 0;
    while i < alen
        invariant
            i <= alen,
            alen == a@.len(),
            alen == b@.len(),
            forall|k: int| 0 <= k < i ==> a@[k] == b@[k],
        decreases alen - i,
    {
        if a.get_char(i) != b.get_char(i) {
            return false;
        }
        i += 1;
    }
    proof {
        assert(a@ =~= b@);
    }
    true
}

/// Strict lexicographic comparison of text, by code point.
pub fn str_lt(a: &str, b: &str) -> (r: bool)
    ensures
        r == chars_lt(a@, b@),
{
    let alen = a.unicode_len();
    let blen = b.unicode_len();
    let mut i: usize = 0;
    proof {
        assert(a@.skip(0) =~= a@);
        assert(b@.skip(0) =~= b@);
    }
    loop
        invariant
            i <= alen,
            i <= blen,
            alen == a@.len(),
            blen == b@.len(),
            chars_lt(a@, b@) == chars_lt(a@.skip(i as int), b@.skip(i as int)),
        decreases alen - i,
    {
        if i == blen {
            return false;
        }
        if i == alen {
            return true;
        }
        let ca = a.get_char(i);
        let cb = b.get_char(i);
        if ca != cb {
            return (ca as u32) < (cb as u32);
        }
        proof {
            assert(a@.skip(i as int).drop_first() =~= a@.skip(i + 1));
            assert(b@.skip(i as int).drop_first() =~= b@.skip(i + 1));
        }
        i += 1;
    }
}

/// Order on decoded query pairs, by key text then value text.
pub open spec fn vpair_le(a: (Seq<char>, Seq<char>), b: (Seq<char>, Seq<char>)) -> bool {
    if a.0 == b.0 {
        chars_le(a.1, b.1)
    } else {
        chars_lt(a.0, b.0)
    }
}

/// The texts of a list of query pairs.
pub open spec fn views_of(s: Seq<(String, String)>) -> Seq<(Seq<char>, Seq<char>)> {
    s.map_values(|p: (String, String)| (p.0@, p.1@))
}

/// Order on query pairs: by key, then by value.
pub open spec fn pair_le(p: (String, String), q: (String, String)) -> bool {
    vpair_le((p.0@, p.1@), (q.0@, q.1@))
}

/// A pair inserted into a run: after every leading pair at or below it.
pub open spec fn insert_sorted(
    s: Seq<(Seq<char>, Seq<char>)>,
    x: (Seq<char>, Seq<char>),
) -> Seq<(Seq<char>, Seq<char>)>
    decreases s.len(),
{
    if s.len() == 0 {
        seq![x]
    } else if vpair_le(s[0], x) {
        seq![s[0]] + insert_sorted(s.drop_first(), x)
    } else {
        seq![x] + s
    }
}

/// The sorted form of the pairs: each pair inserted into the sorted rest.
pub open spec fn sorted_pairs_of(s: Seq<(Seq<char>, Seq<char>)>) -> Seq<(Seq<char>, Seq<char>)>
    decreases s.len(),
{
    if s.len() == 0 {
        s
    } else {
        insert_sorted(sorted_pairs_of(s.drop_first()), s[0])
    }
}

/// Inserting right before the first pair above `x` is `insert_sorted`.
proof fn lemma_insert_sorted_at(s: Seq<(Seq<char>, Seq<char>)>, x: (Seq<char>, Seq<char>), j: int)
    requires
        0 <= j <= s.len(),
        forall|m: int| 0 <= m < j ==> vpair_le(#[trigger] s[m], x),
        j < s.len() ==> !vpair_le(s[j], x),
    ensures
        insert_sorted(s, x) == s.insert(j, x),
    decreases j,
{
    if s.len() == 0 {
        assert(insert_sorted(s, x) =~= s.insert(0, x));
    } else if j == 0 {
        assert(!vpair_le(s[0], x));
        assert(insert_sorted(s, x) =~= s.insert(0, x));
    } else {
        assert(vpair_le(s[0], x));
        let rest = s.drop_first();
        assert forall|m: int| 0 <= m < j - 1 implies vpair_le(#[trigger] rest[m], x) by {
            assert(rest[m] == s[m + 1]);
        }
        if j - 1 < rest.len() {
            assert(rest[j - 1] == s[j]);
        }
        lemma_insert_sorted_at(rest, x, j - 1);
        assert(insert_sorted(s, x) == seq![s[0]] + rest.insert(j - 1, x));
        rest.insert_ensures(j - 1, x);
        s.insert_ensures(j, x);
        assert(seq![s[0]] + rest.insert(j - 1, x) =~= s.insert(j, x));
    }
}

/// Taking the texts commutes with inserting a pair.
proof fn lemma_views_of_insert(s: Seq<(String, String)>, j: int, x: (String, String))
    requires
        0 <= j <= s.len(),
    ensures
        views_of(s.insert(j, x)) == views_of(s).insert(j, (x.0@, x.1@)),
    decreases s.len(),
{
    s.insert_ensures(j, x);
    views_of(s).insert_ensures(j, (x.0@, x.1@));
    assert(views_of(s.insert(j, x)) =~= views_of(s).insert(j, (x.0@, x.1@)));
}

/// The pair order is total.
pub proof fn lemma_pair_le_total(p: (String, String), q: (String, String))
    ensures
        pair_le(p, q) || pair_le(q, p),
{
    if p.0@ == q.0@ {
        lemma_chars_trichotomy(p.1@, q.1@);
    } else {
        lemma_chars_trichotomy(p.0@, q.0@);
    }
}

/// Decide the pair order.
pub fn pair_le_exec(p: &(String, String), q: &(String, String)) -> (r: bool)
    ensures
        r == pair_le(*p, *q),
{
    if str_eq(p.0.as_str(), q.0.as_str()) {
        if str_eq(p.1.as_str(), q.1.as_str()) {
            true
        } else {
            str_lt(p.1.as_str(), q.1.as_str())
        }
    } else {
        str_lt(p.0.as_str(), q.0.as_str())
    }
}

/// Adjacent pairs stand in order.
pub open spec fn pairs_sorted(s: Seq<(String, String)>) -> bool {
    forall|i: int| 0 <= i && i + 1 < s.len() ==> #[trigger] pair_le(s[i], s[i + 1])
}

/// Inserting at a position keeps the multiset of elements, plus the new one.
proof fn lemma_insert_to_multiset<A>(s: Seq<A>, j: int, x: A)
    requires
        0 <= j <= s.len(),
    ensures
        s.insert(j, x).to_multiset() == s.to_multiset().insert(x),
{
    broadcast use vstd::seq_lib::group_to_multiset_ensures;

    let t = s.insert(j, x);
    assert(t.remove(j) =~= s);
    assert(t[j] == x);
    assert(s.to_multiset() =~= t.to_multiset().remove(x));
    assert(t.contains(x));
    assert(t.to_multiset().count(x) > 0);
    assert forall|a: A| t.to_multiset().count(a) == s.to_multiset().insert(x).count(
        a,
    ) by {
        if a == x {
            assert(s.to_multiset().count(x) == t.to_multiset().count(x) - 1);
        } else {
            assert(s.to_multiset().count(a) == t.to_multiset().count(a));
        }
    }
    assert(t.to_multiset() =~= s.to_multiset().insert(x));
}

/// Sort query pairs by key, then value. The result holds exactly the given
/// pairs, in order; its texts are the sorted form of the given texts.
pub fn sort_pairs(v: Vec<(String, String)>) -> (r: Vec<(String, String)>)
    ensures
        pairs_sorted(r@),
        r@.to_multiset() == v@.to_multiset(),
        views_of(r@) == sorted_pairs_of(views_of(v@)),
{
    broadcast use vstd::seq_lib::group_to_multiset_ensures;

    let mut rest = v;
    let mut out: Vec<(String, String)> = Vec::new();
    proof {
        assert(out@.to_multiset().add(rest@.to_multiset()) =~= v@.to_multiset());
        assert(rest@ =~= v@.subrange(0, rest@.len() as int));
        assert(views_of(v@).subrange(rest@.len() as int, views_of(v@).len() as int)
            =~= Seq::<(Seq<char>, Seq<char>)>::empty());
        assert(views_of(out@) =~= Seq::<(Seq<char>, Seq<char>)>::empty());
    }
    while rest.len() > 0
        invariant
            pairs_sorted(out@),
            out@.to_multiset().add(rest@.to_multiset()) == v@.to_multiset(),
            rest@.len() <= v@.len(),
            rest@ == v@.subrange(0, rest@.len() as int),
            views_of(out@) == sorted_pairs_of(
                views_of(v@).subrange(rest@.len() as int, views_of(v@).len() as int),
            ),
        decreases rest.len(),
    {
        let ghost rest0 = rest@;
        let x = rest.pop().unwrap();
        proof {
            assert(rest0 =~= rest@.push(x));
            rest@.to_multiset_ensures();
            assert(rest@.push(x).to_multiset() =~= rest@.to_multiset().insert(x));
            assert(rest0.to_multiset() == rest@.to_multiset().insert(x));
            assert(rest0 == v@.subrange(0, rest0.len() as int));
            assert forall|m: int| 0 <= m < rest0.len() implies rest0[m] == v@[m] by {
                assert(rest0[m] == v@.subrange(0, rest0.len() as int)[m]);
            }
            assert(rest@ =~= v@.subrange(0, rest@.len() as int));
            assert(x == rest0[rest0.len() - 1]);
            assert(x == v@[rest@.len() as int]);
        }
        let mut j: usize = 0;
        while j < out.len() && pair_le_exec(&out[j], &x)
            invariant
                j <= out@.len(),
                forall|k: int| 0 <= k < j ==> #[trigger] pair_le(out@[k], x),
            decreases out@.len() - j,
        {
            j += 1;
        }
        proof {
            if j < out@.len() {
                lemma_pair_le_total(out@[j as int], x);
                assert(pair_le(x, out@[j as int]));
            }
        }
        let ghost out0 = out@;
        out.insert(j, x);
        proof {
            lemma_insert_to_multiset(out0, j as int, x);
            out0.insert_ensures(j as int, x);
            // the texts of the new run are the sorted form one pair further in
            let xv = (x.0@, x.1@);
            assert forall|m: int| 0 <= m < j implies vpair_le(
                #[trigger] views_of(out0)[m],
                xv,
            ) by {
                assert(pair_le(out0[m], x));
                assert(views_of(out0)[m] == (out0[m].0@, out0[m].1@));
            }
            if j < out0.len() {
                assert(!pair_le(out0[j as int], x));
                assert(views_of(out0)[j as int] == (out0[j as int].0@, out0[j as int].1@));
                assert(!vpair_le(views_of(out0)[j as int], xv));
            }
            lemma_insert_sorted_at(views_of(out0), xv, j as int);
            lemma_views_of_insert(out0, j as int, x);
            assert(views_of(out@) == insert_sorted(views_of(out0), xv));
            let k = rest@.len() as int;
            let vs = views_of(v@);
            let tail = vs.subrange(k, vs.len() as int);
            assert(tail[0] == xv) by {
                assert(vs[k] == (v@[k].0@, v@[k].1@));
            }
            assert(tail.drop_first() =~= vs.subrange(k + 1, vs.len() as int));
            assert(views_of(out0) == sorted_pairs_of(tail.drop_first())) by {
                assert(rest0.len() as int == k + 1);
            }
            assert(sorted_pairs_of(tail) == insert_sorted(sorted_pairs_of(tail.drop_first()), xv));
            assert(views_of(out@) == sorted_pairs_of(tail));
            let t = out@;
            assert forall|i: int| 0 <= i && i + 1 < t.len() implies #[trigger] pair_le(
                t[i],
                t[i + 1],
            ) by {
                if i + 1 < j {
                    assert(t[i] == out0[i] && t[i + 1] == out0[i + 1]);
                    assert(pair_le(out0[i], out0[i + 1]));
                } else if i + 1 == j {
                    assert(t[i] == out0[i] && t[i + 1] == x);
                } else if i == j {
                    assert(t[i] == x && t[i + 1] == out0[i]);
                } else {
                    let k = i - 1;
                    assert(t[i] == out0[k] && t[i + 1] == out0[k + 1]);
                    assert(pair_le(out0[k], out0[k + 1]));
                }
            }
            assert(out@.to_multiset().add(rest@.to_multiset()) =~= v@.to_multiset());
        }
    }
    proof {
        assert(rest@ =~= Seq::<(String, String)>::empty());
        assert(rest@.to_multiset() =~= Multiset::<(String, String)>::empty());
        assert(out@.to_multiset() =~= v@.to_multiset());
        assert(views_of(v@).subrange(0, views_of(v@).len() as int) =~= views_of(v@));
    }
    out
}

/// The text of query pairs joined as `k=v` separated by `&`. The pairs are
/// joined as decoded text; what escaping the serialization then applies is
/// the URL writer's concern.
pub open spec fn joined_query(s: Seq<(Seq<char>, Seq<char>)>) -> Seq<char>
    decreases s.len(),
{
    if s.len() == 0 {
        Seq::empty()
    } else if s.len() == 1 {
        s[0].0 + "="@ + s[0].1
    } else {
        joined_query(s.drop_last()) + "&"@ + s.last().0 + "="@ + s.last().1
    }
}

/// Join query pairs as `k=v` separated by `&`.
pub fn join_query(pairs: &Vec<(String, String)>) -> (r: String)
    ensures
        r@ == joined_query(views_of(pairs@)),
{
    let mut out = String::new();
    let mut i: usize = 0;
    proof {
        assert(views_of(pairs@).subrange(0, 0) =~= Seq::<(Seq<char>, Seq<char>)>::empty());
    }
    while i < pairs.len()
        invariant
            i <= pairs@.len(),
            out@ == joined_query(views_of(pairs@).subrange(0, i as int)),
        decreases pairs@.len() - i,
    {
        if i > 0 {
            out.append("&");
        }
        out.append(pairs[i].0.as_str());
        out.append("=");
        out.append(pairs[i].1.as_str());
        proof {
            let vs = views_of(pairs@);
            let pre = vs.subrange(0, i as int);
            let cur = vs.subrange(0, i + 1);
            assert(cur.drop_last() =~= pre);
            assert(cur.last() == vs[i as int]);
            assert(vs[i as int] == (pairs@[i as int].0@, pairs@[i as int].1@));
            if i == 0 {
                assert(out@ == joined_query(cur));
            }
        }
        i += 1;
    }
    proof {
        let vs = views_of(pairs@);
        assert(vs.subrange(0, vs.len() as int) =~= vs);
    }
    out
}

} // verus!
