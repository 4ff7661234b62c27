//! Bidirectional machine-name table: a one-to-one pairing of machine names
//! and endpoint identities, rebuilt from the names directory records carry
//! and the names registered explicitly (which win).
use vstd::prelude::*;

use crate::directory::entry::{EndpointBytes, EntryView, TopicEntry};
use crate::directory::order::{
    bytes_lt, char_seq_lt, compare_bytes, compare_chars, lemma_bytes_lt_asymmetric,
    lemma_bytes_lt_irreflexive, lemma_bytes_lt_total, lemma_bytes_lt_transitive,
    lemma_char_seq_lt_asymmetric, lemma_char_seq_lt_irreflexive, lemma_char_seq_lt_total,
    lemma_char_seq_lt_transitive,
};
use crate::directory::store::entry_views;
use crate::text::{bytes_eq, chars_of, str_eq};

verus! {

/// A machine name and an endpoint identity, as values.
pub type NamePair = (Seq<char>, Seq<u8>);

/// A stored pair by its values.
pub open spec fn pair_view(p: (String, EndpointBytes)) -> NamePair {
    (p.0@, p.1@)
}

/// Stored pairs by their values.
pub open spec fn pair_views(s: Seq<(String, EndpointBytes)>) -> Seq<NamePair> {
    s.map_values(|p: (String, EndpointBytes)| pair_view(p))
}

/// The pairing after giving `name` to `id`: any earlier pairing of `name`,
/// and any earlier pairing of `id`, gives way.
pub open spec fn assign(m: Map<Seq<char>, Seq<u8>>, name: Seq<char>, id: Seq<u8>) -> Map<
    Seq<char>,
    Seq<u8>,
> {
    Map::new(|k: Seq<char>| m.contains_key(k) && k != name && m[k] != id, |k: Seq<char>| m[k]).insert(
        name,
        id,
    )
}

/// The pairing after giving each pair of `pairs` in turn.
pub open spec fn assign_all(m: Map<Seq<char>, Seq<u8>>, pairs: Seq<NamePair>) -> Map<
    Seq<char>,
    Seq<u8>,
>
    decreases pairs.len(),
{
    if pairs.len() == 0 {
        m
    } else {
        assign(assign_all(m, pairs.drop_last()), pairs.last().0, pairs.last().1)
    }
}

/// The pairing rebuilt from record-carried pairs, then explicit ones.
pub open spec fn rebuilt(supports: Seq<NamePair>, explicit: Seq<NamePair>) -> Map<Seq<char>, Seq<u8>> {
    assign_all(assign_all(Map::empty(), supports), explicit)
}

/// No endpoint is paired with two names.
pub open spec fn injective(m: Map<Seq<char>, Seq<u8>>) -> bool {
    forall|a: Seq<char>, b: Seq<char>|
        #![trigger m[a], m[b]]
        m.contains_key(a) && m.contains_key(b) && a != b ==> m[a] != m[b]
}

/// The pairing a sequence of pairs lists.
pub open spec fn pairs_map(s: Seq<NamePair>) -> Map<Seq<char>, Seq<u8>>
    decreases s.len(),
{
    if s.len() == 0 {
        Map::empty()
    } else {
        pairs_map(s.drop_last()).insert(s.last().0, s.last().1)
    }
}

/// No name occurs twice.
pub open spec fn distinct_names(s: Seq<NamePair>) -> bool {
    forall|i: int, j: int| 0 <= i < j < s.len() ==> #[trigger] s[i].0 != #[trigger] s[j].0
}

/// No endpoint occurs twice.
pub open spec fn distinct_ids(s: Seq<NamePair>) -> bool {
    forall|i: int, j: int| 0 <= i < j < s.len() ==> #[trigger] s[i].1 != #[trigger] s[j].1
}

/// Pairs strictly ordered by name.
pub open spec fn sorted_by_name(s: Seq<NamePair>) -> bool {
    forall|i: int, j: int| 0 <= i < j < s.len() ==> char_seq_lt(#[trigger] s[i].0, #[trigger] s[j].0)
}

/// Order of pairs: by name, then by endpoint bytes.
pub open spec fn pair_lt(a: NamePair, b: NamePair) -> bool {
    char_seq_lt(a.0, b.0) || (a.0 == b.0 && bytes_lt(a.1, b.1))
}

/// Pairs strictly ordered by [`pair_lt`] (so none occurs twice).
pub open spec fn sorted_pairs(s: Seq<NamePair>) -> bool {
    forall|i: int, j: int| 0 <= i < j < s.len() ==> pair_lt(#[trigger] s[i], #[trigger] s[j])
}

/// Whether some record of `es` carries machine name `p.0` and owner `p.1`.
pub open spec fn carried_by(es: Seq<EntryView>, p: NamePair) -> bool {
    exists|j: int|
        0 <= j < es.len() && (#[trigger] es[j]).body.machine_name == Some(p.0) && es[j].body.owner
            == p.1
}

proof fn lemma_pair_order()
    ensures
        forall|a: NamePair| !#[trigger] pair_lt(a, a),
        forall|a: NamePair, b: NamePair| #[trigger] pair_lt(a, b) ==> !pair_lt(b, a),
        forall|a: NamePair, b: NamePair, c: NamePair| #[trigger] pair_lt(a, b) && #[trigger] pair_lt(
            b,
            c,
        ) ==> pair_lt(a, c),
        forall|a: NamePair, b: NamePair| a == b || #[trigger] pair_lt(a, b) || pair_lt(b, a),
{
    assert forall|a: NamePair| !#[trigger] pair_lt(a, a) by {
        lemma_char_seq_lt_irreflexive(a.0);
        lemma_bytes_lt_irreflexive(a.1);
    }
    assert forall|a: NamePair, b: NamePair| #[trigger] pair_lt(a, b) implies !pair_lt(b, a) by {
        lemma_char_seq_lt_asymmetric(a.0, b.0);
        lemma_char_seq_lt_irreflexive(a.0);
        lemma_bytes_lt_asymmetric(a.1, b.1);
    }
    assert forall|a: NamePair, b: NamePair, c: NamePair| #[trigger] pair_lt(a, b)
        && #[trigger] pair_lt(b, c) implies pair_lt(a, c) by {
        if char_seq_lt(a.0, b.0) && char_seq_lt(b.0, c.0) {
            lemma_char_seq_lt_transitive(a.0, b.0, c.0);
        }
        if bytes_lt(a.1, b.1) && bytes_lt(b.1, c.1) {
            lemma_bytes_lt_transitive(a.1, b.1, c.1);
        }
    }
    assert forall|a: NamePair, b: NamePair| a == b || #[trigger] pair_lt(a, b) || pair_lt(b, a) by {
        lemma_char_seq_lt_total(a.0, b.0);
        lemma_bytes_lt_total(a.1, b.1);
    }
}

proof fn lemma_name_order()
    ensures
        forall|a: Seq<char>| !#[trigger] char_seq_lt(a, a),
        forall|a: Seq<char>, b: Seq<char>| #[trigger] char_seq_lt(a, b) ==> !char_seq_lt(b, a),
        forall|a: Seq<char>, b: Seq<char>, c: Seq<char>| #[trigger] char_seq_lt(a, b)
            && #[trigger] char_seq_lt(b, c) ==> char_seq_lt(a, c),
        forall|a: Seq<char>, b: Seq<char>| a == b || #[trigger] char_seq_lt(a, b) || char_seq_lt(
            b,
            a,
        ),
{
    assert forall|a: Seq<char>| !#[trigger] char_seq_lt(a, a) by {
        lemma_char_seq_lt_irreflexive(a);
    }
    assert forall|a: Seq<char>, b: Seq<char>| #[trigger] char_seq_lt(a, b) implies !char_seq_lt(
        b,
        a,
    ) by {
        lemma_char_seq_lt_asymmetric(a, b);
    }
    assert forall|a: Seq<char>, b: Seq<char>, c: Seq<char>| #[trigger] char_seq_lt(a, b)
        && #[trigger] char_seq_lt(b, c) implies char_seq_lt(a, c) by {
        lemma_char_seq_lt_transitive(a, b, c);
    }
    assert forall|a: Seq<char>, b: Seq<char>| a == b || #[trigger] char_seq_lt(a, b)
        || char_seq_lt(b, a) by {
        lemma_char_seq_lt_total(a, b);
    }
}

/// What a sequence with distinct names lists.
proof fn lemma_pairs_map(s: Seq<NamePair>)
    requires
        distinct_names(s),
    ensures
        forall|i: int| #![trigger s[i]]
            0 <= i < s.len() ==> pairs_map(s).contains_key(s[i].0) && pairs_map(s)[s[i].0] == s[i].1,
        forall|k: Seq<char>| #[trigger]
            pairs_map(s).contains_key(k) ==> exists|i: int| 0 <= i < s.len() && s[i].0 == k,
    decreases s.len(),
{
    if s.len() > 0 {
        let d = s.drop_last();
        assert(distinct_names(d)) by {
            assert forall|i: int, j: int| 0 <= i < j < d.len() implies #[trigger] d[i].0
                != #[trigger] d[j].0 by {
                assert(d[i] == s[i] && d[j] == s[j]);
            }
        }
        lemma_pairs_map(d);
        assert forall|i: int| #![trigger s[i]] 0 <= i < s.len() implies pairs_map(s).contains_key(
            s[i].0,
        ) && pairs_map(s)[s[i].0] == s[i].1 by {
            if i < s.len() - 1 {
                assert(d[i] == s[i]);
                assert(s[i].0 != s[s.len() - 1].0);
            }
        }
        assert forall|k: Seq<char>| #[trigger] pairs_map(s).contains_key(k) implies exists|i: int|
            0 <= i < s.len() && s[i].0 == k by {
            if k == s.last().0 {
                assert(s[s.len() - 1].0 == k);
            } else {
                assert(pairs_map(d).contains_key(k));
                let i = choose|i: int| 0 <= i < d.len() && d[i].0 == k;
                assert(d[i] == s[i]);
            }
        }
    }
}

/// Giving a name keeps a pairing injective.
pub proof fn lemma_assign_injective(m: Map<Seq<char>, Seq<u8>>, name: Seq<char>, id: Seq<u8>)
    requires
        injective(m),
    ensures
        injective(assign(m, name, id)),
        assign(m, name, id).contains_key(name),
        assign(m, name, id)[name] == id,
{
    let r = assign(m, name, id);
    assert forall|a: Seq<char>, b: Seq<char>|
        #![trigger r[a], r[b]]
        r.contains_key(a) && r.contains_key(b) && a != b implies r[a] != r[b] by {
        if a != name && b != name {
            assert(m[a] != m[b]);
        }
    }
}

/// Giving names in turn keeps a pairing injective.
pub proof fn lemma_assign_all_injective(m: Map<Seq<char>, Seq<u8>>, pairs: Seq<NamePair>)
    requires
        injective(m),
    ensures
        injective(assign_all(m, pairs)),
    decreases pairs.len(),
{
    if pairs.len() > 0 {
        lemma_assign_all_injective(m, pairs.drop_last());
        lemma_assign_injective(assign_all(m, pairs.drop_last()), pairs.last().0, pairs.last().1);
    }
}

/// Pairs given in turn, no two sharing a name or an endpoint, all hold
/// afterwards.
pub proof fn lemma_assign_all_keeps(m: Map<Seq<char>, Seq<u8>>, pairs: Seq<NamePair>)
    requires
        distinct_names(pairs),
        distinct_ids(pairs),
    ensures
        forall|i: int| #![trigger pairs[i]]
            0 <= i < pairs.len() ==> assign_all(m, pairs).contains_key(pairs[i].0) && assign_all(
                m,
                pairs,
            )[pairs[i].0] == pairs[i].1,
    decreases pairs.len(),
{
    if pairs.len() > 0 {
        let d = pairs.drop_last();
        assert(distinct_names(d) && distinct_ids(d)) by {
            assert forall|i: int, j: int| 0 <= i < j < d.len() implies #[trigger] d[i].0
                != #[trigger] d[j].0 by {
                assert(d[i] == pairs[i] && d[j] == pairs[j]);
            }
            assert forall|i: int, j: int| 0 <= i < j < d.len() implies #[trigger] d[i].1
                != #[trigger] d[j].1 by {
                assert(d[i] == pairs[i] && d[j] == pairs[j]);
            }
        }
        lemma_assign_all_keeps(m, d);
        assert forall|i: int| #![trigger pairs[i]] 0 <= i < pairs.len() implies assign_all(
            m,
            pairs,
        ).contains_key(pairs[i].0) && assign_all(m, pairs)[pairs[i].0] == pairs[i].1 by {
            if i < pairs.len() - 1 {
                assert(d[i] == pairs[i]);
                let l = pairs.len() - 1;
                assert(pairs[i].0 != pairs[l].0);
                assert(pairs[i].1 != pairs[l].1);
            }
        }
    }
}

/// A listing, without repeated names, of exactly the pairs of `s` that
/// share neither `name` nor `id`, plus `(name, id)`, lists the pairing after
/// giving `name` to `id`.
proof fn lemma_assign_listing(s: Seq<NamePair>, t: Seq<NamePair>, name: Seq<char>, id: Seq<u8>)
    requires
        distinct_names(s),
        distinct_names(t),
        forall|p: NamePair| #[trigger] t.contains(p) <==> (p == (name, id) || (s.contains(p)
            && p.0 != name && p.1 != id)),
    ensures
        pairs_map(t) == assign(pairs_map(s), name, id),
{
    lemma_pairs_map(s);
    lemma_pairs_map(t);
    let m = pairs_map(s);
    let r = assign(m, name, id);
    assert(t.contains((name, id)));
    assert forall|k: Seq<char>| #[trigger] pairs_map(t).contains_key(k) <==> r.contains_key(k) by {
        if pairs_map(t).contains_key(k) && k != name {
            let i = choose|i: int| 0 <= i < t.len() && t[i].0 == k;
            assert(t.contains(t[i]));
            let j = choose|j: int| 0 <= j < s.len() && s[j] == t[i];
            assert(s[j].0 == k);
        }
        if r.contains_key(k) && k != name {
            let j = choose|j: int| 0 <= j < s.len() && s[j].0 == k;
            assert(s.contains(s[j]));
            assert(t.contains(s[j]));
            let i = choose|i: int| 0 <= i < t.len() && t[i] == s[j];
            assert(t[i].0 == k);
        }
        if k == name {
            let i = choose|i: int| 0 <= i < t.len() && t[i] == (name, id);
            assert(t[i].0 == name);
        }
    }
    assert forall|k: Seq<char>| #[trigger] pairs_map(t).contains_key(k) implies pairs_map(t)[k]
        == r[k] by {
        let i = choose|i: int| 0 <= i < t.len() && t[i].0 == k;
        assert(t.contains(t[i]));
        if k != name {
            let j = choose|j: int| 0 <= j < s.len() && s[j] == t[i];
            assert(s[j] == s[j]);
        } else {
            let q = choose|q: int| 0 <= q < t.len() && t[q] == (name, id);
            assert(t[q].0 == k);
            if q != i {
                if q < i {
                    assert(t[q].0 != t[i].0);
                } else {
                    assert(t[i].0 != t[q].0);
                }
            }
        }
    }
    assert(pairs_map(t) =~= r);
}

/// A copy of a stored pair.
fn copy_pair(p: &(String, EndpointBytes)) -> (r: (String, EndpointBytes))
    ensures
        pair_view(r) == pair_view(*p),
{
    (p.0.clone(), p.1)
}

/// The pairs of `pairs` that share neither `name` nor `id`, in order, then
/// `(name, id)`.
fn assigned_pairs(pairs: &Vec<(String, EndpointBytes)>, name: &str, id: EndpointBytes) -> (r: Vec<
    (String, EndpointBytes),
>)
    requires
        distinct_names(pair_views(pairs@)),
        distinct_ids(pair_views(pairs@)),
    ensures
        distinct_names(pair_views(r@)),
        distinct_ids(pair_views(r@)),
        pairs_map(pair_views(r@)) == assign(pairs_map(pair_views(pairs@)), name@, id@),
{
    let ghost s = pair_views(pairs@);
    let mut out: Vec<(String, EndpointBytes)> = Vec::new();
    let mut i: usize = 0;
    while i < pairs.len()
        invariant
            i <= pairs@.len(),
            s == pair_views(pairs@),
            distinct_names(s),
            distinct_ids(s),
            distinct_names(pair_views(out@)),
            distinct_ids(pair_views(out@)),
            forall|p: NamePair| #[trigger] pair_views(out@).contains(p) <==> (s.take(
                i as int,
            ).contains(p) && p.0 != name@ && p.1 != id@),
        decreases pairs@.len() - i,
    {
        let p = copy_pair(&pairs[i]);
        assert(s[i as int] == pair_view(pairs@[i as int]));
        let keep = !str_eq(p.0.as_str(), name) && !bytes_eq(&p.1, &id);
        let ghost before = pair_views(out@);
        if keep {
            out.push(p);
            assert(pair_views(out@) =~= before.push(s[i as int]));
        } else {
            assert(pair_views(out@) =~= before);
        }
        proof {
            let now = pair_views(out@);
            let t1 = s.take(i + 1);
            let t0 = s.take(i as int);
            assert(t1 =~= t0.push(s[i as int]));
            assert forall|x: NamePair| #[trigger] now.contains(x) <==> (t1.contains(x)
                && x.0 != name@ && x.1 != id@) by {
                if t1.contains(x) && x.0 != name@ && x.1 != id@ {
                    let j = choose|j: int| 0 <= j < t1.len() && #[trigger] t1[j] == x;
                    if j < i {
                        assert(t0[j] == x);
                        assert(t0.contains(x));
                        assert(before.contains(x));
                        let q = choose|q: int| 0 <= q < before.len() && before[q] == x;
                        assert(now[q] == x);
                    } else {
                        assert(now[now.len() - 1] == x);
                    }
                }
                if now.contains(x) {
                    let q = choose|q: int| 0 <= q < now.len() && now[q] == x;
                    if q < before.len() {
                        assert(before[q] == x);
                        assert(before.contains(x));
                        let j = choose|j: int| 0 <= j < t0.len() && #[trigger] t0[j] == x;
                        assert(t1[j] == x);
                    } else {
                        assert(t1[i as int] == x);
                    }
                }
            }
            assert forall|a: int, b: int| 0 <= a < b < now.len() implies #[trigger] now[a].0
                != #[trigger] now[b].0 by {
                if b == before.len() && keep {
                    assert(now[a] == before[a]);
                    assert(before.contains(before[a]));
                    let j = choose|j: int| 0 <= j < t0.len() && #[trigger] t0[j] == before[a];
                    assert(s[j] == before[a]);
                    assert(s[j].0 != s[i as int].0);
                } else {
                    assert(now[a] == before[a] && now[b] == before[b]);
                }
            }
            assert forall|a: int, b: int| 0 <= a < b < now.len() implies #[trigger] now[a].1
                != #[trigger] now[b].1 by {
                if b == before.len() && keep {
                    assert(now[a] == before[a]);
                    assert(before.contains(before[a]));
                    let j = choose|j: int| 0 <= j < t0.len() && #[trigger] t0[j] == before[a];
                    assert(s[j] == before[a]);
                    assert(s[j].1 != s[i as int].1);
                } else {
                    assert(now[a] == before[a] && now[b] == before[b]);
                }
            }
        }
        i = i + 1;
    }
    let ghost before = pair_views(out@);
    out.push((String::from_str(name), id));
    proof {
        let t = pair_views(out@);
        assert(s.take(s.len() as int) =~= s);
        assert(t.drop_last() =~= before);
        assert(t.last() == (name@, id@));
        assert forall|x: NamePair| #[trigger] t.contains(x) <==> (x == (name@, id@) || (s.contains(x)
            && x.0 != name@ && x.1 != id@)) by {
            if t.contains(x) {
                let q = choose|q: int| 0 <= q < t.len() && t[q] == x;
                if q < t.len() - 1 {
                    assert(before[q] == x);
                    assert(before.contains(x));
                }
            }
            if x == (name@, id@) {
                assert(t[t.len() - 1] == x);
            } else if s.contains(x) && x.0 != name@ && x.1 != id@ {
                assert(before.contains(x));
                let q = choose|q: int| 0 <= q < before.len() && before[q] == x;
                assert(t[q] == x);
            }
        }
        assert forall|a: int, b: int| 0 <= a < b < t.len() implies #[trigger] t[a].0
            != #[trigger] t[b].0 by {
            if b == t.len() - 1 {
                assert(t[a] == before[a]);
                assert(before.contains(before[a]));
                assert(before[a].0 != name@ && before[a].1 != id@);
                assert(t[b] == (name@, id@));
            } else {
                assert(t[a] == before[a] && t[b] == before[b]);
            }
        }
        assert forall|a: int, b: int| 0 <= a < b < t.len() implies #[trigger] t[a].1
            != #[trigger] t[b].1 by {
            if b == t.len() - 1 {
                assert(t[a] == before[a]);
                assert(before.contains(before[a]));
                assert(before[a].0 != name@ && before[a].1 != id@);
                assert(t[b] == (name@, id@));
            } else {
                assert(t[a] == before[a] && t[b] == before[b]);
            }
        }
        lemma_assign_listing(s, t, name@, id@);
    }
    out
}

/// Sorted by name implies no name repeats.
proof fn lemma_sorted_distinct(s: Seq<NamePair>)
    requires
        sorted_by_name(s),
    ensures
        distinct_names(s),
{
    lemma_name_order();
    assert forall|i: int, j: int| 0 <= i < j < s.len() implies #[trigger] s[i].0 != #[trigger] s[j].0 by {
        assert(char_seq_lt(s[i].0, s[j].0));
    }
}

/// `explicit` without the pairs that share `name` or `id`, with
/// `(name, id)` added, kept in name order.
fn explicit_with(explicit: &Vec<(String, EndpointBytes)>, name: &str, id: EndpointBytes) -> (r: Vec<
    (String, EndpointBytes),
>)
    requires
        sorted_by_name(pair_views(explicit@)),
        distinct_ids(pair_views(explicit@)),
    ensures
        sorted_by_name(pair_views(r@)),
        distinct_ids(pair_views(r@)),
        forall|p: NamePair| #[trigger] pair_views(r@).contains(p) <==> (p == (name@, id@) || (
        pair_views(explicit@).contains(p) && p.0 != name@ && p.1 != id@)),
{
    proof {
        lemma_name_order();
    }
    let ghost s = pair_views(explicit@);
    let ghost np = (name@, id@);
    let name_chars = chars_of(name);
    let mut out: Vec<(String, EndpointBytes)> = Vec::new();
    let mut placed = false;
    let mut i: usize = 0;
    while i < explicit.len()
        invariant
            i <= explicit@.len(),
            s == pair_views(explicit@),
            np == (name@, id@),
            name_chars@ == name@,
            sorted_by_name(s),
            distinct_ids(s),
            sorted_by_name(pair_views(out@)),
            forall|p: NamePair| #[trigger] pair_views(out@).contains(p) <==> ((placed && p == np) || (
            s.take(i as int).contains(p) && p.0 != name@ && p.1 != id@)),
            !placed ==> forall|q: int|
                0 <= q < out@.len() ==> char_seq_lt(#[trigger] pair_views(out@)[q].0, name@),
            forall|q: int, j: int|
                0 <= q < out@.len() && i <= j < s.len() ==> char_seq_lt(
                    #[trigger] pair_views(out@)[q].0,
                    #[trigger] s[j].0,
                ),
        decreases explicit@.len() - i,
    {
        let p = copy_pair(&explicit[i]);
        assert(s[i as int] == pair_view(p));
        let ghost before = pair_views(out@);
        let ghost t0 = s.take(i as int);
        let ghost t1 = s.take(i + 1);
        assert(t1 =~= t0.push(s[i as int]));
        let same = str_eq(p.0.as_str(), name) || bytes_eq(&p.1, &id);
        let mut placed_now = false;
        if !same {
            let own = chars_of(p.0.as_str());
            if !placed && compare_chars(&name_chars, &own) < 0 {
                out.push((String::from_str(name), id));
                placed = true;
                placed_now = true;
            }
            out.push(p);
        }
        proof {
            lemma_name_order();
            let now = pair_views(out@);
            if same {
                assert(now =~= before);
            } else if placed_now {
                assert(now =~= before.push(np).push(s[i as int]));
            } else {
                assert(now =~= before.push(s[i as int]));
            }
            assert forall|x: NamePair| #[trigger] now.contains(x) <==> ((placed && x == np) || (
            t1.contains(x) && x.0 != name@ && x.1 != id@)) by {
                if now.contains(x) {
                    let q = choose|q: int| 0 <= q < now.len() && now[q] == x;
                    if q < before.len() {
                        assert(before[q] == x);
                        assert(before.contains(x));
                        if !(placed && x == np) {
                            let j = choose|j: int| 0 <= j < t0.len() && #[trigger] t0[j] == x;
                            assert(t1[j] == x);
                        }
                    } else if !(placed_now && q == before.len()) {
                        assert(x == s[i as int]);
                        assert(t1[i as int] == x);
                    }
                }
                if placed && x == np {
                    if placed_now {
                        assert(now[before.len() as int] == np);
                    } else {
                        assert(before.contains(x));
                        let q = choose|q: int| 0 <= q < before.len() && before[q] == x;
                        assert(now[q] == x);
                    }
                }
                if t1.contains(x) && x.0 != name@ && x.1 != id@ {
                    let j = choose|j: int| 0 <= j < t1.len() && #[trigger] t1[j] == x;
                    if j < i {
                        assert(t0[j] == x);
                        assert(t0.contains(x));
                        assert(before.contains(x));
                        let q = choose|q: int| 0 <= q < before.len() && before[q] == x;
                        assert(now[q] == x);
                    } else {
                        assert(x == s[i as int]);
                        assert(now[now.len() - 1] == x);
                    }
                }
            }
            assert forall|a: int, b: int| 0 <= a < b < now.len() implies char_seq_lt(
                #[trigger] now[a].0,
                #[trigger] now[b].0,
            ) by {
                if b < before.len() {
                    assert(now[a] == before[a] && now[b] == before[b]);
                } else if !same {
                    if placed_now && b == before.len() {
                        assert(now[a] == before[a]);
                        assert(now[b] == np);
                    } else {
                        assert(now[b] == s[i as int]);
                        if a < before.len() {
                            assert(now[a] == before[a]);
                            assert(char_seq_lt(before[a].0, s[i as int].0));
                        } else {
                            assert(now[a] == np);
                        }
                    }
                }
            }
            if !placed {
                assert forall|q: int| 0 <= q < now.len() implies char_seq_lt(
                    #[trigger] now[q].0,
                    name@,
                ) by {
                    if q < before.len() {
                        assert(now[q] == before[q]);
                    } else {
                        assert(now[q] == s[i as int]);
                        assert(s[i as int].0 != name@);
                    }
                }
            }
            assert forall|q: int, j: int| 0 <= q < now.len() && i + 1 <= j < s.len() implies char_seq_lt(
                #[trigger] now[q].0,
                #[trigger] s[j].0,
            ) by {
                assert(char_seq_lt(s[i as int].0, s[j].0));
                if q < before.len() {
                    assert(now[q] == before[q]);
                    assert(char_seq_lt(before[q].0, s[j].0));
                } else if placed_now && q == before.len() {
                    assert(now[q] == np);
                    assert(char_seq_lt(name@, s[i as int].0));
                } else {
                    assert(now[q] == s[i as int]);
                }
            }
        }
        i = i + 1;
    }
    let ghost before = pair_views(out@);
    if !placed {
        out.push((String::from_str(name), id));
    }
    proof {
        let now = pair_views(out@);
        assert(s.take(s.len() as int) =~= s);
        if !placed {
            assert(now =~= before.push(np));
        } else {
            assert(now =~= before);
        }
        assert forall|x: NamePair| #[trigger] now.contains(x) <==> (x == np || (s.contains(x) && x.0
            != name@ && x.1 != id@)) by {
            if !placed {
                if now.contains(x) {
                    let q = choose|q: int| 0 <= q < now.len() && now[q] == x;
                    if q < before.len() {
                        assert(before[q] == x);
                        assert(before.contains(x));
                    }
                }
                if x == np {
                    assert(now[now.len() - 1] == x);
                }
                if x != np && s.contains(x) && x.0 != name@ && x.1 != id@ {
                    assert(before.contains(x));
                    let q = choose|q: int| 0 <= q < before.len() && before[q] == x;
                    assert(now[q] == x);
                }
            }
        }
        assert forall|a: int, b: int| 0 <= a < b < now.len() implies char_seq_lt(
            #[trigger] now[a].0,
            #[trigger] now[b].0,
        ) by {
            if b < before.len() {
                assert(now[a] == before[a] && now[b] == before[b]);
            } else {
                assert(now[a] == before[a]);
            }
        }
        lemma_sorted_distinct(now);
        assert forall|a: int, b: int| 0 <= a < b < now.len() implies #[trigger] now[a].1
            != #[trigger] now[b].1 by {
            assert(now.contains(now[a]) && now.contains(now[b]));
            assert(now[a].0 != now[b].0);
            if now[a] != np && now[b] != np {
                let ja = choose|j: int| 0 <= j < s.len() && s[j] == now[a];
                let jb = choose|j: int| 0 <= j < s.len() && s[j] == now[b];
                if ja < jb {
                    assert(s[ja].1 != s[jb].1);
                } else if jb < ja {
                    assert(s[jb].1 != s[ja].1);
                }
            }
        }
    }
    out
}

/// Whether pair `a` sorts before pair `b`.
fn pair_below(a: &(String, EndpointBytes), b: &(String, EndpointBytes)) -> (r: bool)
    ensures
        r == pair_lt(pair_view(*a), pair_view(*b)),
{
    let x = chars_of(a.0.as_str());
    let y = chars_of(b.0.as_str());
    let c = compare_chars(&x, &y);
    c < 0 || (c == 0 && compare_bytes(&a.1, &b.1) < 0)
}

/// Whether two pairs hold the same name and endpoint.
fn pair_same(a: &(String, EndpointBytes), b: &(String, EndpointBytes)) -> (r: bool)
    ensures
        r == (pair_view(*a) == pair_view(*b)),
{
    str_eq(a.0.as_str(), b.0.as_str()) && bytes_eq(&a.1, &b.1)
}

/// `supports` with `p` added, kept strictly ordered.
fn insert_support(supports: &mut Vec<(String, EndpointBytes)>, p: (String, EndpointBytes))
    requires
        sorted_pairs(pair_views(old(supports)@)),
    ensures
        sorted_pairs(pair_views(final(supports)@)),
        forall|x: NamePair| #[trigger] pair_views(final(supports)@).contains(x) <==> (x == pair_view(p)
            || pair_views(old(supports)@).contains(x)),
{
    proof {
        lemma_pair_order();
    }
    let ghost s = pair_views(supports@);
    let ghost pv = pair_view(p);
    let mut i: usize = 0;
    while i < supports.len() && pair_below(&supports[i], &p)
        invariant
            i <= supports@.len(),
            s == pair_views(supports@),
            pv == pair_view(p),
            sorted_pairs(s),
            forall|j: int| 0 <= j < i ==> pair_lt(#[trigger] s[j], pv),
        decreases supports@.len() - i,
    {
        assert(s[i as int] == pair_view(supports@[i as int]));
        i = i + 1;
    }
    if i < supports.len() {
        assert(s[i as int] == pair_view(supports@[i as int]));
        if pair_same(&supports[i], &p) {
            assert(s[i as int] == pv);
            assert(s.contains(pv));
            return;
        }
        assert(pair_lt(pv, s[i as int]));
    }
    supports.insert(i, p);
    proof {
        let now = pair_views(supports@);
        assert(now =~= s.insert(i as int, pv));
        s.insert_ensures(i as int, pv);
        assert forall|x: NamePair| #[trigger] now.contains(x) <==> (x == pv || s.contains(x)) by {
            if now.contains(x) {
                let q = choose|q: int| 0 <= q < now.len() && now[q] == x;
                if q < i {
                    assert(s[q] == x);
                } else if q > i {
                    assert(s[q - 1] == x);
                }
            }
            if x == pv {
                assert(now[i as int] == x);
            }
            if s.contains(x) {
                let q = choose|q: int| 0 <= q < s.len() && s[q] == x;
                if q < i {
                    assert(now[q] == x);
                } else {
                    assert(now[q + 1] == x);
                }
            }
        }
        assert forall|a: int, b: int| 0 <= a < b < now.len() implies pair_lt(#[trigger] now[a], #[trigger] now[b]) by {
            if b < i {
                assert(now[a] == s[a] && now[b] == s[b]);
            } else if b == i {
                assert(now[a] == s[a]);
            } else if a < i {
                assert(now[a] == s[a] && now[b] == s[b - 1]);
                if i < s.len() {
                    assert(pair_lt(pv, s[i as int]));
                    if b - 1 > i {
                        assert(pair_lt(s[i as int], s[b - 1]));
                    }
                }
            } else if a == i {
                assert(now[b] == s[b - 1]);
                assert(pair_lt(pv, s[i as int]));
                if b - 1 > i {
                    assert(pair_lt(s[i as int], s[b - 1]));
                }
            } else {
                assert(now[a] == s[a - 1] && now[b] == s[b - 1]);
            }
        }
    }
}

/// The mathematical content of a [`NameTable`].
pub struct NameTableView {
    /// The current one-to-one pairing, name to endpoint.
    pub mappings: Map<Seq<char>, Seq<u8>>,
    /// Explicitly registered pairs, in name order.
    pub explicit: Seq<NamePair>,
    /// Pairs carried by live directory records, in pair order.
    pub supports: Seq<NamePair>,
}

/// A table's pairing is rebuilt from its record-carried pairs, in pair
/// order, then its explicit pairs, in name order, no endpoint registered
/// under two names.
pub open spec fn table_wf(v: NameTableView) -> bool {
    &&& sorted_by_name(v.explicit)
    &&& distinct_ids(v.explicit)
    &&& sorted_pairs(v.supports)
    &&& v.mappings == rebuilt(v.supports, v.explicit)
}

/// `after` is `before` with its record-carried pairs replaced by those the
/// records `es` carry.
pub open spec fn synced_with(before: NameTableView, after: NameTableView, es: Seq<EntryView>) -> bool {
    &&& table_wf(after)
    &&& after.explicit == before.explicit
    &&& forall|p: NamePair| #[trigger] after.supports.contains(p) <==> carried_by(es, p)
}

/// A table whose only pair is one explicit registration.
pub proof fn lemma_single_explicit(v: NameTableView, name: Seq<char>, id: Seq<u8>)
    requires
        table_wf(v),
        v.supports == Seq::<NamePair>::empty(),
        pairs_map(v.explicit) == assign(pairs_map(Seq::<NamePair>::empty()), name, id),
    ensures
        v.explicit == seq![(name, id)],
        v.mappings == map![name => id],
{
    lemma_sorted_distinct(v.explicit);
    lemma_pairs_map(v.explicit);
    let m = assign(Map::<Seq<char>, Seq<u8>>::empty(), name, id);
    assert(pairs_map(Seq::<NamePair>::empty()) =~= Map::<Seq<char>, Seq<u8>>::empty());
    assert(m =~= map![name => id]);
    if v.explicit.len() > 1 {
        assert(v.explicit[0].0 != v.explicit[1].0);
        assert(m.contains_key(v.explicit[0].0) && m.contains_key(v.explicit[1].0));
    }
    assert(pairs_map(v.explicit).contains_key(name));
    let i = choose|i: int| 0 <= i < v.explicit.len() && v.explicit[i].0 == name;
    assert(v.explicit.len() == 1);
    assert(v.explicit[0] == (name, id));
    assert(v.explicit =~= seq![(name, id)]);
    reveal_with_fuel(assign_all, 2);
    assert(assign_all(Map::empty(), Seq::<NamePair>::empty()) =~= Map::<Seq<char>, Seq<u8>>::empty());
    assert(v.explicit.drop_last() =~= Seq::<NamePair>::empty());
    assert(v.mappings =~= map![name => id]);
}

/// Explicit registrations win: every explicitly registered pair holds,
/// whatever names the directory records carry.
pub proof fn lemma_explicit_names_win(v: NameTableView)
    requires
        table_wf(v),
    ensures
        forall|j: int| #![trigger v.explicit[j]]
            0 <= j < v.explicit.len() ==> v.mappings.contains_key(v.explicit[j].0)
                && v.mappings[v.explicit[j].0] == v.explicit[j].1,
{
    lemma_sorted_distinct(v.explicit);
    lemma_assign_all_keeps(assign_all(Map::empty(), v.supports), v.explicit);
}

/// The table is one-to-one: no endpoint holds two names.
pub proof fn lemma_table_one_to_one(v: NameTableView)
    requires
        table_wf(v),
    ensures
        injective(v.mappings),
{
    assert(injective(Map::<Seq<char>, Seq<u8>>::empty()));
    lemma_assign_all_injective(Map::empty(), v.supports);
    lemma_assign_all_injective(assign_all(Map::empty(), v.supports), v.explicit);
}

/// Whether some name holds endpoint `id` in pairing `m`.
pub open spec fn holds_id(m: Map<Seq<char>, Seq<u8>>, id: Seq<u8>) -> bool {
    exists|k: Seq<char>| #[trigger] m.contains_key(k) && m[k] == id
}

/// The endpoint `name` holds in pairing `m`, if any.
pub open spec fn id_of(m: Map<Seq<char>, Seq<u8>>, name: Seq<char>) -> Option<Seq<u8>> {
    if m.contains_key(name) {
        Some(m[name])
    } else {
        None
    }
}

/// The name holding endpoint `id` in pairing `m`, if any.
pub open spec fn name_of(m: Map<Seq<char>, Seq<u8>>, id: Seq<u8>) -> Option<Seq<char>> {
    if holds_id(m, id) {
        Some(choose|k: Seq<char>| #[trigger] m.contains_key(k) && m[k] == id)
    } else {
        None
    }
}

/// `base` with the pairs of `p` laid over it: every pair of `p` holds, and
/// a pair of `base` stays where `p` uses neither its name nor its endpoint.
pub open spec fn overlay(base: Map<Seq<char>, Seq<u8>>, p: Map<Seq<char>, Seq<u8>>) -> Map<
    Seq<char>,
    Seq<u8>,
> {
    Map::new(
        |k: Seq<char>| p.contains_key(k) || (base.contains_key(k) && !holds_id(p, base[k])),
        |k: Seq<char>|
            if p.contains_key(k) {
                p[k]
            } else {
                base[k]
            },
    )
}

/// A sequence with distinct names and endpoints lists an injective pairing.
proof fn lemma_pairs_map_injective(s: Seq<NamePair>)
    requires
        distinct_names(s),
        distinct_ids(s),
    ensures
        injective(pairs_map(s)),
{
    lemma_pairs_map(s);
    assert forall|a: Seq<char>, b: Seq<char>|
        #![trigger pairs_map(s)[a], pairs_map(s)[b]]
        pairs_map(s).contains_key(a) && pairs_map(s).contains_key(b) && a != b implies pairs_map(
        s,
    )[a] != pairs_map(s)[b] by {
        let i = choose|i: int| 0 <= i < s.len() && s[i].0 == a;
        let j = choose|j: int| 0 <= j < s.len() && s[j].0 == b;
        assert(pairs_map(s)[s[i].0] == s[i].1);
        assert(pairs_map(s)[s[j].0] == s[j].1);
        if i < j {
            assert(s[i].1 != s[j].1);
        } else if j < i {
            assert(s[j].1 != s[i].1);
        }
    }
}

/// Giving pairs with distinct names and endpoints in turn lays their
/// pairing over the start, whatever their order.
proof fn lemma_assign_all_overlay(base: Map<Seq<char>, Seq<u8>>, s: Seq<NamePair>)
    requires
        distinct_names(s),
        distinct_ids(s),
    ensures
        assign_all(base, s) == overlay(base, pairs_map(s)),
    decreases s.len(),
{
    if s.len() == 0 {
        assert(pairs_map(s) =~= Map::<Seq<char>, Seq<u8>>::empty());
        assert(assign_all(base, s) =~= overlay(base, pairs_map(s)));
    } else {
        let d = s.drop_last();
        let x = s.last();
        let l = s.len() - 1;
        assert(distinct_names(d) && distinct_ids(d)) by {
            assert forall|i: int, j: int| 0 <= i < j < d.len() implies #[trigger] d[i].0
                != #[trigger] d[j].0 by {
                assert(d[i] == s[i] && d[j] == s[j]);
            }
            assert forall|i: int, j: int| 0 <= i < j < d.len() implies #[trigger] d[i].1
                != #[trigger] d[j].1 by {
                assert(d[i] == s[i] && d[j] == s[j]);
            }
        }
        lemma_assign_all_overlay(base, d);
        lemma_pairs_map(d);
        let pd = pairs_map(d);
        let ps = pairs_map(s);
        let o = overlay(base, pd);
        assert(ps == pd.insert(x.0, x.1));
        assert(!pd.contains_key(x.0)) by {
            if pd.contains_key(x.0) {
                let i = choose|i: int| 0 <= i < d.len() && d[i].0 == x.0;
                assert(d[i] == s[i] && s[i].0 != s[l].0);
            }
        }
        assert(!holds_id(pd, x.1)) by {
            if holds_id(pd, x.1) {
                let k = choose|k: Seq<char>| #[trigger] pd.contains_key(k) && pd[k] == x.1;
                let i = choose|i: int| 0 <= i < d.len() && d[i].0 == k;
                assert(d[i] == s[i]);
                assert(pd[d[i].0] == d[i].1);
                assert(s[i].1 != s[l].1);
            }
        }
        let lhs = assign(o, x.0, x.1);
        let rhs = overlay(base, ps);
        assert forall|v: Seq<u8>| holds_id(ps, v) <==> (holds_id(pd, v) || v == x.1) by {
            if holds_id(ps, v) {
                let k = choose|k: Seq<char>| #[trigger] ps.contains_key(k) && ps[k] == v;
                if k != x.0 {
                    assert(pd.contains_key(k) && pd[k] == v);
                }
            }
            if holds_id(pd, v) {
                let k = choose|k: Seq<char>| #[trigger] pd.contains_key(k) && pd[k] == v;
                assert(ps.contains_key(k) && ps[k] == v);
            }
            if v == x.1 {
                assert(ps.contains_key(x.0) && ps[x.0] == v);
            }
        }
        assert forall|k: Seq<char>| lhs.contains_key(k) <==> rhs.contains_key(k) by {
            if k != x.0 && pd.contains_key(k) {
                assert(pd[k] != x.1);
            }
        }
        assert forall|k: Seq<char>| #[trigger] lhs.contains_key(k) implies lhs[k] == rhs[k] by {
        }
        assert(lhs =~= rhs);
    }
}

/// Values of a pairing given in turn come from the start or the pairs given.
proof fn lemma_assign_all_values(m: Map<Seq<char>, Seq<u8>>, s: Seq<NamePair>, v: Seq<u8>)
    requires
        holds_id(assign_all(m, s), v),
    ensures
        holds_id(m, v) || exists|j: int| 0 <= j < s.len() && (#[trigger] s[j]).1 == v,
    decreases s.len(),
{
    if s.len() > 0 {
        let d = s.drop_last();
        let a = assign_all(m, d);
        let r = assign_all(m, s);
        let k = choose|k: Seq<char>| #[trigger] r.contains_key(k) && r[k] == v;
        if k == s.last().0 {
            assert(s[s.len() - 1].1 == v);
        } else {
            assert(a.contains_key(k) && a[k] == v);
            lemma_assign_all_values(m, d, v);
            if !holds_id(m, v) {
                let j = choose|j: int| 0 <= j < d.len() && (#[trigger] d[j]).1 == v;
                assert(s[j] == d[j]);
            }
        }
    }
}

/// A table's pairing is its explicit pairing laid over the one its
/// record-carried pairs give: it depends on the explicit pairs only
/// through the pairing they list.
proof fn lemma_table_overlay(v: NameTableView)
    requires
        table_wf(v),
    ensures
        v.mappings == overlay(assign_all(Map::empty(), v.supports), pairs_map(v.explicit)),
        injective(pairs_map(v.explicit)),
{
    lemma_sorted_distinct(v.explicit);
    lemma_assign_all_overlay(assign_all(Map::empty(), v.supports), v.explicit);
    lemma_pairs_map_injective(v.explicit);
}

/// In every table that `new`, `register` and `sync_from_entries` produce
/// (each keeps [`table_wf`]), looking a name up and looking an endpoint up
/// agree: `name` resolves to `id` exactly when `id` is named `name`.
pub proof fn lemma_lookups_agree(v: NameTableView, name: Seq<char>, id: Seq<u8>)
    requires
        table_wf(v),
    ensures
        id_of(v.mappings, name) == Some(id) <==> name_of(v.mappings, id) == Some(name),
{
    lemma_table_one_to_one(v);
    let m = v.mappings;
    if id_of(m, name) == Some(id) {
        assert(m.contains_key(name) && m[name] == id);
        assert(holds_id(m, id));
        let k = choose|k: Seq<char>| #[trigger] m.contains_key(k) && m[k] == id;
        if k != name {
            assert(m[k] != m[name]);
        }
    }
    if name_of(m, id) == Some(name) {
        let k = choose|k: Seq<char>| #[trigger] m.contains_key(k) && m[k] == id;
        assert(k == name);
    }
}

/// Registering `name` for `id` (the change `register` makes): afterwards
/// `name` resolves to `id` and `id` is named `name`; registering the same
/// pair again changes no pairing; and an endpoint that `name` was
/// registered for before, and that no directory record names, is left
/// without a name.
pub proof fn lemma_register_laws(
    v: NameTableView,
    w: NameTableView,
    name: Seq<char>,
    id: Seq<u8>,
    again: NameTableView,
    old_id: Seq<u8>,
)
    requires
        table_wf(v),
        table_wf(w),
        w.supports == v.supports,
        pairs_map(w.explicit) == assign(pairs_map(v.explicit), name, id),
        table_wf(again),
        again.supports == w.supports,
        pairs_map(again.explicit) == assign(pairs_map(w.explicit), name, id),
    ensures
        id_of(w.mappings, name) == Some(id),
        name_of(w.mappings, id) == Some(name),
        again.mappings == w.mappings,
        id_of(pairs_map(v.explicit), name) == Some(old_id) && old_id != id && (forall|j: int|
            0 <= j < v.supports.len() ==> (#[trigger] v.supports[j]).1 != old_id) ==> name_of(
            w.mappings,
            old_id,
        ) is None,
{
    let base = assign_all(Map::<Seq<char>, Seq<u8>>::empty(), v.supports);
    lemma_table_overlay(v);
    lemma_table_overlay(w);
    lemma_table_overlay(again);
    let p = pairs_map(v.explicit);
    let q = assign(p, name, id);
    assert(assign(q, name, id) =~= q);
    assert(q.contains_key(name) && q[name] == id);
    assert(id_of(w.mappings, name) == Some(id));
    lemma_lookups_agree(w, name, id);
    if id_of(p, name) == Some(old_id) && old_id != id && (forall|j: int|
        0 <= j < v.supports.len() ==> (#[trigger] v.supports[j]).1 != old_id) {
        if holds_id(w.mappings, old_id) {
            let k = choose|k: Seq<char>| #[trigger] w.mappings.contains_key(k) && w.mappings[k]
                == old_id;
            if q.contains_key(k) {
                assert(k != name);
                assert(p.contains_key(k) && p[k] == old_id);
                assert(p[k] == p[name]);
            } else {
                assert(base.contains_key(k) && base[k] == old_id);
                assert(holds_id(base, old_id));
                lemma_assign_all_values(Map::empty(), v.supports, old_id);
                assert(!holds_id(Map::<Seq<char>, Seq<u8>>::empty(), old_id));
            }
        }
    }
}

/// Bidirectional machine-name table.
#[derive(Debug)]
pub struct NameTable {
    mappings: Vec<(String, EndpointBytes)>,
    explicit: Vec<(String, EndpointBytes)>,
    supports: Vec<(String, EndpointBytes)>,
}

impl View for NameTable {
    type V = NameTableView;

    closed spec fn view(&self) -> NameTableView {
        NameTableView {
            mappings: pairs_map(pair_views(self.mappings@)),
            explicit: pair_views(self.explicit@),
            supports: pair_views(self.supports@),
        }
    }
}

/// The pairing after giving each pair of `pairs` in turn, starting from
/// `start`.
fn assign_each(start: Vec<(String, EndpointBytes)>, pairs: &Vec<(String, EndpointBytes)>) -> (r: Vec<
    (String, EndpointBytes),
>)
    requires
        distinct_names(pair_views(start@)),
        distinct_ids(pair_views(start@)),
    ensures
        distinct_names(pair_views(r@)),
        distinct_ids(pair_views(r@)),
        pairs_map(pair_views(r@)) == assign_all(pairs_map(pair_views(start@)), pair_views(pairs@)),
{
    let ghost m0 = pairs_map(pair_views(start@));
    let ghost s = pair_views(pairs@);
    let mut m = start;
    let mut i: usize = 0;
    assert(s.take(0) =~= Seq::<NamePair>::empty());
    while i < pairs.len()
        invariant
            i <= pairs@.len(),
            s == pair_views(pairs@),
            distinct_names(pair_views(m@)),
            distinct_ids(pair_views(m@)),
            pairs_map(pair_views(m@)) == assign_all(m0, s.take(i as int)),
        decreases pairs@.len() - i,
    {
        assert(s[i as int] == pair_view(pairs@[i as int]));
        m = assigned_pairs(&m, pairs[i].0.as_str(), pairs[i].1);
        assert(s.take(i + 1).drop_last() =~= s.take(i as int));
        i = i + 1;
    }
    assert(s.take(s.len() as int) =~= s);
    m
}

impl NameTable {
    /// Internal consistency of the table.
    pub closed spec fn wf(&self) -> bool {
        &&& table_wf(self@)
        &&& distinct_names(pair_views(self.mappings@))
        &&& distinct_ids(pair_views(self.mappings@))
    }

    /// Recompute the pairing from the record-carried and explicit pairs.
    fn rebuild(&mut self)
        requires
            sorted_by_name(pair_views(old(self).explicit@)),
            distinct_ids(pair_views(old(self).explicit@)),
            sorted_pairs(pair_views(old(self).supports@)),
        ensures
            final(self).wf(),
            final(self)@.explicit == old(self)@.explicit,
            final(self)@.supports == old(self)@.supports,
    {
        let empty: Vec<(String, EndpointBytes)> = Vec::new();
        assert(pair_views(empty@) =~= Seq::<NamePair>::empty());
        assert(pairs_map(pair_views(empty@)) =~= Map::empty());
        let base = assign_each(empty, &self.supports);
        let all = assign_each(base, &self.explicit);
        self.mappings = all;
    }

    /// An empty table.
    pub fn new() -> (t: Self)
        ensures
            t.wf(),
            table_wf(t@),
            t@.mappings == Map::<Seq<char>, Seq<u8>>::empty(),
            t@.explicit == Seq::<NamePair>::empty(),
            t@.supports == Seq::<NamePair>::empty(),
    {
        let t = NameTable { mappings: Vec::new(), explicit: Vec::new(), supports: Vec::new() };
        assert(pair_views(t.mappings@) =~= Seq::<NamePair>::empty());
        assert(pair_views(t.explicit@) =~= Seq::<NamePair>::empty());
        assert(pair_views(t.supports@) =~= Seq::<NamePair>::empty());
        assert(rebuilt(Seq::empty(), Seq::empty()) =~= Map::<Seq<char>, Seq<u8>>::empty());
        t
    }

    /// Register `name` for `endpoint_id` explicitly; explicit names win
    /// over the names directory records carry.
    pub fn register(&mut self, name: &str, endpoint_id: EndpointBytes)
        requires
            old(self).wf(),
        ensures
            final(self).wf(),
            table_wf(final(self)@),
            final(self)@.supports == old(self)@.supports,
            pairs_map(final(self)@.explicit) == assign(
                pairs_map(old(self)@.explicit),
                name@,
                endpoint_id@,
            ),
            final(self)@.mappings.contains_key(name@),
            final(self)@.mappings[name@] == endpoint_id@,
    {
        let explicit = explicit_with(&self.explicit, name, endpoint_id);
        proof {
            let s = pair_views(self.explicit@);
            let t = pair_views(explicit@);
            lemma_sorted_distinct(s);
            lemma_sorted_distinct(t);
            lemma_assign_listing(s, t, name@, endpoint_id@);
        }
        self.explicit = explicit;
        self.rebuild();
        proof {
            let t = self@.explicit;
            lemma_sorted_distinct(t);
            assert(t.contains((name@, endpoint_id@)));
            let i = choose|i: int| 0 <= i < t.len() && t[i] == (name@, endpoint_id@);
            lemma_assign_all_keeps(assign_all(Map::empty(), self@.supports), t);
            assert(t[i] == (name@, endpoint_id@));
        }
    }

    /// Replace the record-carried pairs with those the records `entries`
    /// carry (a record without a machine name carries none).
    pub fn sync_from_entries(&mut self, entries: &Vec<TopicEntry>)
        requires
            old(self).wf(),
        ensures
            final(self).wf(),
            synced_with(old(self)@, final(self)@, entry_views(entries@)),
    {
        let ghost es = entry_views(entries@);
        let mut supports: Vec<(String, EndpointBytes)> = Vec::new();
        let mut i: usize = 0;
        while i < entries.len()
            invariant
                i <= entries@.len(),
                es == entry_views(entries@),
                sorted_pairs(pair_views(supports@)),
                forall|p: NamePair| #[trigger]
                    pair_views(supports@).contains(p) <==> carried_by(es.take(i as int), p),
            decreases entries@.len() - i,
        {
            let ghost before = pair_views(supports@);
            let ghost t0 = es.take(i as int);
            let ghost t1 = es.take(i + 1);
            assert(t1 =~= t0.push(es[i as int]));
            assert(es[i as int] == entries@[i as int]@);
            match &entries[i].body.machine_name {
                Some(n) => {
                    insert_support(&mut supports, (n.clone(), entries[i].body.owner));
                },
                None => {},
            }
            proof {
                assert forall|p: NamePair| #[trigger]
                    pair_views(supports@).contains(p) <==> carried_by(t1, p) by {
                    if carried_by(t1, p) {
                        let j = choose|j: int|
                            0 <= j < t1.len() && (#[trigger] t1[j]).body.machine_name == Some(p.0)
                                && t1[j].body.owner == p.1;
                        if j < i {
                            assert(t0[j] == t1[j]);
                            assert(carried_by(t0, p));
                        }
                    }
                    if carried_by(t0, p) {
                        let j = choose|j: int|
                            0 <= j < t0.len() && (#[trigger] t0[j]).body.machine_name == Some(p.0)
                                && t0[j].body.owner == p.1;
                        assert(t1[j] == t0[j]);
                    }
                    if es[i as int].body.machine_name == Some(p.0) && es[i as int].body.owner == p.1 {
                        assert(t1[i as int] == es[i as int]);
                    }
                }
            }
            i = i + 1;
        }
        assert(es.take(es.len() as int) =~= es);
        self.supports = supports;
        self.rebuild();
    }

    /// The endpoint registered under `name`, if any.
    pub fn resolve_name(&self, name: &str) -> (r: Option<EndpointBytes>)
        requires
            self.wf(),
        ensures
            match r {
                Some(id) => self@.mappings.contains_key(name@) && self@.mappings[name@] == id@,
                None => !self@.mappings.contains_key(name@),
            },
            match r {
                Some(id) => id_of(self@.mappings, name@) == Some(id@),
                None => id_of(self@.mappings, name@) is None,
            },
    {
        let ghost s = pair_views(self.mappings@);
        proof {
            lemma_pairs_map(s);
        }
        let mut i: usize = 0;
        while i < self.mappings.len()
            invariant
                i <= self.mappings@.len(),
                s == pair_views(self.mappings@),
                distinct_names(s),
                forall|j: int| 0 <= j < i ==> (#[trigger] s[j]).0 != name@,
            decreases self.mappings@.len() - i,
        {
            assert(s[i as int] == pair_view(self.mappings@[i as int]));
            if str_eq(self.mappings[i].0.as_str(), name) {
                proof {
                    lemma_pairs_map(s);
                }
                return Some(self.mappings[i].1);
            }
            i = i + 1;
        }
        None
    }

    /// The name registered for `endpoint_id`, if any.
    pub fn get_name(&self, endpoint_id: &EndpointBytes) -> (r: Option<String>)
        requires
            self.wf(),
        ensures
            match r {
                Some(n) => self@.mappings.contains_key(n@) && self@.mappings[n@] == endpoint_id@,
                None => forall|k: Seq<char>| #[trigger]
                    self@.mappings.contains_key(k) ==> self@.mappings[k] != endpoint_id@,
            },
            match r {
                Some(n) => name_of(self@.mappings, endpoint_id@) == Some(n@),
                None => name_of(self@.mappings, endpoint_id@) is None,
            },
    {
        let ghost s = pair_views(self.mappings@);
        proof {
            lemma_pairs_map(s);
        }
        let mut i: usize = 0;
        while i < self.mappings.len()
            invariant
                i <= self.mappings@.len(),
                s == pair_views(self.mappings@),
                distinct_names(s),
                forall|j: int| 0 <= j < i ==> (#[trigger] s[j]).1 != endpoint_id@,
                self.wf(),
            decreases self.mappings@.len() - i,
        {
            assert(s[i as int] == pair_view(self.mappings@[i as int]));
            if bytes_eq(&self.mappings[i].1, endpoint_id) {
                let p = copy_pair(&self.mappings[i]);
                proof {
                    lemma_pairs_map(s);
                    lemma_lookups_agree(self@, p.0@, endpoint_id@);
                }
                return Some(p.0);
            }
            i = i + 1;
        }
        proof {
            assert forall|k: Seq<char>| #[trigger]
                self@.mappings.contains_key(k) implies self@.mappings[k] != endpoint_id@ by {
                let j = choose|j: int| 0 <= j < s.len() && s[j].0 == k;
                assert(s[j] == s[j]);
            }
        }
        None
    }

    /// Every current pair, by name.
    pub fn all_mappings(&self) -> (r: Vec<(String, EndpointBytes)>)
        requires
            self.wf(),
        ensures
            distinct_names(pair_views(r@)),
            pairs_map(pair_views(r@)) == self@.mappings,
    {
        let mut out: Vec<(String, EndpointBytes)> = Vec::new();
        let mut i: usize = 0;
        while i < self.mappings.len()
            invariant
                i <= self.mappings@.len(),
                pair_views(out@) == pair_views(self.mappings@).take(i as int),
            decreases self.mappings@.len() - i,
        {
            let ghost before = pair_views(out@);
            let p = copy_pair(&self.mappings[i]);
            out.push(p);
            assert(pair_views(self.mappings@)[i as int] == pair_view(self.mappings@[i as int]));
            assert(pair_views(out@) =~= before.push(pair_view(p)));
            assert(pair_views(out@) =~= pair_views(self.mappings@).take(i + 1));
            i = i + 1;
        }
        assert(pair_views(self.mappings@).take(self.mappings@.len() as int) =~= pair_views(
            self.mappings@,
        ));
        out
    }
}

} // verus!
