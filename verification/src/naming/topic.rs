//! Canonical absolute topic paths.
use vstd::prelude::*;

use crate::error::{Error, ErrorView, Result};
use crate::text::{chars_of, string_from_chars, trim, trim_bounds};

verus! {

/// `s` with a `/` in front unless it already starts with one.
pub open spec fn with_leading_slash(s: Seq<char>) -> Seq<char> {
    if s.len() > 0 && s[0] == '/' {
        s
    } else {
        seq!['/'] + s
    }
}

/// `s` with every run of consecutive `/` collapsed into one `/`.
pub open spec fn collapse_slashes(s: Seq<char>) -> Seq<char>
    decreases s.len(),
{
    if s.len() == 0 {
        s
    } else {
        let p = collapse_slashes(s.drop_last());
        if s.last() == '/' && p.len() > 0 && p.last() == '/' {
            p
        } else {
            p.push(s.last())
        }
    }
}

/// `s` without one trailing `/`, unless `s` is the root path.
pub open spec fn drop_trailing_slash(s: Seq<char>) -> Seq<char> {
    if s.len() > 1 && s.last() == '/' {
        s.drop_last()
    } else {
        s
    }
}

/// The canonical absolute path of a non-blank topic.
pub open spec fn normalized(t: Seq<char>) -> Seq<char> {
    drop_trailing_slash(collapse_slashes(with_leading_slash(trim(t))))
}

/// What [`normalize_topic`] gives for topic text `t`.
pub open spec fn normalize_result(t: Seq<char>) -> core::result::Result<Seq<char>, ErrorView> {
    if trim(t).len() == 0 {
        Err(ErrorView::InvalidTopic { topic: t, reason: "topic path cannot be empty"@ })
    } else {
        Ok(normalized(t))
    }
}

/// A `Result<String>` by the characters of its text or its error view.
pub open spec fn string_result_view(r: Result<String>) -> core::result::Result<Seq<char>, ErrorView> {
    match r {
        Ok(s) => Ok(s@),
        Err(e) => Err(e@),
    }
}

/// No two consecutive characters of `s` are both `/`.
pub open spec fn no_double_slash(s: Seq<char>) -> bool {
    forall|i: int| 0 <= i < s.len() - 1 ==> !(#[trigger] s[i] == '/' && s[i + 1] == '/')
}

/// The shape every normalized topic has.
pub open spec fn is_canonical_path(s: Seq<char>) -> bool {
    &&& s.len() > 0
    &&& s[0] == '/'
    &&& no_double_slash(s)
    &&& (s.len() > 1 ==> s.last() != '/')
}

/// Normalize a topic string into a clean, canonical absolute path starting with `/`.
pub fn normalize_topic(topic: &str) -> (r: Result<String>)
    ensures
        string_result_view(r) == normalize_result(topic@),
{
    let chars = chars_of(topic);
    let (lo, hi) = trim_bounds(&chars);
    let ghost t = trim(topic@);
    if lo == hi {
        return Err(
            Error::InvalidTopic {
                topic: String::from_str(topic),
                reason: String::from_str("topic path cannot be empty"),
            },
        );
    }
    assert(t.len() > 0);
    let ghost lead = with_leading_slash(t);
    let mut out: Vec<char> = Vec::new();
    let ghost off: int = 0;
    if chars[lo] != '/' {
        out.push('/');
        proof {
            off = 1;
            assert(lead.take(1) =~= seq!['/']);
            assert(seq!['/'].drop_last() =~= Seq::<char>::empty());
            assert(collapse_slashes(seq!['/']) == collapse_slashes(Seq::<char>::empty()).push('/'));
            assert(Seq::<char>::empty().push('/') =~= seq!['/']);
        }
    } else {
        assert(lead.take(0) =~= Seq::<char>::empty());
    }
    let mut i: usize = lo;
    while i < hi
        invariant
            lo < hi <= chars@.len(),
            lo <= i <= hi,
            t == chars@.subrange(lo as int, hi as int),
            lead == with_leading_slash(t),
            off == 0 || off == 1,
            off == 1 <==> chars@[lo as int] != '/',
            lead.len() == t.len() + off,
            forall|k: int| 0 <= k < t.len() ==> #[trigger] lead[k + off] == t[k],
            out@ == collapse_slashes(lead.take(off + (i - lo))),
        decreases hi - i,
    {
        let c = chars[i];
        let ghost k = off + (i - lo);
        proof {
            assert(lead[k] == t[i - lo]);
            assert(lead.take(k + 1).drop_last() =~= lead.take(k));
            assert(lead.take(k + 1).last() == c);
        }
        let n = out.len();
        if c == '/' && n > 0 && out[n - 1] == '/' {
        } else {
            out.push(c);
        }
        i = i + 1;
    }
    assert(lead.take(lead.len() as int) =~= lead);
    let n = out.len();
    if n > 1 && out[n - 1] == '/' {
        out.pop();
        assert(out@ =~= collapse_slashes(lead).drop_last());
    }
    Ok(string_from_chars(&out))
}

/// Index of the first character at or after `i` that is not `/`.
pub open spec fn first_non_slash_from(s: Seq<char>, i: int) -> int
    decreases s.len() - i,
{
    if 0 <= i < s.len() && s[i] == '/' {
        first_non_slash_from(s, i + 1)
    } else {
        i
    }
}

/// One past the last character in `s[lo..j]` that is not `/`, or `lo`.
pub open spec fn end_non_slash(s: Seq<char>, lo: int, j: int) -> int
    decreases j - lo,
{
    if lo < j && j <= s.len() && s[j - 1] == '/' {
        end_non_slash(s, lo, j - 1)
    } else {
        j
    }
}

/// `s` without leading and trailing `/` characters (std's `trim_matches('/')`).
pub open spec fn trim_slashes(s: Seq<char>) -> Seq<char> {
    let lo = first_non_slash_from(s, 0);
    s.subrange(lo, end_non_slash(s, lo, s.len() as int))
}

/// The topic text that participant qualification hands to normalization.
pub open spec fn qualified_text(participant: Seq<char>, topic: Seq<char>) -> Seq<char> {
    let tt = trim(topic);
    let part = trim_slashes(trim(participant));
    if tt.len() > 0 && tt[0] == '/' {
        tt
    } else if part.len() == 0 {
        tt
    } else {
        part + seq!['/'] + tt
    }
}

fn trim_slash_bounds(s: &Vec<char>, lo0: usize, hi0: usize) -> (r: (usize, usize))
    requires
        lo0 <= hi0 <= s@.len(),
    ensures
        r.0 <= r.1,
        s@.subrange(lo0 as int, hi0 as int).subrange(r.0 - lo0, r.1 - lo0) == trim_slashes(
            s@.subrange(lo0 as int, hi0 as int),
        ),
        lo0 <= r.0 <= r.1 <= hi0,
{
    let ghost w = s@.subrange(lo0 as int, hi0 as int);
    let mut lo: usize = lo0;
    while lo < hi0 && s[lo] == '/'
        invariant
            lo0 <= lo <= hi0 <= s@.len(),
            w == s@.subrange(lo0 as int, hi0 as int),
            first_non_slash_from(w, lo - lo0) == first_non_slash_from(w, 0),
        decreases hi0 - lo,
    {
        assert(w[lo - lo0] == s@[lo as int]);
        lo = lo + 1;
    }
    assert(first_non_slash_from(w, lo - lo0) == lo - lo0);
    let mut hi: usize = hi0;
    while hi > lo && s[hi - 1] == '/'
        invariant
            lo0 <= lo <= hi <= hi0 <= s@.len(),
            w == s@.subrange(lo0 as int, hi0 as int),
            end_non_slash(w, lo - lo0, hi - lo0) == end_non_slash(w, lo - lo0, w.len() as int),
        decreases hi,
    {
        assert(w[hi - 1 - lo0] == s@[hi - 1]);
        hi = hi - 1;
    }
    assert(end_non_slash(w, lo - lo0, hi - lo0) == hi - lo0);
    (lo, hi)
}

/// Qualify a topic for a specific participant module.
/// Relative topics (e.g. `scan`) become `/{participant}/{topic}`.
/// Absolute topics (e.g. `/global/clock`) remain unchanged as `/global/clock`.
pub fn qualify_participant_topic(participant: &str, topic: &str) -> (r: Result<String>)
    ensures
        string_result_view(r) == normalize_result(qualified_text(participant@, topic@)),
        trim(topic@).len() > 0 && trim(topic@)[0] == '/' ==> string_result_view(r)
            == normalize_result(trim(topic@)),
        !(trim(topic@).len() > 0 && trim(topic@)[0] == '/') && trim_slashes(trim(participant@)).len()
            > 0 ==> string_result_view(r) == normalize_result(
            trim_slashes(trim(participant@)) + seq!['/'] + trim(topic@),
        ),
        !(trim(topic@).len() > 0 && trim(topic@)[0] == '/') && trim_slashes(trim(participant@)).len()
            == 0 ==> string_result_view(r) == normalize_result(trim(topic@)),
{
    let tc = chars_of(topic);
    let (tlo, thi) = trim_bounds(&tc);
    let mut text: Vec<char> = Vec::new();
    let mut i: usize = tlo;
    while i < thi
        invariant
            tlo <= i <= thi <= tc@.len(),
            text@ == tc@.subrange(tlo as int, i as int),
        decreases thi - i,
    {
        text.push(tc[i]);
        i = i + 1;
    }
    let ghost tt = trim(topic@);
    assert(text@ == tt);
    if tlo < thi && tc[tlo] == '/' {
        let s = string_from_chars(&text);
        return normalize_topic(s.as_str());
    }
    let pc = chars_of(participant);
    let (plo, phi) = trim_bounds(&pc);
    let (slo, shi) = trim_slash_bounds(&pc, plo, phi);
    let ghost part = trim_slashes(trim(participant@));
    assert(pc@.subrange(slo as int, shi as int) =~= pc@.subrange(plo as int, phi as int).subrange(
        slo - plo,
        shi - plo,
    ));
    if slo == shi {
        let s = string_from_chars(&text);
        return normalize_topic(s.as_str());
    }
    let mut joined: Vec<char> = Vec::new();
    let mut j: usize = slo;
    while j < shi
        invariant
            slo <= j <= shi <= pc@.len(),
            joined@ == pc@.subrange(slo as int, j as int),
        decreases shi - j,
    {
        joined.push(pc[j]);
        j = j + 1;
    }
    joined.push('/');
    let mut k: usize = 0;
    let ghost base = joined@;
    while k < text.len()
        invariant
            k <= text@.len(),
            joined@ == base + text@.take(k as int),
        decreases text@.len() - k,
    {
        joined.push(text[k]);
        assert(text@.take(k + 1) =~= text@.take(k as int).push(text@[k as int]));
        k = k + 1;
    }
    assert(text@.take(text@.len() as int) =~= text@);
    assert(joined@ =~= part + seq!['/'] + tt);
    let s = string_from_chars(&joined);
    normalize_topic(s.as_str())
}

/// `text` without surrounding whitespace, then without surrounding `/`
/// (`text.trim().trim_matches('/')`).
pub fn trim_participant(text: &str) -> (r: String)
    ensures
        r@ == trim_slashes(trim(text@)),
{
    let pc = chars_of(text);
    let (plo, phi) = trim_bounds(&pc);
    let (slo, shi) = trim_slash_bounds(&pc, plo, phi);
    assert(pc@.subrange(slo as int, shi as int) =~= pc@.subrange(plo as int, phi as int).subrange(
        slo - plo,
        shi - plo,
    ));
    let mut out: Vec<char> = Vec::new();
    let mut j: usize = slo;
    while j < shi
        invariant
            slo <= j <= shi <= pc@.len(),
            out@ == pc@.subrange(slo as int, j as int),
        decreases shi - j,
    {
        out.push(pc[j]);
        j = j + 1;
    }
    string_from_chars(&out)
}

proof fn lemma_collapse_slashes(s: Seq<char>)
    ensures
        no_double_slash(collapse_slashes(s)),
        s.len() > 0 ==> collapse_slashes(s).len() > 0 && collapse_slashes(s)[0] == s[0],
        no_double_slash(s) ==> collapse_slashes(s) == s,
    decreases s.len(),
{
    if s.len() > 0 {
        let d = s.drop_last();
        lemma_collapse_slashes(d);
        let p = collapse_slashes(d);
        if no_double_slash(s) {
            assert forall|i: int| 0 <= i < d.len() - 1 implies !(#[trigger] d[i] == '/' && d[i
                + 1] == '/') by {
                assert(d[i] == s[i] && d[i + 1] == s[i + 1]);
            }
            assert(p == d);
            if d.len() > 0 {
                assert(s[d.len() - 1] == d.last());
            }
            assert(d.push(s.last()) =~= s);
        }
        if !(s.last() == '/' && p.len() > 0 && p.last() == '/') {
            let q = p.push(s.last());
            assert forall|i: int| 0 <= i < q.len() - 1 implies !(#[trigger] q[i] == '/' && q[i
                + 1] == '/') by {
                if i < p.len() - 1 {
                    assert(q[i] == p[i] && q[i + 1] == p[i + 1]);
                }
            }
            if d.len() == 0 {
                assert(p.len() == 0);
            }
        }
    }
}

/// Every topic that normalization accepts comes out as a canonical
/// absolute path: a leading `/`, no empty segments, no trailing `/`.
pub proof fn lemma_normalized_is_canonical(t: Seq<char>)
    requires
        trim(t).len() > 0,
    ensures
        is_canonical_path(normalized(t)),
{
    let l = with_leading_slash(trim(t));
    lemma_collapse_slashes(l);
    let c = collapse_slashes(l);
    let r = drop_trailing_slash(c);
    if c.len() > 1 && c.last() == '/' {
        assert forall|i: int| 0 <= i < r.len() - 1 implies !(#[trigger] r[i] == '/' && r[i + 1]
            == '/') by {
            assert(r[i] == c[i] && r[i + 1] == c[i + 1]);
        }
        assert(r[r.len() - 1] == c[r.len() - 1]);
        assert(!(c[r.len() - 1] == '/' && c[r.len() as int] == '/'));
    }
}

/// Normalizing a topic that is already a canonical path without
/// surrounding whitespace gives it back unchanged.
pub proof fn lemma_canonical_is_fixed_point(s: Seq<char>)
    requires
        is_canonical_path(s),
        trim(s) == s,
    ensures
        normalize_result(s) == Ok::<Seq<char>, ErrorView>(s),
{
    lemma_collapse_slashes(s);
}

/// Normalization is idempotent on every topic whose normalized form carries
/// no trailing whitespace (such whitespace can only appear when a trailing
/// `/` was removed after trimming, as in `"a /"`).
pub proof fn lemma_normalize_idempotent(t: Seq<char>)
    requires
        trim(t).len() > 0,
        trim(normalized(t)) == normalized(t),
    ensures
        normalize_result(normalized(t)) == normalize_result(t),
{
    lemma_normalized_is_canonical(t);
    lemma_canonical_is_fixed_point(normalized(t));
}

/// The non-empty pieces of `s` between `/` characters, in order: what
/// splitting `s` at every `/` and dropping the empty pieces gives.
pub open spec fn path_segments(s: Seq<char>) -> Seq<Seq<char>>
    decreases s.len(),
{
    if s.len() == 0 {
        Seq::empty()
    } else {
        let p = path_segments(s.drop_last());
        let c = s.last();
        if c == '/' {
            p
        } else if s.len() > 1 && s[s.len() - 2] != '/' {
            p.update(p.len() - 1, p.last().push(c))
        } else {
            p.push(seq![c])
        }
    }
}

/// `segs` joined with `/` between consecutive pieces.
pub open spec fn join_segments(segs: Seq<Seq<char>>) -> Seq<char>
    decreases segs.len(),
{
    if segs.len() == 0 {
        Seq::empty()
    } else if segs.len() == 1 {
        segs[0]
    } else {
        join_segments(segs.drop_last()) + seq!['/'] + segs.last()
    }
}

/// Every piece is non-empty and holds no `/`.
pub open spec fn plain_segments(segs: Seq<Seq<char>>) -> bool {
    forall|i: int|
        0 <= i < segs.len() ==> (#[trigger] segs[i]).len() > 0 && !segs[i].contains('/')
}

proof fn lemma_path_segments_plain(s: Seq<char>)
    ensures
        plain_segments(path_segments(s)),
        s.len() > 0 && s.last() != '/' ==> path_segments(s).len() > 0,
    decreases s.len(),
{
    if s.len() > 0 {
        let d = s.drop_last();
        lemma_path_segments_plain(d);
        let p = path_segments(d);
        let c = s.last();
        let r = path_segments(s);
        if c != '/' && s.len() > 1 && s[s.len() - 2] != '/' {
            assert(d.last() == s[s.len() - 2]);
            assert forall|i: int| 0 <= i < r.len() implies (#[trigger] r[i]).len() > 0 && !r[
                i
            ].contains('/') by {
                if i == p.len() - 1 {
                    let q = p.last().push(c);
                    assert(r[i] == q);
                    if q.contains('/') {
                        let j = choose|j: int| 0 <= j < q.len() && q[j] == '/';
                        assert(p.last()[j] == '/');
                        assert(p[p.len() - 1] == p.last());
                    }
                } else {
                    assert(r[i] == p[i]);
                }
            }
        } else if c != '/' {
            assert forall|i: int| 0 <= i < r.len() implies (#[trigger] r[i]).len() > 0 && !r[
                i
            ].contains('/') by {
                if i == p.len() {
                    assert(r[i] == seq![c]);
                    if seq![c].contains('/') {
                        let j = choose|j: int| 0 <= j < 1 && seq![c][j] == '/';
                    }
                } else {
                    assert(r[i] == p[i]);
                }
            }
        }
    }
}

/// A `/` in front changes no piece.
proof fn lemma_path_segments_leading_slash(x: Seq<char>)
    ensures
        path_segments(seq!['/'] + x) == path_segments(x),
    decreases x.len(),
{
    let s = seq!['/'] + x;
    if x.len() == 0 {
        assert(s.drop_last() =~= Seq::<char>::empty());
        assert(s.last() == '/');
        assert(path_segments(s) == path_segments(Seq::<char>::empty()));
        assert(x =~= Seq::<char>::empty());
    } else {
        let y = x.drop_last();
        lemma_path_segments_leading_slash(y);
        assert(s.drop_last() =~= seq!['/'] + y);
        assert(s.last() == x.last());
        if x.len() > 1 {
            assert(s[s.len() - 2] == x[x.len() - 2]);
        } else {
            assert(s[s.len() - 2] == '/');
        }
        assert(path_segments(s.drop_last()) == path_segments(x.drop_last()));
    }
}

proof fn lemma_join_push(segs: Seq<Seq<char>>, x: Seq<char>)
    requires
        segs.len() > 0,
    ensures
        join_segments(segs.push(x)) == join_segments(segs) + seq!['/'] + x,
{
    assert(segs.push(x).drop_last() =~= segs);
}

proof fn lemma_join_extend(segs: Seq<Seq<char>>, c: char)
    requires
        segs.len() > 0,
    ensures
        join_segments(segs.update(segs.len() - 1, segs.last().push(c))) == join_segments(segs).push(
            c,
        ),
{
    let u = segs.update(segs.len() - 1, segs.last().push(c));
    if segs.len() > 1 {
        assert(u.drop_last() =~= segs.drop_last());
        assert(u.last() == segs.last().push(c));
        assert(join_segments(segs.drop_last()) + seq!['/'] + segs.last().push(c) =~= (join_segments(
            segs.drop_last(),
        ) + seq!['/'] + segs.last()).push(c));
    }
}

proof fn lemma_join_last(segs: Seq<Seq<char>>)
    requires
        segs.len() > 0,
        plain_segments(segs),
    ensures
        join_segments(segs).len() > 0,
        join_segments(segs).last() != '/',
    decreases segs.len(),
{
    let l = segs.last();
    assert(segs[segs.len() - 1] == l);
    assert(l.len() > 0);
    if l.last() == '/' {
        assert(l.contains('/')) by {
            assert(l[l.len() - 1] == '/');
        }
    }
    if segs.len() > 1 {
        let j = join_segments(segs.drop_last()) + seq!['/'] + l;
        assert(j.last() == l.last());
    }
}

/// Collapsing the slashes of a path that starts with `/` gives `/`, its
/// pieces joined with `/`, and one `/` more when it ends in `/` after some
/// piece.
proof fn lemma_collapse_is_join(s: Seq<char>)
    requires
        s.len() > 0,
        s[0] == '/',
    ensures
        collapse_slashes(s) == seq!['/'] + join_segments(path_segments(s)) + if s.last() == '/'
            && path_segments(s).len() > 0 {
            seq!['/']
        } else {
            Seq::<char>::empty()
        },
    decreases s.len(),
{
    let e = Seq::<char>::empty();
    if s.len() == 1 {
        assert(s.drop_last() =~= e);
        assert(collapse_slashes(e) == e);
        assert(e.push('/') =~= seq!['/']);
        assert(seq!['/'] + join_segments(path_segments(s)) + e =~= seq!['/']);
    } else {
        let d = s.drop_last();
        assert(d[0] == '/');
        lemma_collapse_is_join(d);
        lemma_path_segments_plain(d);
        let p = path_segments(d);
        let c = s.last();
        let j = join_segments(p);
        let cd = collapse_slashes(d);
        assert(d.last() == s[s.len() - 2]);
        if c == '/' {
            if p.len() == 0 {
                assert(cd =~= seq!['/']);
            } else if d.last() == '/' {
                assert(cd.last() == '/');
            } else {
                lemma_join_last(p);
                assert(cd =~= seq!['/'] + j);
                assert(cd.last() == j.last());
                assert(cd.push('/') =~= seq!['/'] + j + seq!['/']);
            }
        } else if s[s.len() - 2] != '/' {
            assert(p.len() > 0);
            lemma_join_extend(p, c);
            assert(cd =~= seq!['/'] + j);
            assert(cd.push(c) =~= seq!['/'] + j.push(c) + e);
        } else {
            if p.len() == 0 {
                assert(p.push(seq![c]) =~= seq![seq![c]]);
                assert(cd =~= seq!['/']);
                assert(cd.push(c) =~= seq!['/'] + seq![c] + e);
            } else {
                lemma_join_push(p, seq![c]);
                assert(cd.push(c) =~= seq!['/'] + (j + seq!['/'] + seq![c]) + e);
            }
        }
    }
}

/// Normalizing a non-blank topic gives `/` followed by the non-empty
/// pieces of its trimmed text between `/` characters, joined with `/`.
pub proof fn lemma_normalized_joins_segments(t: Seq<char>)
    requires
        trim(t).len() > 0,
    ensures
        normalized(t) == seq!['/'] + join_segments(path_segments(trim(t))),
        plain_segments(path_segments(trim(t))),
{
    let x = trim(t);
    let l = with_leading_slash(x);
    lemma_path_segments_plain(x);
    if !(x.len() > 0 && x[0] == '/') {
        lemma_path_segments_leading_slash(x);
    }
    assert(path_segments(l) == path_segments(x));
    lemma_collapse_is_join(l);
    let segs = path_segments(x);
    let j = join_segments(segs);
    let c = collapse_slashes(l);
    if l.last() == '/' && segs.len() > 0 {
        assert(c =~= (seq!['/'] + j).push('/'));
        assert(c.drop_last() =~= seq!['/'] + j);
    } else {
        assert(c =~= seq!['/'] + j);
        if c.len() > 1 {
            lemma_join_last(segs);
            assert(c.last() == j.last());
        }
    }
}

proof fn lemma_collapse_len(s: Seq<char>)
    ensures
        collapse_slashes(s).len() <= s.len(),
    decreases s.len(),
{
    if s.len() > 0 {
        lemma_collapse_len(s.drop_last());
    }
}

/// A topic that normalization gives back unchanged is a canonical
/// absolute path with no surrounding whitespace.
pub proof fn lemma_fixed_point_is_canonical(t: Seq<char>)
    requires
        normalize_result(t) == Ok::<Seq<char>, ErrorView>(t),
    ensures
        is_canonical_path(t),
        trim(t) == t,
{
    lemma_normalized_is_canonical(t);
    let x = trim(t);
    let lo = crate::text::first_non_ws_from(t, 0);
    crate::text::lemma_first_non_ws_bounds(t, 0);
    crate::text::lemma_end_non_ws_bounds(t, lo, t.len() as int);
    lemma_collapse_len(with_leading_slash(x));
    assert(t[0] == '/');
    assert(!crate::text::is_ws('/'));
    assert(lo == 0);
    assert(x.len() > 0 && x[0] == t[0]);
    assert(with_leading_slash(x) == x);
    assert(t.len() <= x.len());
    assert(x =~= t);
}

/// A relative topic (one that does not start with `/` once trimmed) under
/// a participant that is non-empty once trimmed of whitespace and `/` is
/// qualified as the participant, a `/`, then the topic; an absolute topic
/// is qualified as itself, whatever the participant.
pub proof fn lemma_qualification_prefixes_relative_topics(participant: Seq<char>, topic: Seq<char>)
    ensures
        !(trim(topic).len() > 0 && trim(topic)[0] == '/') && trim_slashes(trim(participant)).len()
            > 0 ==> qualified_text(participant, topic) == trim_slashes(trim(participant)) + seq![
            '/',
        ] + trim(topic),
        trim(topic).len() > 0 && trim(topic)[0] == '/' ==> qualified_text(participant, topic)
            == trim(topic),
{
}

} // verus!
