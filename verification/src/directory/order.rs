//! The deterministic order of directory records: by topic (code point
//! order, which is also UTF-8 byte order), then by exchange family.
use vstd::prelude::*;

use super::entry::{EntryView, ExchangeKind, TopicEntry, exchange_index, exchange_rank};
use crate::text::chars_of;

verus! {

/// A directory key: normalized topic and exchange family.
pub type TopicKey = (Seq<char>, ExchangeKind);

/// The key a record is stored under.
pub open spec fn key_of(e: EntryView) -> TopicKey {
    (e.body.topic, e.body.exchange)
}

/// Lexicographic order of character sequences by code point.
pub open spec fn char_seq_lt(a: Seq<char>, b: Seq<char>) -> bool
    decreases a.len(),
{
    if a.len() == 0 {
        b.len() > 0
    } else if b.len() == 0 {
        false
    } else if a[0] != b[0] {
        (a[0] as u32) < (b[0] as u32)
    } else {
        char_seq_lt(a.drop_first(), b.drop_first())
    }
}

/// Strict order of directory keys.
pub open spec fn key_lt(a: TopicKey, b: TopicKey) -> bool {
    char_seq_lt(a.0, b.0) || (a.0 == b.0 && exchange_index(a.1) < exchange_index(b.1))
}

/// Records strictly ordered by key (so no key occurs twice).
pub open spec fn sorted_by_key(s: Seq<EntryView>) -> bool {
    forall|i: int, j: int| 0 <= i < j < s.len() ==> key_lt(key_of(s[i]), key_of(s[j]))
}

pub proof fn lemma_char_seq_lt_irreflexive(a: Seq<char>)
    ensures
        !char_seq_lt(a, a),
    decreases a.len(),
{
    if a.len() > 0 {
        lemma_char_seq_lt_irreflexive(a.drop_first());
    }
}

pub proof fn lemma_char_seq_lt_asymmetric(a: Seq<char>, b: Seq<char>)
    ensures
        char_seq_lt(a, b) ==> !char_seq_lt(b, a),
    decreases a.len(),
{
    if a.len() > 0 && b.len() > 0 && a[0] == b[0] {
        lemma_char_seq_lt_asymmetric(a.drop_first(), b.drop_first());
    }
}

pub proof fn lemma_char_seq_lt_transitive(a: Seq<char>, b: Seq<char>, c: Seq<char>)
    requires
        char_seq_lt(a, b),
        char_seq_lt(b, c),
    ensures
        char_seq_lt(a, c),
    decreases a.len(),
{
    if a.len() > 0 && b.len() > 0 && c.len() > 0 && a[0] == b[0] && b[0] == c[0] {
        lemma_char_seq_lt_transitive(a.drop_first(), b.drop_first(), c.drop_first());
    }
}

pub proof fn lemma_char_seq_lt_total(a: Seq<char>, b: Seq<char>)
    ensures
        a == b || char_seq_lt(a, b) || char_seq_lt(b, a),
    decreases a.len(),
{
    if a.len() == 0 && b.len() == 0 {
        assert(a =~= b);
    } else if a.len() > 0 && b.len() > 0 && a[0] == b[0] {
        lemma_char_seq_lt_total(a.drop_first(), b.drop_first());
        if a.drop_first() == b.drop_first() {
            assert(a =~= seq![a[0]] + a.drop_first());
            assert(b =~= seq![b[0]] + b.drop_first());
        }
    } else if a.len() > 0 && b.len() > 0 {
        assert((a[0] as u32) != (b[0] as u32)) by {
            vstd::utf8::char_u32_cast(a[0], a[0] as u32);
            vstd::utf8::char_u32_cast(b[0], b[0] as u32);
        }
    }
}

/// `key_lt` is a strict total order.
pub proof fn lemma_key_order()
    ensures
        forall|a: TopicKey| !#[trigger] key_lt(a, a),
        forall|a: TopicKey, b: TopicKey| #[trigger] key_lt(a, b) ==> !key_lt(b, a),
        forall|a: TopicKey, b: TopicKey, c: TopicKey| #[trigger] key_lt(a, b) && #[trigger] key_lt(
            b,
            c,
        ) ==> key_lt(a, c),
        forall|a: TopicKey, b: TopicKey| a == b || #[trigger] key_lt(a, b) || key_lt(b, a),
{
    assert forall|a: TopicKey| !#[trigger] key_lt(a, a) by {
        lemma_char_seq_lt_irreflexive(a.0);
    }
    assert forall|a: TopicKey, b: TopicKey| #[trigger] key_lt(a, b) implies !key_lt(b, a) by {
        lemma_char_seq_lt_asymmetric(a.0, b.0);
        lemma_char_seq_lt_irreflexive(a.0);
    }
    assert forall|a: TopicKey, b: TopicKey, c: TopicKey| #[trigger] key_lt(a, b)
        && #[trigger] key_lt(b, c) implies key_lt(a, c) by {
        if char_seq_lt(a.0, b.0) && char_seq_lt(b.0, c.0) {
            lemma_char_seq_lt_transitive(a.0, b.0, c.0);
        }
    }
    assert forall|a: TopicKey, b: TopicKey| a == b || #[trigger] key_lt(a, b) || key_lt(b, a) by {
        lemma_char_seq_lt_total(a.0, b.0);
        if a.0 == b.0 && exchange_index(a.1) == exchange_index(b.1) {
            assert(a.1 == b.1);
        }
    }
}

/// Three-way comparison of character sequences: negative, zero or positive
/// as `a` sorts before, equal to, or after `b`.
pub fn compare_chars(a: &Vec<char>, b: &Vec<char>) -> (r: i8)
    ensures
        (r < 0) == char_seq_lt(a@, b@),
        (r == 0) == (a@ == b@),
        (r > 0) == char_seq_lt(b@, a@),
{
    proof {
        lemma_char_seq_lt_asymmetric(a@, b@);
        lemma_char_seq_lt_total(a@, b@);
        lemma_char_seq_lt_irreflexive(a@);
    }
    let mut i: usize = 0;
    assert(a@.skip(0) =~= a@);
    assert(b@.skip(0) =~= b@);
    while i < a.len() && i < b.len()
        invariant
            i <= a@.len(),
            i <= b@.len(),
            a@.take(i as int) == b@.take(i as int),
            char_seq_lt(a@, b@) == char_seq_lt(a@.skip(i as int), b@.skip(i as int)),
            char_seq_lt(b@, a@) == char_seq_lt(b@.skip(i as int), a@.skip(i as int)),
        decreases a@.len() - i,
    {
        let x = a[i];
        let y = b[i];
        assert(a@.skip(i as int)[0] == x);
        assert(b@.skip(i as int)[0] == y);
        if x != y {
            if (x as u32) < (y as u32) {
                return -1;
            } else {
                proof {
                    vstd::utf8::char_u32_cast(x, x as u32);
                    vstd::utf8::char_u32_cast(y, y as u32);
                }
                return 1;
            }
        }
        assert(a@.skip(i as int).drop_first() =~= a@.skip(i + 1));
        assert(b@.skip(i as int).drop_first() =~= b@.skip(i + 1));
        assert(a@.take(i + 1) =~= a@.take(i as int).push(x));
        assert(b@.take(i + 1) =~= b@.take(i as int).push(y));
        i = i + 1;
    }
    if a.len() < b.len() {
        assert(a@.skip(i as int).len() == 0);
        -1
    } else if a.len() > b.len() {
        assert(b@.skip(i as int).len() == 0);
        1
    } else {
        assert(a@ =~= a@.take(i as int));
        assert(b@ =~= b@.take(i as int));
        0
    }
}

/// Three-way comparison of the key of `entry` with `(topic, exchange)`.
pub fn compare_key(entry: &TopicEntry, topic: &Vec<char>, exchange: ExchangeKind) -> (r: i8)
    ensures
        (r < 0) == key_lt(key_of(entry@), (topic@, exchange)),
        (r == 0) == (key_of(entry@) == (topic@, exchange)),
        (r > 0) == key_lt((topic@, exchange), key_of(entry@)),
{
    let own = chars_of(entry.body.topic.as_str());
    let c = compare_chars(&own, topic);
    proof {
        lemma_char_seq_lt_asymmetric(own@, topic@);
    }
    if c != 0 {
        return c;
    }
    let x = exchange_rank(entry.body.exchange);
    let y = exchange_rank(exchange);
    proof {
        lemma_char_seq_lt_irreflexive(own@);
    }
    if x < y {
        -1
    } else if x > y {
        1
    } else {
        assert(entry.body.exchange == exchange);
        0
    }
}

/// Lexicographic order of byte sequences.
pub open spec fn bytes_lt(a: Seq<u8>, b: Seq<u8>) -> bool
    decreases a.len(),
{
    if a.len() == 0 {
        b.len() > 0
    } else if b.len() == 0 {
        false
    } else if a[0] != b[0] {
        a[0] < b[0]
    } else {
        bytes_lt(a.drop_first(), b.drop_first())
    }
}

pub proof fn lemma_bytes_lt_irreflexive(a: Seq<u8>)
    ensures
        !bytes_lt(a, a),
    decreases a.len(),
{
    if a.len() > 0 {
        lemma_bytes_lt_irreflexive(a.drop_first());
    }
}

pub proof fn lemma_bytes_lt_asymmetric(a: Seq<u8>, b: Seq<u8>)
    ensures
        bytes_lt(a, b) ==> !bytes_lt(b, a),
    decreases a.len(),
{
    if a.len() > 0 && b.len() > 0 && a[0] == b[0] {
        lemma_bytes_lt_asymmetric(a.drop_first(), b.drop_first());
    }
}

pub proof fn lemma_bytes_lt_transitive(a: Seq<u8>, b: Seq<u8>, c: Seq<u8>)
    requires
        bytes_lt(a, b),
        bytes_lt(b, c),
    ensures
        bytes_lt(a, c),
    decreases a.len(),
{
    if a.len() > 0 && b.len() > 0 && c.len() > 0 && a[0] == b[0] && b[0] == c[0] {
        lemma_bytes_lt_transitive(a.drop_first(), b.drop_first(), c.drop_first());
    }
}

pub proof fn lemma_bytes_lt_total(a: Seq<u8>, b: Seq<u8>)
    ensures
        a == b || bytes_lt(a, b) || bytes_lt(b, a),
    decreases a.len(),
{
    if a.len() == 0 && b.len() == 0 {
        assert(a =~= b);
    } else if a.len() > 0 && b.len() > 0 && a[0] == b[0] {
        lemma_bytes_lt_total(a.drop_first(), b.drop_first());
        if a.drop_first() == b.drop_first() {
            assert(a =~= seq![a[0]] + a.drop_first());
            assert(b =~= seq![b[0]] + b.drop_first());
        }
    }
}

/// Three-way comparison of byte sequences: negative, zero or positive as
/// `a` sorts before, equal to, or after `b`.
pub fn compare_bytes(a: &[u8], b: &[u8]) -> (r: i8)
    ensures
        (r < 0) == bytes_lt(a@, b@),
        (r == 0) == (a@ == b@),
        (r > 0) == bytes_lt(b@, a@),
{
    proof {
        lemma_bytes_lt_asymmetric(a@, b@);
        lemma_bytes_lt_total(a@, b@);
        lemma_bytes_lt_irreflexive(a@);
    }
    let mut i: usize = 0;
    assert(a@.skip(0) =~= a@);
    assert(b@.skip(0) =~= b@);
    while i < a.len() && i < b.len()
        invariant
            i <= a@.len(),
            i <= b@.len(),
            a@.take(i as int) == b@.take(i as int),
            bytes_lt(a@, b@) == bytes_lt(a@.skip(i as int), b@.skip(i as int)),
            bytes_lt(b@, a@) == bytes_lt(b@.skip(i as int), a@.skip(i as int)),
        decreases a@.len() - i,
    {
        let x = a[i];
        let y = b[i];
        assert(a@.skip(i as int)[0] == x);
        assert(b@.skip(i as int)[0] == y);
        if x != y {
            if x < y {
                return -1;
            } else {
                return 1;
            }
        }
        assert(a@.skip(i as int).drop_first() =~= a@.skip(i + 1));
        assert(b@.skip(i as int).drop_first() =~= b@.skip(i + 1));
        assert(a@.take(i + 1) =~= a@.take(i as int).push(x));
        assert(b@.take(i + 1) =~= b@.take(i as int).push(y));
        i = i + 1;
    }
    if a.len() < b.len() {
        assert(a@.skip(i as int).len() == 0);
        -1
    } else if a.len() > b.len() {
        assert(b@.skip(i as int).len() == 0);
        1
    } else {
        assert(a@ =~= a@.take(i as int));
        assert(b@ =~= b@.take(i as int));
        0
    }
}

} // verus!
