//! Host-local rendezvous records of live agents. Every live agent leaves one
//! JSON record, named by its endpoint id, in a per-host directory; a process
//! on the same host lists them to find an agent by name without knowing its
//! id. The application layer reads and writes the files; this module holds
//! the record, its hex address encoding, file naming, ordering and lookup.
use vstd::prelude::*;
use vstd::utf8::{encode_utf8, is_ascii_chars, is_char_boundary};

use crate::directory::encoding::opt_string_view;
use crate::directory::entry::EndpointBytes;
use crate::text::string_from_chars;

verus! {

/// One live agent on this host.
#[derive(Debug, Clone, PartialEq)]
pub struct LocalAgent {
    /// The builder name, if the agent has one.
    pub name: Option<String>,
    /// The participant prefix, if the agent has one.
    pub participant: Option<String>,
    /// `did:key` of the endpoint.
    pub did: String,
    /// Postcard encoding of the endpoint address, lowercase hex.
    pub addr: String,
    /// The hosting process.
    pub pid: u32,
    /// Unix milliseconds when the agent was built.
    pub started_unix_ms: u64,
}

/// The mathematical content of a [`LocalAgent`].
pub struct LocalAgentView {
    pub name: Option<Seq<char>>,
    pub participant: Option<Seq<char>>,
    pub did: Seq<char>,
    pub addr: Seq<char>,
    pub pid: u32,
    pub started_unix_ms: u64,
}

impl View for LocalAgent {
    type V = LocalAgentView;

    open spec fn view(&self) -> LocalAgentView {
        LocalAgentView {
            name: opt_string_view(self.name),
            participant: opt_string_view(self.participant),
            did: self.did@,
            addr: self.addr@,
            pid: self.pid,
            started_unix_ms: self.started_unix_ms,
        }
    }
}

/// The views of a sequence of agents.
pub open spec fn agent_views(s: Seq<LocalAgent>) -> Seq<LocalAgentView> {
    s.map_values(|a: LocalAgent| a@)
}

fn copy_opt(o: &Option<String>) -> (r: Option<String>)
    ensures
        opt_string_view(r) == opt_string_view(*o),
{
    match o {
        Some(s) => Some(s.clone()),
        None => None,
    }
}

impl LocalAgent {
    /// A copy of this record.
    pub fn copy(&self) -> (r: LocalAgent)
        ensures
            r@ == self@,
    {
        LocalAgent {
            name: copy_opt(&self.name),
            participant: copy_opt(&self.participant),
            did: self.did.clone(),
            addr: self.addr.clone(),
            pid: self.pid,
            started_unix_ms: self.started_unix_ms,
        }
    }
}

/// The lowercase hex digit for a nibble `n < 16`.
pub open spec fn nibble_char(n: nat) -> char {
    if n < 10 {
        ((n + 48) as u32) as char
    } else {
        ((n + 87) as u32) as char
    }
}

/// Lowercase hex text of `b`, two digits per byte, high nibble first.
pub open spec fn hex_encode(b: Seq<u8>) -> Seq<char>
    decreases b.len(),
{
    if b.len() == 0 {
        Seq::empty()
    } else {
        seq![nibble_char(b[0] as nat / 16), nibble_char(b[0] as nat % 16)] + hex_encode(
            b.drop_first(),
        )
    }
}

/// The value of one ASCII hex digit byte, either case.
pub open spec fn hex_value(c: u8) -> Option<nat> {
    if 48 <= c <= 57 {
        Some((c - 48) as nat)
    } else if 97 <= c <= 102 {
        Some((c - 87) as nat)
    } else if 65 <= c <= 70 {
        Some((c - 55) as nat)
    } else {
        None
    }
}

/// The byte a two-byte group denotes in base 16, as std's
/// `u8::from_str_radix(group, 16)` reads it (which accepts a leading `+`).
pub open spec fn pair_value(b0: u8, b1: u8) -> Option<u8> {
    if b0 == 43 {
        match hex_value(b1) {
            Some(v) => Some(v as u8),
            None => None,
        }
    } else {
        match (hex_value(b0), hex_value(b1)) {
            (Some(h), Some(l)) => Some((h * 16 + l) as u8),
            _ => None,
        }
    }
}

/// The bytes that hex text (given by its UTF-8 bytes) denotes, two digits per byte.
pub open spec fn hex_decode(b: Seq<u8>) -> Option<Seq<u8>>
    decreases b.len(),
{
    if b.len() == 0 {
        Some(Seq::empty())
    } else if b.len() < 2 {
        None
    } else {
        match pair_value(b[0], b[1]) {
            None => None,
            Some(v) => match hex_decode(b.subrange(2, b.len() as int)) {
                None => None,
                Some(rest) => Some(seq![v] + rest),
            },
        }
    }
}

fn nibble(n: u8) -> (c: char)
    requires
        n < 16,
    ensures
        c == nibble_char(n as nat),
{
    if n < 10 {
        (n + 48) as char
    } else {
        (n + 87) as char
    }
}

/// Lowercase hex text of `bytes`.
pub fn bytes_to_hex(bytes: &[u8]) -> (s: String)
    ensures
        s@ == hex_encode(bytes@),
{
    let mut out: Vec<char> = Vec::new();
    let mut i: usize = 0;
    assert(bytes@.skip(0) =~= bytes@);
    while i < bytes.len()
        invariant
            i <= bytes@.len(),
            hex_encode(bytes@) == out@ + hex_encode(bytes@.skip(i as int)),
        decreases bytes@.len() - i,
    {
        let b = bytes[i];
        assert(bytes@.skip(i as int).drop_first() =~= bytes@.skip(i + 1));
        assert(bytes@.skip(i as int)[0] == b);
        out.push(nibble(b / 16));
        out.push(nibble(b % 16));
        i = i + 1;
    }
    assert(bytes@.skip(i as int) =~= Seq::<u8>::empty());
    assert(out@ =~= hex_encode(bytes@));
    string_from_chars(&out)
}

fn hex_digit_value(c: u8) -> (r: Option<u8>)
    ensures
        match hex_value(c) {
            Some(v) => r == Some(v as u8),
            None => r is None,
        },
{
    if 48 <= c && c <= 57 {
        Some(c - 48)
    } else if 97 <= c && c <= 102 {
        Some(c - 87)
    } else if 65 <= c && c <= 70 {
        Some(c - 55)
    } else {
        None
    }
}

/// Whether slicing `hex` into two-byte groups stays on character boundaries,
/// as reading it as `&hex[i..i + 2]` needs (such a slice panics otherwise).
pub open spec fn hex_groups_on_boundaries(b: Seq<u8>) -> bool {
    b.len() % 2 == 0 ==> forall|i: int| 0 <= i < b.len() && i % 2 == 0 ==> is_char_boundary(b, i)
}

/// The bytes that lowercase or uppercase hex text denotes; `None` for odd
/// length or a non-hex digit.
pub fn hex_to_bytes(hex: &str) -> (r: Option<Vec<u8>>)
    requires
        hex_groups_on_boundaries(encode_utf8(hex@)),
    ensures
        r is Some <==> hex_decode(encode_utf8(hex@)) is Some,
        r matches Some(v) ==> hex_decode(encode_utf8(hex@)) == Some(v@),
{
    let b = hex.as_bytes();
    let ghost bs = b@;
    if b.len() % 2 != 0 {
        proof {
            lemma_hex_decode_odd(bs);
        }
        return None;
    }
    let mut out: Vec<u8> = Vec::new();
    let mut i: usize = 0;
    assert(bs.subrange(0, bs.len() as int) =~= bs);
    while i < b.len()
        invariant
            bs == b@,
            bs == encode_utf8(hex@),
            bs.len() % 2 == 0,
            i <= bs.len(),
            i % 2 == 0,
            hex_decode(bs) == match hex_decode(bs.subrange(i as int, bs.len() as int)) {
                Some(rest) => Some(out@ + rest),
                None => None::<Seq<u8>>,
            },
        decreases bs.len() - i,
    {
        let ghost rest = bs.subrange(i as int, bs.len() as int);
        assert(rest[0] == b[i as int] && rest[1] == b[i + 1]);
        assert(rest.subrange(2, rest.len() as int) =~= bs.subrange(i + 2, bs.len() as int));
        assert(rest.len() >= 2);
        let b0 = b[i];
        let b1 = b[i + 1];
        let v: u8;
        if b0 == 43 {
            match hex_digit_value(b1) {
                Some(x) => {
                    v = x;
                },
                None => {
                    assert(pair_value(rest[0], rest[1]) is None);
                    assert(hex_decode(rest) is None);
                    assert(hex_decode(bs) is None);
                    return None;
                },
            }
        } else {
            match (hex_digit_value(b0), hex_digit_value(b1)) {
                (Some(h), Some(l)) => {
                    v = h * 16 + l;
                },
                _ => {
                    assert(pair_value(rest[0], rest[1]) is None);
                    assert(hex_decode(rest) is None);
                    assert(hex_decode(bs) is None);
                    return None;
                },
            }
        }
        proof {
            if hex_decode(bs.subrange(i + 2, bs.len() as int)) is Some {
                let tail = hex_decode(bs.subrange(i + 2, bs.len() as int))->Some_0;
                assert(out@.push(v) + tail =~= out@ + (seq![v] + tail));
            }
        }
        out.push(v);
        i = i + 2;
    }
    assert(bs.subrange(i as int, bs.len() as int) =~= Seq::<u8>::empty());
    assert(out@ + Seq::<u8>::empty() =~= out@);
    Some(out)
}

proof fn lemma_hex_decode_odd(b: Seq<u8>)
    requires
        b.len() % 2 == 1,
    ensures
        hex_decode(b) is None,
    decreases b.len(),
{
    if b.len() >= 2 {
        lemma_hex_decode_odd(b.subrange(2, b.len() as int));
    }
}

proof fn lemma_hex_encode_ascii(b: Seq<u8>)
    ensures
        is_ascii_chars(hex_encode(b)),
        hex_encode(b).len() == 2 * b.len(),
    decreases b.len(),
{
    if b.len() > 0 {
        lemma_hex_encode_ascii(b.drop_first());
        let h = hex_encode(b);
        let t = hex_encode(b.drop_first());
        assert forall|i| 0 <= i < h.len() implies '\0' <= #[trigger] h[i] <= '\u{7f}' by {
            if i >= 2 {
                assert(h[i] == t[i - 2]);
            }
        }
    }
}

/// The bytes of ASCII text, one per character.
pub open spec fn ascii_bytes(s: Seq<char>) -> Seq<u8> {
    s.map_values(|c: char| c as u8)
}

proof fn lemma_decode_encode(b: Seq<u8>)
    ensures
        hex_decode(ascii_bytes(hex_encode(b))) == Some(b),
    decreases b.len(),
{
    if b.len() == 0 {
        assert(ascii_bytes(hex_encode(b)) =~= Seq::<u8>::empty());
    } else {
        lemma_decode_encode(b.drop_first());
        let x = b[0];
        let hi = nibble_char(x as nat / 16);
        let lo = nibble_char(x as nat % 16);
        let t = hex_encode(b.drop_first());
        let a = ascii_bytes(hex_encode(b));
        assert(hex_encode(b) == seq![hi, lo] + t);
        assert(a.subrange(2, a.len() as int) =~= ascii_bytes(t));
        assert(a[0] == hi as u8);
        assert(a[1] == lo as u8);
        assert(hex_value(hi as u8) == Some(x as nat / 16));
        assert(hex_value(lo as u8) == Some(x as nat % 16));
        assert((x as nat / 16) * 16 + x as nat % 16 == x as nat);
        assert(seq![x] + b.drop_first() =~= b);
    }
}

/// Hex text written by [`bytes_to_hex`] reads back, through
/// [`hex_to_bytes`], as exactly the bytes it was written from.
pub proof fn lemma_hex_round_trip(b: Seq<u8>)
    ensures
        hex_groups_on_boundaries(encode_utf8(hex_encode(b))),
        hex_decode(encode_utf8(hex_encode(b))) == Some(b),
{
    lemma_hex_encode_ascii(b);
    let h = hex_encode(b);
    vstd::utf8::is_ascii_chars_encode_utf8(h);
    assert(encode_utf8(h) =~= ascii_bytes(h));
    lemma_decode_encode(b);
    assert forall|i: int| 0 <= i < encode_utf8(h).len() && i % 2 == 0 implies is_char_boundary(
        encode_utf8(h),
        i,
    ) by {
        vstd::utf8::encode_utf8_valid_utf8(h);
        vstd::utf8::is_char_boundary_iff_not_is_continuation_byte(encode_utf8(h), i);
        assert(encode_utf8(h)[i] == h[i] as u8);
    }
}

/// The file name of an endpoint's rendezvous record: its public key in
/// lowercase hex, then `.json`.
pub fn record_file_name(endpoint_id: &EndpointBytes) -> (s: String)
    ensures
        s@ == hex_encode(endpoint_id@) + ".json"@,
{
    let hex = bytes_to_hex(endpoint_id);
    hex.concat(".json")
}

/// Whether an agent record carries builder name `name`.
pub open spec fn has_name(a: LocalAgentView, name: Seq<char>) -> bool {
    a.name == Some(name)
}

/// The live agent with this builder name among `agents`, the first in
/// their order (the oldest, for a listing in start order).
pub fn find_local(agents: &Vec<LocalAgent>, name: &str) -> (r: Option<LocalAgent>)
    ensures
        r is None <==> forall|i: int| 0 <= i < agents@.len() ==> !has_name(
            #[trigger] agents@[i]@,
            name@,
        ),
        r matches Some(a) ==> exists|i: int|
            0 <= i < agents@.len() && agents@[i]@ == a@ && has_name(a@, name@) && forall|j: int|
                0 <= j < i ==> !has_name(#[trigger] agents@[j]@, name@),
{
    let mut i: usize = 0;
    while i < agents.len()
        invariant
            i <= agents@.len(),
            forall|j: int| 0 <= j < i ==> !has_name(#[trigger] agents@[j]@, name@),
        decreases agents@.len() - i,
    {
        let matched = match &agents[i].name {
            Some(n) => crate::text::str_eq(n.as_str(), name),
            None => false,
        };
        if matched {
            return Some(agents[i].copy());
        }
        i = i + 1;
    }
    None
}

/// The live agent with this `did:key` among `agents`, the first in their order.
pub fn find_local_did(agents: &Vec<LocalAgent>, did: &str) -> (r: Option<LocalAgent>)
    ensures
        r is None <==> forall|i: int| 0 <= i < agents@.len() ==> (#[trigger] agents@[i]@).did
            != did@,
        r matches Some(a) ==> exists|i: int|
            0 <= i < agents@.len() && agents@[i]@ == a@ && a@.did == did@ && forall|j: int|
                0 <= j < i ==> (#[trigger] agents@[j]@).did != did@,
{
    let mut i: usize = 0;
    while i < agents.len()
        invariant
            i <= agents@.len(),
            forall|j: int| 0 <= j < i ==> (#[trigger] agents@[j]@).did != did@,
        decreases agents@.len() - i,
    {
        if crate::text::str_eq(agents[i].did.as_str(), did) {
            return Some(agents[i].copy());
        }
        i = i + 1;
    }
    None
}

/// Agents ordered by start time, oldest first.
pub open spec fn sorted_by_start(s: Seq<LocalAgentView>) -> bool {
    forall|i: int, j: int| 0 <= i < j < s.len() ==> s[i].started_unix_ms <= s[j].started_unix_ms
}

/// Whether an agent started at millisecond `t`.
pub open spec fn starts_at(t: u64) -> spec_fn(LocalAgentView) -> bool {
    |a: LocalAgentView| a.started_unix_ms == t
}

/// The agents of `s` that started at millisecond `t`, in their order in `s`.
pub open spec fn started_at(s: Seq<LocalAgentView>, t: u64) -> Seq<LocalAgentView> {
    s.filter(starts_at(t))
}

/// Inserting `x` in front of every agent that started after it adds `x`
/// at the end of its own start group and leaves every other group alone.
proof fn lemma_insert_keeps_groups(before: Seq<LocalAgentView>, p: int, x: LocalAgentView, t: u64)
    requires
        0 <= p <= before.len(),
        forall|j: int| p <= j < before.len() ==> (#[trigger] before[j]).started_unix_ms > x.started_unix_ms,
    ensures
        started_at(before.insert(p, x), t) == if x.started_unix_ms == t {
            started_at(before, t).push(x)
        } else {
            started_at(before, t)
        },
{
    let pred = starts_at(t);
    let head = before.take(p);
    let tail = before.skip(p);
    assert(before.insert(p, x) =~= (head + seq![x]) + tail);
    assert(before =~= head + tail);
    Seq::filter_distributes_over_add(head + seq![x], tail, pred);
    Seq::filter_distributes_over_add(head, seq![x], pred);
    Seq::filter_distributes_over_add(head, tail, pred);
    assert(seq![x] =~= Seq::<LocalAgentView>::empty().push(x));
    Seq::<LocalAgentView>::empty().lemma_filter_push(x, pred);
    assert(Seq::<LocalAgentView>::empty().filter(pred) =~= Seq::<LocalAgentView>::empty()) by {
        reveal(Seq::filter);
    }
    if x.started_unix_ms == t {
        assert(tail.all(|y: LocalAgentView| !pred(y))) by {
            assert forall|k: int| 0 <= k < tail.len() implies !pred(#[trigger] tail[k]) by {
                assert(tail[k] == before[p + k]);
            }
        }
        tail.lemma_all_neg_filter_empty(pred);
        assert(tail.filter(pred) =~= Seq::<LocalAgentView>::empty());
        assert(head.filter(pred) + seq![x] =~= (head.filter(pred) + Seq::<LocalAgentView>::empty()).push(x));
    } else {
        assert(head.filter(pred) + Seq::<LocalAgentView>::empty() =~= head.filter(pred));
    }
}

/// The agents of a listing, oldest first; agents that started at the same
/// millisecond keep their listing order.
pub fn sort_by_start(agents: Vec<LocalAgent>) -> (r: Vec<LocalAgent>)
    ensures
        sorted_by_start(agent_views(r@)),
        agent_views(r@).to_multiset() == agent_views(agents@).to_multiset(),
        forall|t: u64| #[trigger] started_at(agent_views(r@), t) == started_at(agent_views(agents@), t),
{
    broadcast use vstd::seq_lib::group_to_multiset_ensures;

    let mut out: Vec<LocalAgent> = Vec::new();
    let mut i: usize = 0;
    while i < agents.len()
        invariant
            i <= agents@.len(),
            sorted_by_start(agent_views(out@)),
            agent_views(out@).to_multiset() == agent_views(agents@).take(i as int).to_multiset(),
            forall|t: u64| #[trigger] started_at(agent_views(out@), t) == started_at(
                agent_views(agents@).take(i as int),
                t,
            ),
        decreases agents@.len() - i,
    {
        let a = agents[i].copy();
        let key = a.started_unix_ms;
        let mut p: usize = 0;
        while p < out.len() && out[p].started_unix_ms <= key
            invariant
                p <= out@.len(),
                forall|j: int| 0 <= j < p ==> (#[trigger] out@[j]).started_unix_ms <= key,
            decreases out@.len() - p,
        {
            p = p + 1;
        }
        let ghost before = agent_views(out@);
        out.insert(p, a);
        proof {
            let after = agent_views(out@);
            assert(after =~= before.insert(p as int, a@));
            assert forall|x: int, y: int| 0 <= x < y < after.len() implies after[x].started_unix_ms
                <= after[y].started_unix_ms by {
                if y < p {
                    assert(after[x] == before[x] && after[y] == before[y]);
                } else if y == p {
                    assert(after[x] == before[x]);
                    assert(out@[x].started_unix_ms <= key);
                } else if x < p {
                    assert(after[x] == before[x] && after[y] == before[y - 1]);
                } else if x == p {
                    assert(after[y] == before[y - 1]);
                    if p < before.len() {
                        assert(before[p as int].started_unix_ms > key);
                    }
                } else {
                    assert(after[x] == before[x - 1] && after[y] == before[y - 1]);
                }
            }
            vstd::seq_lib::to_multiset_insert(before, p as int, a@);
            let prefix = agent_views(agents@).take(i as int);
            assert(agent_views(agents@).take(i + 1) =~= prefix.push(a@));
            vstd::seq_lib::to_multiset_build(prefix, a@);
            assert forall|j: int| p <= j < before.len() implies (#[trigger] before[j]).started_unix_ms
                > a@.started_unix_ms by {
                if p < before.len() {
                    assert(before[p as int].started_unix_ms > key);
                }
            }
            assert forall|t: u64| #[trigger] started_at(after, t) == started_at(
                agent_views(agents@).take(i + 1),
                t,
            ) by {
                lemma_insert_keeps_groups(before, p as int, a@, t);
                prefix.lemma_filter_push(a@, starts_at(t));
            }
        }
        i = i + 1;
    }
    assert(agent_views(agents@).take(i as int) =~= agent_views(agents@));
    out
}

} // verus!
