//! The canonical byte encoding that owners sign: postcard's compact format
//! for the record and withdrawal bodies (unsigned LEB128 varints for
//! integers, lengths and variant indices; raw bytes for the owner key).
use vstd::prelude::*;
use vstd::utf8::encode_utf8;

verus! {

/// Unsigned LEB128 encoding of `n`: seven bits per byte, low bits first,
/// the high bit set on every byte but the last.
pub open spec fn varint(n: nat) -> Seq<u8>
    decreases n,
{
    if n < 128 {
        seq![n as u8]
    } else {
        seq![((n % 128) + 128) as u8] + varint(n / 128)
    }
}

/// A text field: its UTF-8 byte length as a varint, then the bytes.
pub open spec fn enc_str(s: Seq<char>) -> Seq<u8> {
    varint(encode_utf8(s).len()) + encode_utf8(s)
}

/// A byte-vector field: its length as a varint, then the bytes.
pub open spec fn enc_bytes(b: Seq<u8>) -> Seq<u8> {
    varint(b.len()) + b
}

/// An optional integer: tag `0`, or tag `1` and the varint.
pub open spec fn enc_opt_u64(o: Option<u64>) -> Seq<u8> {
    match o {
        None => seq![0u8],
        Some(v) => seq![1u8] + varint(v as nat),
    }
}

/// An optional text field: tag `0`, or tag `1` and the text.
pub open spec fn enc_opt_str(o: Option<Seq<char>>) -> Seq<u8> {
    match o {
        None => seq![0u8],
        Some(s) => seq![1u8] + enc_str(s),
    }
}

/// Append the varint of `n` to `out`.
pub fn push_varint(out: &mut Vec<u8>, n: u64)
    ensures
        final(out)@ == old(out)@ + varint(n as nat),
    decreases n,
{
    if n < 128 {
        out.push(n as u8);
        assert(varint(n as nat) == seq![n as u8]);
    } else {
        let b: u8 = ((n % 128) + 128) as u8;
        out.push(b);
        let ghost mid = out@;
        push_varint(out, n / 128);
        assert(varint(n as nat) == seq![b] + varint((n / 128) as nat));
        assert(out@ =~= old(out)@ + varint(n as nat));
    }
}

/// Append raw bytes to `out`.
pub fn push_bytes(out: &mut Vec<u8>, bytes: &[u8])
    ensures
        final(out)@ == old(out)@ + bytes@,
{
    let ghost start = out@;
    let mut i: usize = 0;
    while i < bytes.len()
        invariant
            i <= bytes@.len(),
            out@ == start + bytes@.take(i as int),
        decreases bytes@.len() - i,
    {
        out.push(bytes[i]);
        assert(bytes@.take(i + 1) =~= bytes@.take(i as int).push(bytes@[i as int]));
        i = i + 1;
    }
    assert(bytes@.take(bytes@.len() as int) =~= bytes@);
}

/// Append a text field to `out`.
pub fn push_str(out: &mut Vec<u8>, s: &str)
    ensures
        final(out)@ == old(out)@ + enc_str(s@),
{
    let bytes = s.as_bytes();
    push_varint(out, bytes.len() as u64);
    push_bytes(out, bytes);
    assert(out@ =~= old(out)@ + enc_str(s@));
}

/// Append a byte-vector field to `out`.
pub fn push_byte_field(out: &mut Vec<u8>, b: &[u8])
    ensures
        final(out)@ == old(out)@ + enc_bytes(b@),
{
    push_varint(out, b.len() as u64);
    push_bytes(out, b);
    assert(out@ =~= old(out)@ + enc_bytes(b@));
}

/// Append an optional integer to `out`.
pub fn push_opt_u64(out: &mut Vec<u8>, o: Option<u64>)
    ensures
        final(out)@ == old(out)@ + enc_opt_u64(o),
{
    match o {
        None => {
            out.push(0u8);
        },
        Some(v) => {
            out.push(1u8);
            push_varint(out, v);
        },
    }
    assert(out@ =~= old(out)@ + enc_opt_u64(o));
}

/// The characters of an optional `String`.
pub open spec fn opt_string_view(o: Option<String>) -> Option<Seq<char>> {
    match o {
        None => None,
        Some(s) => Some(s@),
    }
}

/// Append an optional text field to `out`.
pub fn push_opt_str(out: &mut Vec<u8>, o: &Option<String>)
    ensures
        final(out)@ == old(out)@ + enc_opt_str(opt_string_view(*o)),
{
    match o {
        None => {
            out.push(0u8);
        },
        Some(s) => {
            out.push(1u8);
            push_str(out, s.as_str());
        },
    }
    assert(out@ =~= old(out)@ + enc_opt_str(opt_string_view(*o)));
}

/// Two varint-prefixed byte strings are equal only when the integers and the
/// remainders are: a varint is never a proper prefix of another.
pub proof fn lemma_varint_prefix_unique(a: nat, b: nat, x: Seq<u8>, y: Seq<u8>)
    requires
        varint(a) + x == varint(b) + y,
    ensures
        a == b,
        x == y,
    decreases a,
{
    let va = varint(a);
    let vb = varint(b);
    assert((va + x)[0] == va[0]);
    assert((vb + y)[0] == vb[0]);
    if a < 128 {
        if b >= 128 {
            assert(va[0] < 128);
            assert(vb[0] >= 128);
        }
        assert(va + x =~= seq![a as u8] + x);
        assert(vb + y =~= seq![b as u8] + y);
        assert(x =~= (va + x).drop_first());
        assert(y =~= (vb + y).drop_first());
    } else {
        if b < 128 {
            assert(va[0] >= 128);
            assert(vb[0] < 128);
        }
        assert(a % 128 == b % 128);
        let ta = varint(a / 128);
        let tb = varint(b / 128);
        assert((va + x).drop_first() =~= ta + x);
        assert((vb + y).drop_first() =~= tb + y);
        lemma_varint_prefix_unique(a / 128, b / 128, x, y);
    }
}

/// Equal-length prefixes of equal sequences are equal, and so are the rests.
pub proof fn lemma_fixed_prefix_unique(a: Seq<u8>, b: Seq<u8>, x: Seq<u8>, y: Seq<u8>)
    requires
        a.len() == b.len(),
        a + x == b + y,
    ensures
        a == b,
        x == y,
{
    assert(a =~= (a + x).take(a.len() as int));
    assert(b =~= (b + y).take(b.len() as int));
    assert(x =~= (a + x).skip(a.len() as int));
    assert(y =~= (b + y).skip(b.len() as int));
}

/// A text field is never a proper prefix of another: equal encodings
/// followed by anything come from equal texts.
pub proof fn lemma_enc_str_prefix_unique(s: Seq<char>, t: Seq<char>, x: Seq<u8>, y: Seq<u8>)
    requires
        enc_str(s) + x == enc_str(t) + y,
    ensures
        s == t,
        x == y,
{
    let es = encode_utf8(s);
    let et = encode_utf8(t);
    assert(enc_str(s) + x =~= varint(es.len()) + (es + x));
    assert(enc_str(t) + y =~= varint(et.len()) + (et + y));
    lemma_varint_prefix_unique(es.len(), et.len(), es + x, et + y);
    lemma_fixed_prefix_unique(es, et, x, y);
    vstd::utf8::encode_utf8_decode_utf8(s);
    vstd::utf8::encode_utf8_decode_utf8(t);
}

/// A byte-vector field is never a proper prefix of another.
pub proof fn lemma_enc_bytes_prefix_unique(a: Seq<u8>, b: Seq<u8>, x: Seq<u8>, y: Seq<u8>)
    requires
        enc_bytes(a) + x == enc_bytes(b) + y,
    ensures
        a == b,
        x == y,
{
    assert(enc_bytes(a) + x =~= varint(a.len()) + (a + x));
    assert(enc_bytes(b) + y =~= varint(b.len()) + (b + y));
    lemma_varint_prefix_unique(a.len(), b.len(), a + x, b + y);
    lemma_fixed_prefix_unique(a, b, x, y);
}

/// An optional integer field is never a proper prefix of another.
pub proof fn lemma_enc_opt_u64_prefix_unique(o: Option<u64>, p: Option<u64>, x: Seq<u8>, y: Seq<u8>)
    requires
        enc_opt_u64(o) + x == enc_opt_u64(p) + y,
    ensures
        o == p,
        x == y,
{
    let l = enc_opt_u64(o) + x;
    let r = enc_opt_u64(p) + y;
    assert(l[0] == enc_opt_u64(o)[0]);
    assert(r[0] == enc_opt_u64(p)[0]);
    match o {
        None => {
            assert(p is None);
            assert(x =~= l.drop_first());
            assert(y =~= r.drop_first());
        },
        Some(v) => {
            let w = p->Some_0;
            assert(l.drop_first() =~= varint(v as nat) + x);
            assert(r.drop_first() =~= varint(w as nat) + y);
            lemma_varint_prefix_unique(v as nat, w as nat, x, y);
        },
    }
}

/// An optional text field is never a proper prefix of another.
pub proof fn lemma_enc_opt_str_prefix_unique(
    o: Option<Seq<char>>,
    p: Option<Seq<char>>,
    x: Seq<u8>,
    y: Seq<u8>,
)
    requires
        enc_opt_str(o) + x == enc_opt_str(p) + y,
    ensures
        o == p,
        x == y,
{
    let l = enc_opt_str(o) + x;
    let r = enc_opt_str(p) + y;
    assert(l[0] == enc_opt_str(o)[0]);
    assert(r[0] == enc_opt_str(p)[0]);
    match o {
        None => {
            assert(p is None);
            assert(x =~= l.drop_first());
            assert(y =~= r.drop_first());
        },
        Some(s) => {
            let t = p->Some_0;
            assert(l.drop_first() =~= enc_str(s) + x);
            assert(r.drop_first() =~= enc_str(t) + y);
            lemma_enc_str_prefix_unique(s, t, x, y);
        },
    }
}

} // verus!
