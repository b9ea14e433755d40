//! Memcomparable key encoding and the byte-string order it preserves.
//!
//! MVCC keys are stored in the engine in an order-preserving, padded group
//! encoding: the raw key is cut into groups of eight bytes, each full group is
//! followed by the marker `0xFF`, and the final (possibly empty) group is
//! padded with zero bytes and followed by the marker `0xF7 + r`, where `r` is
//! the number of meaningful bytes in it.  Decoding rejects any byte string
//! that this encoder could not have produced.

use vstd::prelude::*;

verus! {

/// Strict lexicographic order on byte strings: `a` sorts before `b`.
pub open spec fn lex_lt(a: Seq<u8>, b: Seq<u8>) -> bool
    decreases a.len(),
{
    if b.len() == 0 {
        false
    } else if a.len() == 0 {
        true
    } else if a[0] < b[0] {
        true
    } else if a[0] == b[0] {
        lex_lt(a.skip(1), b.skip(1))
    } else {
        false
    }
}

/// Non-strict lexicographic order on byte strings.
pub open spec fn lex_le(a: Seq<u8>, b: Seq<u8>) -> bool {
    lex_lt(a, b) || a == b
}

/// Exactly one of `a < b`, `a == b`, `b < a` holds.
pub proof fn lemma_lex_trichotomy(a: Seq<u8>, b: Seq<u8>)
    ensures
        lex_lt(a, b) || a == b || lex_lt(b, a),
        lex_lt(a, b) ==> !(a == b) && !lex_lt(b, a),
        a == b ==> !lex_lt(a, b) && !lex_lt(b, a),
    decreases a.len(),
{
    if a.len() == 0 && b.len() == 0 {
        assert(a =~= b);
    } else if a.len() > 0 && b.len() > 0 {
        lemma_lex_trichotomy(a.skip(1), b.skip(1));
        if a[0] == b[0] && a.skip(1) == b.skip(1) {
            assert forall|i: int| 0 <= i < a.len() implies a[i] == b[i] by {
                if i > 0 {
                    assert(a[i] == a.skip(1)[i - 1]);
                    assert(b[i] == b.skip(1)[i - 1]);
                }
            }
            assert(a =~= b);
        }
        if a == b {
            assert(a.skip(1) =~= b.skip(1));
        }
    } else {
        if a == b {
            assert(a.len() == b.len());
        }
    }
}

/// Lexicographic order is transitive.
pub proof fn lemma_lex_trans(a: Seq<u8>, b: Seq<u8>, c: Seq<u8>)
    requires
        lex_lt(a, b),
        lex_lt(b, c),
    ensures
        lex_lt(a, c),
    decreases a.len(),
{
    if a.len() > 0 && b.len() > 0 && c.len() > 0 {
        if a[0] == b[0] && b[0] == c[0] {
            lemma_lex_trans(a.skip(1), b.skip(1), c.skip(1));
        }
    }
}

/// Equal prefixes of length `n` reduce the order of two strings to the order
/// of what follows the prefix.
pub proof fn lemma_lex_skip(a: Seq<u8>, b: Seq<u8>, n: int)
    requires
        0 <= n <= a.len(),
        n <= b.len(),
        a.take(n) == b.take(n),
    ensures
        lex_lt(a, b) <==> lex_lt(a.skip(n), b.skip(n)),
        (a == b) <==> (a.skip(n) == b.skip(n)),
    decreases n,
{
    if n > 0 {
        assert(a.take(n)[0] == a[0]);
        assert(b.take(n)[0] == b[0]);
        assert(a.skip(1).take(n - 1) =~= a.take(n).skip(1));
        assert(b.skip(1).take(n - 1) =~= b.take(n).skip(1));
        lemma_lex_skip(a.skip(1), b.skip(1), n - 1);
        assert(a.skip(1).skip(n - 1) =~= a.skip(n));
        assert(b.skip(1).skip(n - 1) =~= b.skip(n));
        if a.skip(1) == b.skip(1) && a[0] == b[0] {
            assert forall|i: int| 0 <= i < a.len() implies a[i] == b[i] by {
                if i > 0 {
                    assert(a[i] == a.skip(1)[i - 1]);
                    assert(b[i] == b.skip(1)[i - 1]);
                }
            }
            assert(a =~= b);
        }
        if a == b {
            assert(a.skip(1) =~= b.skip(1));
        }
    } else {
        assert(a.skip(0) =~= a);
        assert(b.skip(0) =~= b);
    }
}

/// Three-way comparison result for byte strings.
#[derive(Clone, Copy, PartialEq, Eq, Structural, Debug)]
pub enum KeyOrd {
    Less,
    Equal,
    Greater,
}

/// Compares two byte strings in lexicographic order.
pub fn lex_cmp(a: &Vec<u8>, b: &Vec<u8>) -> (r: KeyOrd)
    ensures
        r == KeyOrd::Less <==> lex_lt(a@, b@),
        r == KeyOrd::Equal <==> a@ == b@,
        r == KeyOrd::Greater <==> lex_lt(b@, a@),
{
    proof {
        lemma_lex_trichotomy(a@, b@);
    }
    let mut i: usize = 0;
    let a_len = a.len();
    let b_len = b.len();
    while i < a_len && i < b_len
        invariant
            0 <= i <= a_len,
            i <= b_len,
            a_len == a@.len(),
            b_len == b@.len(),
            a@.take(i as int) == b@.take(i as int),
        decreases a_len - i,
    {
        let x = a[i];
        let y = b[i];
        if x != y {
            proof {
                lemma_lex_skip(a@, b@, i as int);
                assert(a@.skip(i as int)[0] == x);
                assert(b@.skip(i as int)[0] == y);
                lemma_lex_trichotomy(a@, b@);
            }
            if x < y {
                return KeyOrd::Less;
            } else {
                return KeyOrd::Greater;
            }
        }
        proof {
            assert(a@.take(i + 1) =~= a@.take(i as int) + seq![a@[i as int]]);
            assert(b@.take(i + 1) =~= b@.take(i as int) + seq![b@[i as int]]);
        }
        i = i + 1;
    }
    proof {
        lemma_lex_skip(a@, b@, i as int);
    }
    if a_len < b_len {
        proof {
            assert(a@.skip(i as int).len() == 0);
            assert(b@.skip(i as int).len() > 0);
        }
        KeyOrd::Less
    } else if a_len > b_len {
        proof {
            assert(b@.skip(i as int).len() == 0);
            assert(a@.skip(i as int).len() > 0);
        }
        KeyOrd::Greater
    } else {
        proof {
            assert(a@.skip(i as int) =~= b@.skip(i as int));
        }
        KeyOrd::Equal
    }
}

/// A sequence of `n` zero bytes: the padding of the final group.
pub open spec fn pad_zeros(n: int) -> Seq<u8> {
    Seq::new(n as nat, |i: int| 0u8)
}

/// The memcomparable encoding of a raw byte string, in groups of eight.
pub open spec fn enc_bytes(s: Seq<u8>) -> Seq<u8>
    decreases s.len(),
{
    if s.len() >= 8 {
        s.take(8) + seq![0xFFu8] + enc_bytes(s.skip(8))
    } else {
        s + pad_zeros(8 - s.len()) + seq![(0xF7 + s.len()) as u8]
    }
}

/// What a byte string decodes to, or `None` where no raw key encodes to it.
pub open spec fn dec_bytes(e: Seq<u8>) -> Option<Seq<u8>>
    decreases e.len(),
{
    if e.len() < 9 {
        Option::None
    } else if e[8] == 0xFF {
        match dec_bytes(e.skip(9)) {
            Option::Some(rest) => Option::Some(e.take(8) + rest),
            Option::None => Option::None,
        }
    } else if 0xF7 <= e[8] && e[8] < 0xFF {
        let r = e[8] - 0xF7;
        if e.len() == 9 && e.subrange(r as int, 8) == pad_zeros(8 - r) {
            Option::Some(e.take(r as int))
        } else {
            Option::None
        }
    } else {
        Option::None
    }
}

/// The encoding is nine bytes per started group of eight input bytes.
pub proof fn lemma_enc_len(s: Seq<u8>)
    ensures
        enc_bytes(s).len() == 9 * (s.len() / 8 + 1),
        enc_bytes(s).len() >= 9,
    decreases s.len(),
{
    if s.len() >= 8 {
        lemma_enc_len(s.skip(8));
    }
}

/// Decoding inverts encoding: every raw key comes back unchanged.
pub proof fn lemma_enc_dec(s: Seq<u8>)
    ensures
        dec_bytes(enc_bytes(s)) == Option::Some(s),
    decreases s.len(),
{
    let e = enc_bytes(s);
    if s.len() >= 8 {
        lemma_enc_dec(s.skip(8));
        lemma_enc_len(s.skip(8));
        assert(e[8] == 0xFF);
        assert(e.skip(9) =~= enc_bytes(s.skip(8)));
        assert(e.take(8) =~= s.take(8));
        assert(s.take(8) + s.skip(8) =~= s);
    } else {
        let r = s.len() as int;
        assert(e[8] == 0xF7 + r);
        assert(e.len() == 9);
        assert(e.subrange(r, 8) =~= pad_zeros(8 - r));
        assert(e.take(r) =~= s);
    }
}

/// The first index at which two byte strings differ; the shorter length
/// where one is a prefix of the other.
pub open spec fn mismatch(a: Seq<u8>, b: Seq<u8>) -> int
    decreases a.len(),
{
    if a.len() == 0 || b.len() == 0 {
        0
    } else if a[0] != b[0] {
        0
    } else {
        1 + mismatch(a.skip(1), b.skip(1))
    }
}

/// The mismatch index bounds: equal below it, different at it where both
/// strings reach it.
pub proof fn lemma_mismatch(a: Seq<u8>, b: Seq<u8>)
    ensures
        0 <= mismatch(a, b),
        mismatch(a, b) <= a.len(),
        mismatch(a, b) <= b.len(),
        a.take(mismatch(a, b)) == b.take(mismatch(a, b)),
        mismatch(a, b) < a.len() && mismatch(a, b) < b.len() ==> a[mismatch(a, b)] != b[mismatch(
            a,
            b,
        )],
    decreases a.len(),
{
    let m = mismatch(a, b);
    if a.len() == 0 || b.len() == 0 || a[0] != b[0] {
        assert(a.take(0) =~= b.take(0));
    } else {
        lemma_mismatch(a.skip(1), b.skip(1));
        let m1 = mismatch(a.skip(1), b.skip(1));
        assert forall|j: int| 0 <= j < m implies a.take(m)[j] == b.take(m)[j] by {
            if j > 0 {
                assert(a[j] == a.skip(1)[j - 1]);
                assert(b[j] == b.skip(1)[j - 1]);
                assert(a.skip(1).take(m1)[j - 1] == b.skip(1).take(m1)[j - 1]);
            }
        }
        assert(a.take(m) =~= b.take(m));
        if m < a.len() && m < b.len() {
            assert(a[m] == a.skip(1)[m1]);
            assert(b[m] == b.skip(1)[m1]);
        }
    }
}

/// Strings equal below an index where one is smaller sort in that order.
pub proof fn lemma_lex_lt_at(a: Seq<u8>, b: Seq<u8>, q: int)
    requires
        0 <= q < a.len(),
        q < b.len(),
        a.take(q) == b.take(q),
        a[q] < b[q],
    ensures
        lex_lt(a, b),
{
    lemma_lex_skip(a, b, q);
    assert(a.skip(q)[0] == a[q]);
    assert(b.skip(q)[0] == b[q]);
}

/// A proper prefix encodes to something strictly below its extensions.
pub proof fn lemma_enc_prefix_lt(s: Seq<u8>, l: Seq<u8>)
    requires
        s.len() < l.len(),
        s == l.take(s.len() as int),
    ensures
        lex_lt(enc_bytes(s), enc_bytes(l)),
    decreases s.len(),
{
    lemma_enc_len(s);
    lemma_enc_len(l);
    let es = enc_bytes(s);
    let el = enc_bytes(l);
    if s.len() >= 8 {
        assert(es.take(9) =~= el.take(9)) by {
            assert forall|j: int| 0 <= j < 9 implies es[j] == el[j] by {
                if j < 8 {
                    assert(es[j] == s[j]);
                    assert(el[j] == l[j]);
                    assert(s[j] == l.take(s.len() as int)[j]);
                }
            }
        }
        assert(s.skip(8) =~= l.skip(8).take(s.len() - 8));
        lemma_enc_prefix_lt(s.skip(8), l.skip(8));
        lemma_lex_skip(es, el, 9);
        assert(es.skip(9) =~= enc_bytes(s.skip(8)));
        assert(el.skip(9) =~= enc_bytes(l.skip(8)));
    } else {
        // The final group of `s` pads with zeros and closes with a marker
        // below every continuation marker of `l`.
        let q = mismatch(es, el);
        lemma_mismatch(es, el);
        assert(es[8] == 0xF7 + s.len());
        if l.len() >= 8 {
            assert(el[8] == 0xFF);
        } else {
            assert(el[8] == 0xF7 + l.len());
        }
        assert(es[8] != el[8]);
        assert(q <= 8) by {
            if q > 8 {
                assert(es.take(q)[8] == el.take(q)[8]);
            }
        }
        assert(q >= s.len()) by {
            if q < s.len() {
                assert(es[q] == s[q]);
                assert(el[q] == l[q]);
                assert(s[q] == l.take(s.len() as int)[q]);
            }
        }
        if q < 8 {
            assert(es[q] == 0);
            if q < l.len() {
                assert(el[q] == l[q]);
                assert(l[q] != 0);
                lemma_lex_lt_at(es, el, q);
            } else {
                assert(l.len() < 8);
                assert(el[q] == 0);
                assert(false);
            }
        } else {
            assert(es[8] < el[8]) by {
                if l.len() >= 8 {
                    assert(es[8] == 0xF7 + s.len() && s.len() < 8);
                } else {
                    assert(s.len() < l.len());
                }
            }
            lemma_lex_lt_at(es, el, 8);
        }
    }
}

/// A proper prefix sorts before its extensions.
pub proof fn lemma_prefix_lex_lt(s: Seq<u8>, l: Seq<u8>)
    requires
        s.len() < l.len(),
        s == l.take(s.len() as int),
    ensures
        lex_lt(s, l),
    decreases s.len(),
{
    if s.len() > 0 {
        assert(s[0] == l.take(s.len() as int)[0]);
        assert(s.skip(1) =~= l.skip(1).take(s.len() - 1));
        lemma_prefix_lex_lt(s.skip(1), l.skip(1));
    }
}

/// The encoding preserves the order of raw keys: the engine, which sorts
/// by encoded bytes, sees raw keys in their own lexicographic order.
pub proof fn lemma_enc_order(a: Seq<u8>, b: Seq<u8>)
    ensures
        lex_lt(enc_bytes(a), enc_bytes(b)) <==> lex_lt(a, b),
    decreases a.len(),
{
    lemma_enc_len(a);
    lemma_enc_len(b);
    let ea = enc_bytes(a);
    let eb = enc_bytes(b);
    let m = mismatch(a, b);
    lemma_mismatch(a, b);
    if m >= 8 {
        assert(a.len() >= 8 && b.len() >= 8);
        assert(ea.take(9) =~= eb.take(9)) by {
            assert forall|j: int| 0 <= j < 9 implies ea[j] == eb[j] by {
                if j < 8 {
                    assert(ea[j] == a[j]);
                    assert(eb[j] == b[j]);
                    assert(a.take(m)[j] == b.take(m)[j]);
                }
            }
        }
        lemma_lex_skip(ea, eb, 9);
        assert(ea.skip(9) =~= enc_bytes(a.skip(8)));
        assert(eb.skip(9) =~= enc_bytes(b.skip(8)));
        lemma_enc_order(a.skip(8), b.skip(8));
        assert(a.take(8) =~= b.take(8)) by {
            assert forall|j: int| 0 <= j < 8 implies a.take(8)[j] == b.take(8)[j] by {
                assert(a.take(m)[j] == b.take(m)[j]);
            }
        }
        lemma_lex_skip(a, b, 8);
    } else if m < a.len() && m < b.len() {
        assert(ea.take(m) =~= eb.take(m)) by {
            assert forall|j: int| 0 <= j < m implies ea[j] == eb[j] by {
                assert(ea[j] == a[j]);
                assert(eb[j] == b[j]);
                assert(a.take(m)[j] == b.take(m)[j]);
            }
        }
        assert(ea[m] == a[m]);
        assert(eb[m] == b[m]);
        lemma_lex_trichotomy(a, b);
        lemma_lex_trichotomy(ea, eb);
        if a[m] < b[m] {
            lemma_lex_lt_at(ea, eb, m);
            lemma_lex_lt_at(a, b, m);
        } else {
            assert(b.take(m) == a.take(m));
            lemma_lex_lt_at(eb, ea, m);
            lemma_lex_lt_at(b, a, m);
        }
    } else if a.len() == b.len() {
        assert(a.take(a.len() as int) =~= a);
        assert(b.take(b.len() as int) =~= b);
        assert(a == b);
        lemma_lex_trichotomy(a, b);
        lemma_lex_trichotomy(ea, eb);
    } else if a.len() < b.len() {
        assert(a.take(a.len() as int) =~= a);
        assert(a == b.take(a.len() as int));
        lemma_enc_prefix_lt(a, b);
        lemma_prefix_lex_lt(a, b);
        lemma_lex_trichotomy(ea, eb);
        lemma_lex_trichotomy(a, b);
    } else {
        assert(b.take(b.len() as int) =~= b);
        assert(b == a.take(b.len() as int));
        lemma_enc_prefix_lt(b, a);
        lemma_prefix_lex_lt(b, a);
        lemma_lex_trichotomy(ea, eb);
        lemma_lex_trichotomy(a, b);
    }
}

/// Encodes a raw key into its memcomparable form.
pub fn encode_bytes(key: &Vec<u8>) -> (r: Vec<u8>)
    ensures
        r@ == enc_bytes(key@),
{
    let mut out: Vec<u8> = Vec::new();
    let mut i: usize = 0;
    let len = key.len();
    proof {
        assert(key@.skip(0) =~= key@);
        assert(out@ + enc_bytes(key@) =~= enc_bytes(key@));
    }
    while len - i >= 8
        invariant
            0 <= i <= len,
            len == key@.len(),
            enc_bytes(key@) == out@ + enc_bytes(key@.skip(i as int)),
        decreases len - i,
    {
        let ghost pre = out@;
        let ghost tail = key@.skip(i as int);
        let mut j: usize = 0;
        while j < 8
            invariant
                0 <= j <= 8,
                i + 8 <= len,
                len == key@.len(),
                out@ == pre + key@.subrange(i as int, i + j),
            decreases 8 - j,
        {
            proof {
                assert(key@.subrange(i as int, i + j) + seq![key@[i + j]] =~= key@.subrange(
                    i as int,
                    i + j + 1,
                ));
            }
            out.push(key[i + j]);
            j = j + 1;
        }
        out.push(0xFF);
        proof {
            assert(tail.take(8) =~= key@.subrange(i as int, i + 8));
            assert(enc_bytes(tail) == tail.take(8) + seq![0xFFu8] + enc_bytes(tail.skip(8)));
            assert(tail.skip(8) =~= key@.skip(i + 8));
            assert(out@ =~= pre + tail.take(8) + seq![0xFFu8]);
            assert(out@ + enc_bytes(key@.skip(i + 8)) =~= pre + enc_bytes(tail));
        }
        i = i + 8;
    }
    let ghost pre = out@;
    let ghost tail = key@.skip(i as int);
    let rem = len - i;
    let mut j: usize = 0;
    while j < rem
        invariant
            0 <= j <= rem,
            rem == len - i,
            i + rem == len,
            len == key@.len(),
            out@ == pre + key@.subrange(i as int, i + j),
        decreases rem - j,
    {
        proof {
            assert(key@.subrange(i as int, i + j) + seq![key@[i + j]] =~= key@.subrange(
                i as int,
                i + j + 1,
            ));
        }
        out.push(key[i + j]);
        j = j + 1;
    }
    let mut pad: usize = rem;
    while pad < 8
        invariant
            rem <= pad <= 8,
            rem == len - i,
            i + rem == len,
            len == key@.len(),
            out@ == pre + key@.subrange(i as int, len as int) + pad_zeros(pad - rem),
        decreases 8 - pad,
    {
        proof {
            assert(pad_zeros(pad - rem) + seq![0u8] =~= pad_zeros(pad + 1 - rem));
            assert((pre + key@.subrange(i as int, len as int) + pad_zeros(pad - rem)) + seq![0u8]
                =~= pre + key@.subrange(i as int, len as int) + pad_zeros(pad + 1 - rem));
        }
        out.push(0u8);
        pad = pad + 1;
    }
    out.push(0xF7 + (rem as u8));
    proof {
        assert(tail =~= key@.subrange(i as int, len as int));
        assert(tail.len() == rem);
        assert(enc_bytes(tail) == tail + pad_zeros(8 - rem) + seq![(0xF7 + rem) as u8]);
        assert(out@ =~= pre + tail + pad_zeros(8 - rem) + seq![(0xF7 + rem) as u8]);
        assert(out@ =~= pre + enc_bytes(tail));
    }
    out
}

/// While decoding: what has been read so far, together with what the rest of
/// the input decodes to, determines what the whole input decodes to.
spec fn dec_step(e: Seq<u8>, done: Seq<u8>, i: int) -> bool {
    &&& (forall|rest: Seq<u8>|
        dec_bytes(e.skip(i)) == Option::Some(rest) ==> dec_bytes(e) == Option::Some(done + rest))
    &&& (dec_bytes(e.skip(i)) is None ==> dec_bytes(e) is None)
}

/// Decodes a memcomparable key; rejects byte strings no raw key encodes to.
pub fn decode_bytes(e: &Vec<u8>) -> (r: Option<Vec<u8>>)
    ensures
        match r {
            Option::Some(raw) => dec_bytes(e@) == Option::Some(raw@),
            Option::None => dec_bytes(e@) is None,
        },
{
    let mut out: Vec<u8> = Vec::new();
    let mut i: usize = 0;
    let len = e.len();
    proof {
        assert(e@.skip(0) =~= e@);
        assert forall|rest: Seq<u8>|
            dec_bytes(e@.skip(0)) == Option::Some(rest) implies dec_bytes(e@) == Option::Some(
            out@ + rest,
        ) by {
            assert(out@ + rest =~= rest);
        }
    }
    loop
        invariant
            0 <= i <= len,
            len == e@.len(),
            dec_step(e@, out@, i as int),
        decreases len - i,
    {
        let ghost tail = e@.skip(i as int);
        if len - i < 9 {
            proof {
                assert(dec_bytes(tail) is None);
            }
            return Option::None;
        }
        let marker = e[i + 8];
        proof {
            assert(tail[8] == marker);
        }
        if marker == 0xFF {
            let ghost pre = out@;
            let mut j: usize = 0;
            while j < 8
                invariant
                    0 <= j <= 8,
                    i + 9 <= len,
                    len == e@.len(),
                    out@ == pre + e@.subrange(i as int, i + j),
                decreases 8 - j,
            {
                proof {
                    assert(e@.subrange(i as int, i + j) + seq![e@[i + j]] =~= e@.subrange(
                        i as int,
                        i + j + 1,
                    ));
                }
                out.push(e[i + j]);
                j = j + 1;
            }
            proof {
                assert(tail.take(8) =~= e@.subrange(i as int, i + 8));
                assert(out@ == pre + tail.take(8));
                assert(tail.skip(9) =~= e@.skip(i + 9));
                assert forall|rest: Seq<u8>|
                    dec_bytes(e@.skip(i + 9)) == Option::Some(rest) implies dec_bytes(e@)
                    == Option::Some(out@ + rest) by {
                    assert(dec_bytes(tail) == Option::Some(tail.take(8) + rest));
                    assert(dec_bytes(e@) == Option::Some(pre + (tail.take(8) + rest)));
                    assert(pre + (tail.take(8) + rest) =~= out@ + rest);
                }
                assert(dec_bytes(e@.skip(i + 9)) is None ==> dec_bytes(e@) is None);
            }
            i = i + 9;
        } else if marker >= 0xF7 {
            let r = (marker - 0xF7) as usize;
            if len - i != 9 {
                proof {
                    assert(tail.len() != 9);
                    assert(dec_bytes(tail) is None);
                }
                return Option::None;
            }
            let mut j: usize = r;
            while j < 8
                invariant
                    r <= j <= 8,
                    i + 9 == len,
                    len == e@.len(),
                    r == marker - 0xF7,
                    0xF7 <= marker < 0xFF,
                    marker == e@[i + 8],
                    tail == e@.skip(i as int),
                    dec_step(e@, out@, i as int),
                    e@.subrange(i + r, i + j) == pad_zeros(j - r),
                decreases 8 - j,
            {
                if e[i + j] != 0 {
                    proof {
                        assert(tail.subrange(r as int, 8) =~= e@.subrange(i + r, i + 8));
                        assert(tail.subrange(r as int, 8)[j - r] == e@[i + j]);
                        assert(pad_zeros(8 - (r as int))[j - r] == 0u8);
                        assert(tail.subrange(r as int, 8) != pad_zeros(8 - (r as int)));
                        assert(tail[8] == marker);
                        assert(dec_bytes(tail) is None);
                    }
                    return Option::None;
                }
                proof {
                    assert(e@.subrange(i + r, i + j) + seq![e@[i + j]] =~= e@.subrange(
                        i + r,
                        i + j + 1,
                    ));
                    assert(pad_zeros(j - r) + seq![0u8] =~= pad_zeros(j + 1 - r));
                }
                j = j + 1;
            }
            let ghost pre = out@;
            let mut k: usize = 0;
            while k < r
                invariant
                    0 <= k <= r,
                    i + 9 == len,
                    r < 9,
                    len == e@.len(),
                    out@ == pre + e@.subrange(i as int, i + k),
                decreases r - k,
            {
                proof {
                    assert(e@.subrange(i as int, i + k) + seq![e@[i + k]] =~= e@.subrange(
                        i as int,
                        i + k + 1,
                    ));
                }
                out.push(e[i + k]);
                k = k + 1;
            }
            proof {
                assert(tail.subrange(r as int, 8) =~= e@.subrange(i + r, i + 8));
                assert(tail.subrange(r as int, 8) == pad_zeros(8 - (r as int)));
                assert(tail.len() == 9);
                assert(dec_bytes(tail) == Option::Some(tail.take(r as int)));
                assert(tail.take(r as int) =~= e@.subrange(i as int, i + r));
                assert(out@ == pre + tail.take(r as int));
                assert(dec_bytes(e@) == Option::Some(out@));
            }
            return Option::Some(out);
        } else {
            proof {
                assert(dec_bytes(tail) is None);
            }
            return Option::None;
        }
    }
}

} // verus!
