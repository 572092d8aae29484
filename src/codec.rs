//! LEB128 integers and length-prefixed strings, as principal records store them.
use vstd::prelude::*;

verus! {

pub open spec fn pow128(n: nat) -> nat
    decreases n,
{
    if n == 0 {
        1
    } else {
        128 * pow128((n - 1) as nat)
    }
}

/// The value of LEB128 groups: the low seven bits of each byte, least
/// significant group first.
pub open spec fn leb_value(s: Seq<u8>) -> nat
    decreases s.len(),
{
    if s.len() == 0 {
        0
    } else {
        leb_value(s.drop_last()) + (s.last() % 128) as nat * pow128((s.len() - 1) as nat)
    }
}

/// The index of the first byte below 0x80 from `pos` on, or the length of `b`.
pub open spec fn leb_stop(b: Seq<u8>, pos: int) -> int
    decreases b.len() - pos,
{
    if pos < 0 || pos >= b.len() {
        b.len() as int
    } else if b[pos] < 128 {
        pos
    } else {
        leb_stop(b, pos + 1)
    }
}

/// The integer read at `pos` and the position after it: at most `max_bytes`
/// bytes, the last one below 0x80, with a value of at most `max`.
pub open spec fn leb128_at(b: Seq<u8>, pos: int, max_bytes: int, max: u64) -> Option<(u64, int)> {
    let j = leb_stop(b, pos);
    if pos < 0 || j >= b.len() || j - pos >= max_bytes {
        None
    } else if leb_value(b.subrange(pos, j + 1)) <= max {
        Some((leb_value(b.subrange(pos, j + 1)) as u64, j + 1))
    } else {
        None
    }
}

proof fn lemma_stop_skip(b: Seq<u8>, pos: int, k: int)
    requires
        0 <= pos,
        0 <= k,
        pos + k <= b.len(),
        forall|i: int| pos <= i < pos + k ==> b[i] >= 128,
    ensures
        leb_stop(b, pos) == leb_stop(b, pos + k),
    decreases k,
{
    if k > 0 {
        lemma_stop_skip(b, pos + 1, k - 1);
    }
}

proof fn lemma_stop_ge(b: Seq<u8>, q: int)
    requires
        0 <= q <= b.len(),
    ensures
        q <= leb_stop(b, q) <= b.len(),
    decreases b.len() - q,
{
    if q < b.len() && b[q] >= 128 {
        lemma_stop_ge(b, q + 1);
    }
}

proof fn lemma_pow128_fits(n: nat)
    requires
        n <= 10,
    ensures
        pow128(n) <= pow128(10),
        pow128(10) == 1180591620717411303424,
    decreases 10 - n,
{
    reveal_with_fuel(pow128, 11);
    if n < 10 {
        lemma_pow128_fits(n + 1);
        assert(pow128(n + 1) == 128 * pow128(n));
    }
}

/// Reads a LEB128 integer of at most `max_bytes` (at most 10) bytes and value at
/// most `max`, at `pos`.
pub fn read_leb128(b: &[u8], pos: usize, max_bytes: usize, max: u64) -> (r: Option<(u64, usize)>)
    requires
        max_bytes <= 10,
    ensures
        match r {
            Some((v, next)) => leb128_at(b@, pos as int, max_bytes as int, max) == Some(
                (v, next as int),
            ),
            None => leb128_at(b@, pos as int, max_bytes as int, max) is None,
        },
{
    if pos >= b.len() {
        return None;
    }
    let mut acc: u128 = 0;
    let mut mult: u128 = 1;
    let mut k: usize = 0;
    proof {
        lemma_pow128_fits(0);
        assert(b@.subrange(pos as int, pos as int) =~= Seq::<u8>::empty());
    }
    while k < max_bytes
        invariant
            max_bytes <= 10,
            k <= max_bytes,
            pos < b@.len(),
            pos + k <= b@.len(),
            forall|i: int| pos <= i < pos + k ==> b@[i] >= 128,
            acc == leb_value(b@.subrange(pos as int, pos + k)),
            mult == pow128(k as nat),
            acc < mult,
        decreases max_bytes - k,
    {
        if k >= b.len() - pos {
            proof {
                lemma_stop_skip(b@, pos as int, k as int);
            }
            return None;
        }
        let byte = b[pos + k];
        let ghost prev = b@.subrange(pos as int, pos + k);
        let ghost cur = b@.subrange(pos as int, pos + k + 1);
        proof {
            assert(cur.drop_last() =~= prev);
            assert(cur.last() == byte);
            lemma_pow128_fits(k as nat);
            lemma_pow128_fits((k + 1) as nat);
            assert(pow128((k + 1) as nat) == 128 * pow128(k as nat));
            assert((byte % 128) as nat * mult <= 127 * mult) by (nonlinear_arith)
                requires
                    byte % 128 <= 127,
            ;
        }
        acc = acc + (byte % 128) as u128 * mult;
        if byte < 128 {
            proof {
                lemma_stop_skip(b@, pos as int, k as int);
                assert(leb_stop(b@, pos + k) == pos + k);
            }
            if acc <= max as u128 {
                return Some((acc as u64, pos + k + 1));
            } else {
                return None;
            }
        }
        mult = mult * 128;
        k = k + 1;
    }
    proof {
        lemma_stop_skip(b@, pos as int, k as int);
        lemma_stop_ge(b@, pos + k);
    }
    None
}

/// What `String::from_utf8` makes of some bytes: their text, or nothing when they
/// are not valid UTF-8.
pub uninterp spec fn utf8_text_of(b: Seq<u8>) -> Option<Seq<char>>;

/// Relies on `String::from_utf8`: the outcome depends on the bytes alone.
#[verifier::external_body]
fn utf8_text(b: &[u8]) -> (r: Option<String>)
    ensures
        match r {
            Some(s) => utf8_text_of(b@) == Some(s@),
            None => utf8_text_of(b@) is None,
        },
{
    String::from_utf8(b.to_vec()).ok()
}

/// The string stored at `pos` (a LEB128 byte length, then UTF-8 bytes) and the
/// position after it.
pub open spec fn string_at(b: Seq<u8>, pos: int) -> Option<(Seq<char>, int)> {
    match leb128_at(b, pos, 10, u64::MAX) {
        None => None,
        Some((n, p)) => if p + n <= b.len() {
            match utf8_text_of(b.subrange(p, p + n)) {
                Some(s) => Some((s, p + n)),
                None => None,
            }
        } else {
            None
        },
    }
}

/// Reads a length-prefixed string at `pos`.
pub fn deserialize_string(bytes: &[u8], pos: usize) -> (r: Option<(String, usize)>)
    ensures
        match r {
            Some((s, next)) => string_at(bytes@, pos as int) == Some((s@, next as int)),
            None => string_at(bytes@, pos as int) is None,
        },
{
    let (len, p) = match read_leb128(bytes, pos, 10, u64::MAX) {
        Some(x) => x,
        None => return None,
    };
    if p > bytes.len() || len > (bytes.len() - p) as u64 {
        return None;
    }
    let end = p + len as usize;
    match utf8_text(vstd::slice::slice_subrange(bytes, p, end)) {
        Some(s) => Some((s, end)),
        None => None,
    }
}

/// The LEB128 encoding of `v`.
pub open spec fn leb_encode(v: nat) -> Seq<u8>
    decreases v,
{
    if v < 128 {
        seq![v as u8]
    } else {
        seq![(v % 128 + 128) as u8] + leb_encode(v / 128)
    }
}

/// Appends the LEB128 encoding of `v`.
pub fn write_leb128(out: &mut Vec<u8>, v: u64)
    ensures
        final(out)@ == old(out)@ + leb_encode(v as nat),
{
    let mut x = v;
    let ghost start = out@;
    while x >= 128
        invariant
            start + leb_encode(v as nat) == out@ + leb_encode(x as nat),
        decreases x,
    {
        let ghost before = out@;
        out.push((x % 128 + 128) as u8);
        assert(leb_encode(x as nat) == seq![(x % 128 + 128) as u8] + leb_encode((x / 128) as nat));
        assert(out@ + leb_encode((x / 128) as nat) =~= before + leb_encode(x as nat));
        x = x / 128;
    }
    out.push(x as u8);
    assert(leb_encode(x as nat) == seq![x as u8]);
    assert(out@ =~= start + leb_encode(v as nat));
}

proof fn lemma_value_cons(x: u8, t: Seq<u8>)
    ensures
        leb_value(seq![x] + t) == (x % 128) as nat + 128 * leb_value(t),
    decreases t.len(),
{
    let s = seq![x] + t;
    assert(pow128(0) == 1);
    if t.len() == 0 {
        assert(s.drop_last() =~= Seq::<u8>::empty());
        assert(s.last() == x);
        assert(t =~= Seq::<u8>::empty());
        assert(leb_value(s) == leb_value(s.drop_last()) + (s.last() % 128) as nat * pow128(0));
    } else {
        let t2 = t.drop_last();
        lemma_value_cons(x, t2);
        assert(s.drop_last() =~= seq![x] + t2);
        assert(s.last() == t.last());
        let y = (t.last() % 128) as nat;
        let p = pow128((t.len() - 1) as nat);
        assert(pow128(t.len() as nat) == 128 * p);
        assert(leb_value(s) == leb_value(seq![x] + t2) + y * pow128(t.len() as nat));
        assert(leb_value(t) == leb_value(t2) + y * p);
        assert(y * (128 * p) == 128 * (y * p)) by (nonlinear_arith);
    }
}

/// The encoding of `v`: continuation bytes, then one final byte below 0x80,
/// standing for `v`, and no longer than `k` bytes when `v` is below `128^k`.
pub proof fn lemma_encode_shape(v: nat, k: nat)
    requires
        1 <= k,
        v < pow128(k),
    ensures
        leb_encode(v).len() >= 1,
        leb_encode(v).len() <= k,
        forall|i: int| 0 <= i < leb_encode(v).len() - 1 ==> #[trigger] leb_encode(v)[i] >= 128,
        leb_encode(v).last() < 128,
        leb_value(leb_encode(v)) == v,
    decreases v,
{
    let e = leb_encode(v);
    assert(pow128(0) == 1);
    if v < 128 {
        assert(e.drop_last() =~= Seq::<u8>::empty());
        assert(e.last() == v as u8);
        assert((v as u8) % 128 == v);
        assert(leb_value(e) == leb_value(e.drop_last()) + (e.last() % 128) as nat * pow128(0));
    } else {
        assert(k >= 2) by {
            if k == 1 {
                assert(pow128(1) == 128 * pow128(0));
            }
        }
        assert(pow128(k) == 128 * pow128((k - 1) as nat));
        assert(v / 128 < pow128((k - 1) as nat)) by (nonlinear_arith)
            requires
                v < 128 * pow128((k - 1) as nat),
        ;
        lemma_encode_shape(v / 128, (k - 1) as nat);
        let rest = leb_encode(v / 128);
        let x = (v % 128 + 128) as u8;
        assert(e == seq![x] + rest);
        lemma_value_cons(x, rest);
        assert(x % 128 == v % 128);
        assert(v == 128 * (v / 128) + v % 128);
        assert(forall|i: int| 1 <= i < e.len() ==> e[i] == rest[i - 1]);
    }
}

/// Reading an integer back where its encoding was written gives the integer and
/// the position after the encoding.
pub proof fn lemma_read_encoded(b: Seq<u8>, pos: int, v: nat, max_bytes: nat, max: u64)
    requires
        1 <= max_bytes,
        v < pow128(max_bytes),
        v <= max,
        0 <= pos,
        pos + leb_encode(v).len() <= b.len(),
        b.subrange(pos, pos + leb_encode(v).len()) == leb_encode(v),
    ensures
        leb128_at(b, pos, max_bytes as int, max) == Some((v as u64, pos + leb_encode(v).len())),
{
    let e = leb_encode(v);
    lemma_encode_shape(v, max_bytes);
    let n = e.len() as int;
    assert forall|i: int| pos <= i < pos + n - 1 implies b[i] >= 128 by {
        assert(b[i] == b.subrange(pos, pos + n)[i - pos]);
        assert(e[i - pos] >= 128);
    }
    lemma_stop_skip(b, pos, n - 1);
    assert(b[pos + n - 1] == e[n - 1]);
    assert(leb_stop(b, pos + n - 1) == pos + n - 1);
}

} // verus!
