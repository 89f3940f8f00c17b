//! Base-128 varints, the integer encoding of the wire form.
use vstd::prelude::*;
use vstd::slice::slice_subrange;

verus! {

/// The base-128 varint of `v`: seven bits per byte, low group first, the
/// high bit set on every byte but the last.
pub open spec fn varint_bytes(v: u64) -> Seq<u8>
    decreases v,
{
    if v < 128 {
        seq![v as u8]
    } else {
        seq![(v % 128 + 128) as u8] + varint_bytes(v / 128)
    }
}

/// `s` holds the varint of `v` from index `pos` on.
pub open spec fn varint_at(s: Seq<u8>, pos: int, v: u64) -> bool {
    &&& 0 <= pos
    &&& pos + varint_bytes(v).len() <= s.len()
    &&& s.subrange(pos, pos + varint_bytes(v).len()) == varint_bytes(v)
}

spec fn pow128(k: nat) -> nat
    decreases k,
{
    if k == 0 {
        1
    } else {
        128 * pow128((k - 1) as nat)
    }
}

proof fn lemma_varint_len_pow(v: u64, k: nat)
    requires
        v < pow128(k),
        k >= 1,
    ensures
        varint_bytes(v).len() <= k,
    decreases k,
{
    if v >= 128 {
        if k == 1 {
            assert(pow128(0) == 1);
        } else {
            let p = pow128((k - 1) as nat);
            assert(v / 128 < p) by (nonlinear_arith)
                requires
                    v < 128 * p,
            ;
            lemma_varint_len_pow(v / 128, (k - 1) as nat);
        }
    }
}

/// A varint takes one to ten bytes.
pub proof fn lemma_varint_len(v: u64)
    ensures
        1 <= varint_bytes(v).len() <= 10,
        v < 128 ==> varint_bytes(v).len() == 1,
{
    reveal_with_fuel(pow128, 11);
    assert(pow128(10) > u64::MAX);
    lemma_varint_len_pow(v, 10);
}

/// Relies on prost::encoding::encode_varint: it appends the base-128 varint
/// of the value to the buffer.
#[verifier::external_body]
fn put_varint(v: u64, buf: &mut Vec<u8>)
    ensures
        final(buf)@ == old(buf)@ + varint_bytes(v),
{
    prost::encoding::encode_varint(v, buf)
}

/// Relies on prost::encoding::decode_varint: on success it has consumed at
/// least one byte from the front and hands back the rest; where the front is
/// the varint of some value, it reads that value and consumes exactly it.
#[verifier::external_body]
fn read_varint(bytes: &[u8]) -> (r: Option<(u64, &[u8])>)
    ensures
        r.is_some() ==> {
            let rest = r.unwrap().1@;
            rest.len() < bytes@.len() && rest == bytes@.skip(bytes@.len() - rest.len())
        },
        forall|v: u64|
            #[trigger] varint_at(bytes@, 0, v) ==> r.is_some() && r.unwrap().0 == v
                && r.unwrap().1@ == bytes@.skip(varint_bytes(v).len() as int),
{
    let mut rest = bytes;
    match prost::encoding::decode_varint(&mut rest) {
        Ok(v) => Some((v, rest)),
        Err(_) => None,
    }
}

/// Appends the varint of `v` to `buf`.
pub fn write_varint(v: u64, buf: &mut Vec<u8>)
    ensures
        final(buf)@ == old(buf)@ + varint_bytes(v),
{
    put_varint(v, buf)
}

/// Reads the varint that starts at `pos`. Only the shortest form of a value
/// is accepted, so a success means that `b` holds exactly the varint of the
/// value from `pos` to the returned end, and such a varint is always found.
pub fn parse_varint(b: &[u8], pos: usize) -> (r: Option<(u64, usize)>)
    requires
        pos <= b@.len(),
    ensures
        r matches Some((v, end)) ==> pos < end <= b@.len() && varint_at(b@, pos as int, v) && end
            == pos + varint_bytes(v).len(),
        forall|v: u64| #[trigger]
            varint_at(b@, pos as int, v) ==> r == Some((v, (pos + varint_bytes(v).len()) as usize)),
{
    let tail = slice_subrange(b, pos, b.len());
    proof {
        assert forall|v: u64| #[trigger] varint_at(b@, pos as int, v) implies varint_at(tail@, 0, v) by {
            assert(tail@.subrange(0, varint_bytes(v).len() as int) =~= b@.subrange(
                pos as int,
                pos + varint_bytes(v).len(),
            ));
        }
    }
    match read_varint(tail) {
        None => None,
        Some((v, rest)) => {
            let end = b.len() - rest.len();
            proof {
                assert forall|w: u64| #[trigger] varint_at(b@, pos as int, w) implies w == v && end
                    == pos + varint_bytes(w).len() by {
                    assert(varint_at(tail@, 0, w));
                }
            }
            let mut enc: Vec<u8> = Vec::new();
            put_varint(v, &mut enc);
            assert(enc@ =~= varint_bytes(v));
            proof {
                lemma_varint_len(v);
            }
            if enc.len() != end - pos {
                return None;
            }
            let mut i: usize = 0;
            while i < enc.len()
                invariant
                    enc@ == varint_bytes(v),
                    pos + enc@.len() == end <= b@.len(),
                    i <= enc@.len(),
                    forall|j: int| 0 <= j < i ==> b@[pos + j] == enc@[j],
                    forall|w: u64| #[trigger] varint_at(b@, pos as int, w) ==> w == v,
                decreases enc@.len() - i,
            {
                if b[pos + i] != enc[i] {
                    proof {
                        if varint_at(b@, pos as int, v) {
                            assert(b@.subrange(pos as int, end as int)[i as int] == b@[pos + i]);
                        }
                    }
                    return None;
                }
                i = i + 1;
            }
            assert(b@.subrange(pos as int, end as int) =~= varint_bytes(v));
            Some((v, end))
        },
    }
}

/// No byte string starts with the varints of two different values.
pub proof fn lemma_varint_unique(s: Seq<u8>, v: u64, w: u64)
    requires
        varint_at(s, 0, v),
        varint_at(s, 0, w),
    ensures
        v == w,
    decreases v,
{
    let bv = varint_bytes(v);
    let bw = varint_bytes(w);
    assert(s[0] == s.subrange(0, bv.len() as int)[0]);
    assert(s[0] == s.subrange(0, bw.len() as int)[0]);
    if v >= 128 && w >= 128 {
        let t = s.skip(1);
        let tv = varint_bytes(v / 128);
        let tw = varint_bytes(w / 128);
        assert(bv =~= seq![(v % 128 + 128) as u8] + tv);
        assert(bw =~= seq![(w % 128 + 128) as u8] + tw);
        assert(bv.subrange(1, bv.len() as int) =~= tv);
        assert(bw.subrange(1, bw.len() as int) =~= tw);
        assert(s.subrange(0, bv.len() as int) == bv);
        assert(s.subrange(0, bw.len() as int) == bw);
        assert(t.subrange(0, tv.len() as int) =~= s.subrange(0, bv.len() as int).subrange(1, bv.len() as int));
        assert(t.subrange(0, tw.len() as int) =~= s.subrange(0, bw.len() as int).subrange(1, bw.len() as int));
        lemma_varint_unique(t, v / 128, w / 128);
    }
}

} // verus!
