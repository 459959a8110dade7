//! Persistence of the trained `(weight, bias)` pair as a small versioned
//! byte record: one version byte, then each value as a sign byte followed
//! by its magnitude in eight little-endian bytes.

use vstd::prelude::*;
use crate::fixed::{Fx, LIM};
use crate::model::Params;

verus! {

/// Format tag, the record's first byte.
pub const VERSION: u8 = 1;

/// The magnitude of a value, in micro-units, as a machine word.
pub open spec fn mag_of(v: int) -> u64
    recommends
        -(LIM as int) <= v <= LIM as int,
{
    if v >= 0 {
        v as u64
    } else {
        (-v) as u64
    }
}

/// Byte `k` (little-endian) of a word.
pub open spec fn byte_of(m: u64, k: u64) -> u8 {
    (m >> (8 * k)) as u8
}

/// Nine bytes for one signed value: its sign, then its magnitude.
pub open spec fn enc_val(v: int) -> Seq<u8> {
    let m = mag_of(v);
    seq![
        if v < 0 { 1u8 } else { 0u8 },
        byte_of(m, 0),
        byte_of(m, 1),
        byte_of(m, 2),
        byte_of(m, 3),
        byte_of(m, 4),
        byte_of(m, 5),
        byte_of(m, 6),
        byte_of(m, 7),
    ]
}

/// The whole record: version byte, then weight, then bias.
pub open spec fn enc_spec(w: int, b: int) -> Seq<u8> {
    seq![VERSION] + enc_val(w) + enc_val(b)
}

/// The word held little-endian in the eight bytes starting at `off`.
pub open spec fn word_at(s: Seq<u8>, off: int) -> u64
    recommends
        0 <= off,
        off + 8 <= s.len(),
{
    (s[off] as u64) | ((s[off + 1] as u64) << 8) | ((s[off + 2] as u64) << 16) | ((s[off + 3]
        as u64) << 24) | ((s[off + 4] as u64) << 32) | ((s[off + 5] as u64) << 40) | ((s[off + 6]
        as u64) << 48) | ((s[off + 7] as u64) << 56)
}

/// The signed value whose sign byte sits at `off`, magnitude following.
pub open spec fn val_at(s: Seq<u8>, off: int) -> int
    recommends
        0 <= off,
        off + 9 <= s.len(),
{
    if s[off] == 1 {
        -(word_at(s, off + 1) as int)
    } else {
        word_at(s, off + 1) as int
    }
}

/// What a record decodes to: the `(weight, bias)` micro-unit pair, or
/// `None` for any byte string that `encode` cannot have produced.
pub open spec fn dec_spec(s: Seq<u8>) -> Option<(int, int)> {
    if s.len() == 19 && s[0] == VERSION && s[1] <= 1 && s[10] <= 1 && word_at(s, 2) <= LIM as u64
        && word_at(s, 11) <= LIM as u64 {
        Some((val_at(s, 1), val_at(s, 10)))
    } else {
        None
    }
}

/// Reassembling a word from its eight little-endian bytes gives the word
/// back.
proof fn lemma_word_round_trip(m: u64)
    by (bit_vector)
    ensures
        ((m >> 0) as u8 as u64) | (((m >> 8) as u8 as u64) << 8) | (((m >> 16) as u8 as u64) << 16)
            | (((m >> 24) as u8 as u64) << 24) | (((m >> 32) as u8 as u64) << 32) | (((m >> 40)
            as u8 as u64) << 40) | (((m >> 48) as u8 as u64) << 48) | (((m >> 56) as u8 as u64)
            << 56) == m,
{
}

/// Saving then loading reproduces the exact parameter pair: decoding what
/// `enc_spec` produced gives back precisely the encoded values.
pub proof fn lemma_save_load_round_trip(w: int, b: int)
    requires
        -(LIM as int) <= w <= LIM as int,
        -(LIM as int) <= b <= LIM as int,
    ensures
        dec_spec(enc_spec(w, b)) == Some((w, b)),
{
    let s = enc_spec(w, b);
    assert(s.len() == 19);
    lemma_word_round_trip(mag_of(w));
    lemma_word_round_trip(mag_of(b));
    assert(word_at(s, 2) == mag_of(w));
    assert(word_at(s, 11) == mag_of(b));
    assert(val_at(s, 1) == w);
    assert(val_at(s, 10) == b);
}

/// Appends one signed value as its nine-byte form.
fn push_val(v: &mut Vec<u8>, x: i64)
    requires
        -LIM <= x <= LIM,
    ensures
        final(v)@ == old(v)@ + enc_val(x as int),
{
    let m: u64 = if x >= 0 {
        x as u64
    } else {
        (-x) as u64
    };
    assert(m == mag_of(x as int));
    v.push(if x < 0 { 1 } else { 0 });
    v.push((m >> 0) as u8);
    v.push((m >> 8) as u8);
    v.push((m >> 16) as u8);
    v.push((m >> 24) as u8);
    v.push((m >> 32) as u8);
    v.push((m >> 40) as u8);
    v.push((m >> 48) as u8);
    v.push((m >> 56) as u8);
    proof {
        assert(v@ =~= old(v)@ + enc_val(x as int));
    }
}

/// Encodes the parameters as the versioned record; the second clause is
/// the round trip: decoding the fresh record yields the pair itself.
pub fn encode(p: &Params) -> (r: Vec<u8>)
    requires
        p.wf(),
    ensures
        r@ == enc_spec(p.w_m(), p.b_m()),
        dec_spec(r@) == Some((p.w_m(), p.b_m())),
{
    let mut v: Vec<u8> = Vec::new();
    v.push(VERSION);
    push_val(&mut v, p.weight.micros);
    push_val(&mut v, p.bias.micros);
    proof {
        assert(v@ =~= enc_spec(p.w_m(), p.b_m()));
        lemma_save_load_round_trip(p.w_m(), p.b_m());
    }
    v
}

/// Reads the eight little-endian bytes starting at `off` back as a word.
fn read_word(bytes: &Vec<u8>, off: usize) -> (r: u64)
    requires
        off + 8 <= bytes@.len(),
    ensures
        r == word_at(bytes@, off as int),
{
    // pins the vector's length, so the byte offsets stay within usize
    let _n = bytes.len();
    (bytes[off] as u64) | ((bytes[off + 1] as u64) << 8) | ((bytes[off + 2] as u64) << 16) | ((
    bytes[off + 3] as u64) << 24) | ((bytes[off + 4] as u64) << 32) | ((bytes[off + 5] as u64)
        << 40) | ((bytes[off + 6] as u64) << 48) | ((bytes[off + 7] as u64) << 56)
}

/// Decodes a record, exactly as `dec_spec` states it: the parameters for a
/// well-formed record, `None` for everything else.
pub fn decode(bytes: &Vec<u8>) -> (r: Option<Params>)
    ensures
        dec_spec(bytes@) matches Some(wb) ==> (r matches Some(q) && q.w_m() == wb.0 && q.b_m()
            == wb.1 && q.wf()),
        dec_spec(bytes@) is None ==> r is None,
{
    if bytes.len() != 19 {
        return None;
    }
    if bytes[0] != VERSION {
        return None;
    }
    let sw = bytes[1];
    let sb = bytes[10];
    if sw > 1 || sb > 1 {
        return None;
    }
    let mw = read_word(bytes, 2);
    let mb = read_word(bytes, 11);
    if mw > LIM as u64 || mb > LIM as u64 {
        return None;
    }
    let wm: i64 = if sw == 1 {
        -(mw as i64)
    } else {
        mw as i64
    };
    let bm: i64 = if sb == 1 {
        -(mb as i64)
    } else {
        mb as i64
    };
    assert(wm as int == val_at(bytes@, 1));
    assert(bm as int == val_at(bytes@, 10));
    Some(Params { weight: Fx { micros: wm }, bias: Fx { micros: bm } })
}

} // verus!
