//! Variable-length 32-bit integer codec: each value is emitted as 7-bit
//! groups, little-end group first, with bit 7 of a byte marking that another
//! group follows. Values are reinterpreted as unsigned before encoding; no
//! zig-zag sign folding is applied.

use vstd::prelude::*;

use crate::error::SchemError;

verus! {

/// The byte groups of one 32-bit value, little-end group first.
pub open spec fn spec_encode_u32(v: u32) -> Seq<u8>
    decreases v,
{
    if v < 128 {
        seq![v as u8]
    } else {
        seq![(v % 128 + 128) as u8] + spec_encode_u32(v / 128)
    }
}

/// The byte stream of a whole value sequence, in order.
pub open spec fn spec_encode_varints(vs: Seq<i32>) -> Seq<u8>
    decreases vs.len(),
{
    if vs.len() == 0 {
        Seq::empty()
    } else {
        spec_encode_u32(vs[0] as u32) + spec_encode_varints(vs.drop_first())
    }
}

/// Decode one value whose groups start at `i`, with `shift` bits already
/// accumulated into `acc`. An error is a malformed stream: the data ran
/// out in the middle of a value, or a value spans more than 35
/// accumulated bits.
pub open spec fn spec_decode_one(data: Seq<u8>, i: int, shift: nat, acc: u32) -> Result<(u32, int),
    SchemError>
    decreases 36 - shift,
{
    if i < 0 || i >= data.len() || shift > 28 {
        Err(SchemError::TruncatedVarint)
    } else {
        let b = data[i];
        let acc2 = (acc | (((b & 0x7f) as u32) << (shift as u32))) as u32;
        if b & 0x80 == 0 {
            Ok((acc2, i + 1))
        } else if shift + 7 >= 35 {
            Err(SchemError::OversizedVarint)
        } else {
            spec_decode_one(data, i + 1, shift + 7, acc2)
        }
    }
}

/// Decode values from position `i` until `remaining` values are produced
/// or the data runs out at a value boundary. An error is a malformed
/// stream.
pub open spec fn spec_decode_varints(data: Seq<u8>, i: int, remaining: nat) -> Result<Seq<i32>,
    SchemError>
    decreases remaining,
{
    if remaining == 0 || i >= data.len() {
        Ok(Seq::empty())
    } else {
        match spec_decode_one(data, i, 0, 0) {
            Err(e) => Err(e),
            Ok((v, j)) => match spec_decode_varints(data, j, (remaining - 1) as nat) {
                Err(e) => Err(e),
                Ok(rest) => Ok(seq![v as i32] + rest),
            },
        }
    }
}

/// Once `remaining` covers everything the data can still hold, its exact
/// value no longer matters: every decoded value consumes at least one byte.
pub proof fn lemma_decode_saturates(data: Seq<u8>, i: int, r1: nat, r2: nat)
    requires
        0 <= i,
        r1 >= data.len() - i,
        r2 >= data.len() - i,
    ensures
        spec_decode_varints(data, i, r1) == spec_decode_varints(data, i, r2),
    decreases data.len() - i,
{
    if i < data.len() && r1 > 0 && r2 > 0 {
        match spec_decode_one(data, i, 0, 0) {
            Err(_) => {},
            Ok((v, j)) => {
                lemma_decode_one_advances(data, i, 0, 0);
                lemma_decode_saturates(data, j, (r1 - 1) as nat, (r2 - 1) as nat);
            },
        }
    }
}

/// A successful single-value decode moves forward and stays in bounds.
proof fn lemma_decode_one_advances(data: Seq<u8>, i: int, shift: nat, acc: u32)
    requires
        0 <= i,
    ensures
        match spec_decode_one(data, i, shift, acc) {
            Ok((v, j)) => i < j <= data.len(),
            Err(_) => true,
        },
    decreases 36 - shift,
{
    if 0 <= i < data.len() && shift <= 28 {
        let b = data[i];
        if b & 0x80 != 0 && shift + 7 < 35 {
            let acc2 = (acc | (((b & 0x7f) as u32) << (shift as u32))) as u32;
            lemma_decode_one_advances(data, i + 1, shift + 7, acc2);
        }
    }
}

/// Encode integers as a varint byte array. Each value emits the minimal
/// number of 7-bit groups, at least one even for zero.
pub fn encode_varints(values: &[i32]) -> (r: Vec<u8>)
    ensures
        r@ == spec_encode_varints(values@),
{
    let mut result: Vec<u8> = Vec::new();
    let mut idx: usize = 0;
    while idx < values.len()
        invariant
            idx <= values.len(),
            result@ == spec_encode_varints(values@.take(idx as int)),
        decreases values.len() - idx,
    {
        let mut v: u32 = values[idx] as u32;
        let ghost v0: u32 = v;
        let ghost base = result@;
        loop
            invariant_except_break
                base + spec_encode_u32(v0) == result@ + spec_encode_u32(v),
            ensures
                result@ == base + spec_encode_u32(v0),
            decreases v,
        {
            let byte = (v & 0x7f) as u8;
            proof {
                assert(v & 0x7f == v % 128) by (bit_vector);
                assert(v >> 7 == v / 128) by (bit_vector);
                assert(v % 128 + 128 < 256);
            }
            let next = v >> 7;
            if next != 0 {
                result.push(byte | 0x80);
                proof {
                    let b = byte;
                    assert(b == v % 128 ==> (b | 0x80) == v % 128 + 128) by (bit_vector);
                    assert(spec_encode_u32(v) == seq![(v % 128 + 128) as u8] + spec_encode_u32(v / 128));
                }
            } else {
                result.push(byte);
                proof {
                    assert(v < 128);
                    assert(spec_encode_u32(v) =~= seq![v as u8]);
                    assert(result@ =~= base + spec_encode_u32(v0));
                }
                break;
            }
            v = next;
        }
        idx = idx + 1;
        proof {
            lemma_spec_encode_take_step(values@, idx as int);
        }
    }
    proof {
        assert(values@.take(values@.len() as int) =~= values@);
    }
    result
}

proof fn lemma_spec_encode_take_step(vs: Seq<i32>, idx: int)
    requires
        0 < idx <= vs.len(),
    ensures
        spec_encode_varints(vs.take(idx)) == spec_encode_varints(vs.take(idx - 1))
            + spec_encode_u32(vs[idx - 1] as u32),
{
    lemma_spec_encode_push(vs.take(idx - 1), vs[idx - 1]);
    assert(vs.take(idx - 1).push(vs[idx - 1]) =~= vs.take(idx));
}

proof fn lemma_spec_encode_push(vs: Seq<i32>, v: i32)
    ensures
        spec_encode_varints(vs.push(v)) == spec_encode_varints(vs) + spec_encode_u32(v as u32),
    decreases vs.len(),
{
    if vs.len() == 0 {
        assert(vs.push(v)[0] == v);
        assert(vs.push(v).drop_first() =~= Seq::<i32>::empty());
        assert(spec_encode_varints(vs.push(v)) == spec_encode_u32(v as u32)
            + spec_encode_varints(Seq::<i32>::empty()));
        assert(spec_encode_u32(v as u32) + Seq::<u8>::empty() =~= spec_encode_u32(v as u32));
        assert(Seq::<u8>::empty() + spec_encode_u32(v as u32) =~= spec_encode_u32(v as u32));
    } else {
        lemma_spec_encode_push(vs.drop_first(), v);
        assert(vs.push(v).drop_first() =~= vs.drop_first().push(v));
        assert(vs.push(v)[0] == vs[0]);
        assert(spec_encode_varints(vs.push(v)) == spec_encode_u32(vs[0] as u32)
            + spec_encode_varints(vs.drop_first().push(v)));
        assert(spec_encode_u32(vs[0] as u32) + (spec_encode_varints(vs.drop_first())
            + spec_encode_u32(v as u32)) =~= (spec_encode_u32(vs[0] as u32)
            + spec_encode_varints(vs.drop_first())) + spec_encode_u32(v as u32));
    }
}

/// A subrange known to equal a concatenation splits into the two parts.
proof fn lemma_subrange_split(data: Seq<u8>, i: int, a: Seq<u8>, b: Seq<u8>)
    requires
        0 <= i,
        i + a.len() + b.len() <= data.len(),
        data.subrange(i, i + a.len() + b.len()) == a + b,
    ensures
        data.subrange(i, i + a.len() as int) == a,
        data.subrange(i + a.len() as int, i + a.len() + b.len()) == b,
{
    let whole = data.subrange(i, i + a.len() + b.len());
    assert(forall|k: int| 0 <= k < whole.len() ==> whole[k] == data[i + k]);
    assert forall|k: int| 0 <= k < a.len() implies data[i + k] == a[k] by {
        assert(whole[k] == (a + b)[k]);
    }
    assert forall|k: int| 0 <= k < b.len() implies data[i + a.len() + k] == b[k] by {
        assert(whole[a.len() + k] == (a + b)[a.len() + k]);
    }
    assert(data.subrange(i, i + a.len() as int) =~= a);
    assert(data.subrange(i + a.len() as int, i + a.len() + b.len()) =~= b);
}

/// Decode varint-encoded integers from a byte array, producing at most
/// `expected_count` values; stops early at a clean value boundary if the
/// data runs out. Fails on a stream that ends mid-value or on a value
/// spanning more than 35 accumulated bits.
pub fn decode_varints(data: &[u8], expected_count: usize) -> (r: Result<Vec<i32>, SchemError>)
    ensures
        match r {
            Ok(vals) => spec_decode_varints(data@, 0, expected_count as nat) == Ok::<_,
                SchemError>(vals@),
            Err(e) => spec_decode_varints(data@, 0, expected_count as nat) == Err::<Seq<i32>,
                _>(e),
        },
{
    let mut result: Vec<i32> = Vec::new();
    let mut i: usize = 0;
    while i < data.len() && result.len() < expected_count
        invariant
            i <= data.len(),
            result.len() <= expected_count,
            spec_decode_varints(data@, 0, expected_count as nat) == match spec_decode_varints(
                data@,
                i as int,
                (expected_count - result.len()) as nat,
            ) {
                Err(e) => Err::<Seq<i32>, SchemError>(e),
                Ok(rest) => Ok(result@ + rest),
            },
        decreases expected_count - result.len(),
    {
        let ghost i_entry = i as int;
        let ghost rem_entry = (expected_count - result.len()) as nat;
        let mut value: u32 = 0;
        let mut bit_offset: u32 = 0;
        let mut one: Result<u32, SchemError> = Err(SchemError::TruncatedVarint);
        loop
            invariant_except_break
                bit_offset <= 28,
                bit_offset % 7 == 0,
                i <= data.len(),
                spec_decode_one(data@, i_entry, 0, 0) == spec_decode_one(
                    data@,
                    i as int,
                    bit_offset as nat,
                    value,
                ),
            ensures
                i <= data.len(),
                match one {
                    Ok(v) => spec_decode_one(data@, i_entry, 0, 0) == Ok::<_, SchemError>((
                        v,
                        i as int,
                    )),
                    Err(e) => spec_decode_one(data@, i_entry, 0, 0) == Err::<(u32, int), _>(e),
                },
            decreases 36 - bit_offset,
        {
            if i >= data.len() {
                one = Err(SchemError::TruncatedVarint);
                break;
            }
            let byte = data[i];
            i = i + 1;
            value = value | (((byte & 0x7f) as u32) << bit_offset);
            if byte & 0x80 == 0 {
                one = Ok(value);
                break;
            }
            bit_offset = bit_offset + 7;
            if bit_offset >= 35 {
                one = Err(SchemError::OversizedVarint);
                break;
            }
        }
        match one {
            Ok(v) => {
                let ghost oldr = result@;
                result.push(#[verifier::truncate] (v as i32));
                proof {
                    assert(i_entry < data@.len());
                    assert(rem_entry >= 1);
                    let rest_opt = spec_decode_varints(data@, i as int, (rem_entry - 1) as nat);
                    if rest_opt is Ok {
                        assert(oldr + (seq![v as i32] + rest_opt.unwrap()) =~= result@
                            + rest_opt.unwrap());
                    }
                }
            },
            Err(e) => {
                return Err(e);
            },
        }
    }
    proof {
        assert(spec_decode_varints(data@, i as int, (expected_count - result.len()) as nat)
            == Ok::<_, SchemError>(Seq::<i32>::empty()));
        assert(result@ + Seq::<i32>::empty() =~= result@);
    }
    Ok(result)
}

/// One encoded value decodes back to itself, wherever it stands in a longer
/// stream: decoding at its first byte yields the value and stops exactly at
/// its last byte.
proof fn lemma_decode_one_encoded(data: Seq<u8>, i: int, shift: nat, acc: u32, v: u32)
    requires
        0 <= i,
        shift <= 28,
        shift % 7 == 0,
        (v << (shift as u32)) >> (shift as u32) == v,
        i + spec_encode_u32(v).len() <= data.len(),
        data.subrange(i, i + spec_encode_u32(v).len() as int) == spec_encode_u32(v),
    ensures
        spec_decode_one(data, i, shift, acc) == Ok::<_, SchemError>((
            (acc | (v << (shift as u32))) as u32,
            i + spec_encode_u32(v).len(),
        )),
    decreases v,
{
    let s = shift as u32;
    let enc = spec_encode_u32(v);
    if v < 128 {
        assert(enc =~= seq![v as u8]);
        assert(enc.len() == 1);
        assert(data.subrange(i, i + 1)[0] == data[i]);
        assert(data[i] == v as u8);
        assert(v < 128 ==> ((v as u8) & 0x80) == 0 && (((v as u8) & 0x7f) as u32) == v)
            by (bit_vector);
    } else {
        let b0: u8 = (v % 128 + 128) as u8;
        let v2 = v / 128;
        let enc2 = spec_encode_u32(v2);
        assert(enc == seq![b0] + enc2);
        lemma_subrange_split(data, i, seq![b0], enc2);
        assert(data.subrange(i, i + 1)[0] == data[i]);
        assert(data[i] == b0);
        assert({
            let b = (v % 128 + 128) as u8;
            v >= 128 ==> (b & 0x80) != 0 && ((b & 0x7f) as u32) == v % 128
        }) by (bit_vector);
        // 35-bit guard is never hit on encoded data: shift 28 would need
        // v >= 128 while only 4 value bits survive the shift.
        assert(v >= 128 && (v << s) >> s == v && s <= 28 && s % 7 == 0 ==> s <= 21)
            by (bit_vector);
        let acc2 = (acc | (((v % 128) as u32) << s)) as u32;
        assert(v >= 128 ==> v / 128 < v) by (bit_vector);
        assert((v << s) >> s == v && s <= 21 && v >= 128 ==> ((v / 128) << ((s + 7) as u32)) >> ((
        s + 7) as u32) == v / 128) by (bit_vector);
        lemma_decode_one_encoded(data, i + 1, shift + 7, acc2, v2);
        assert((v << s) >> s == v && s <= 21 ==> ((acc | (((v % 128) as u32) << s)) | ((v / 128)
            << ((s + 7) as u32))) == (acc | (v << s))) by (bit_vector);
        assert(spec_decode_one(data, i, shift, acc) == spec_decode_one(data, i + 1, shift + 7, acc2));
    }
}

/// An encoded stream decodes back to the values it was built from.
proof fn lemma_decode_encoded(data: Seq<u8>, i: int, vs: Seq<i32>)
    requires
        0 <= i <= data.len(),
        data.subrange(i, data.len() as int) == spec_encode_varints(vs),
    ensures
        spec_decode_varints(data, i, vs.len()) == Ok::<_, SchemError>(vs),
    decreases vs.len(),
{
    if vs.len() == 0 {
        assert(data.subrange(i, data.len() as int).len() == 0);
        assert(vs =~= Seq::<i32>::empty());
    } else {
        let v = vs[0] as u32;
        let enc = spec_encode_u32(v);
        let rest = spec_encode_varints(vs.drop_first());
        assert(spec_encode_varints(vs) == enc + rest);
        lemma_encode_u32_len(v);
        assert(i + enc.len() + rest.len() == data.len());
        lemma_subrange_split(data, i, enc, rest);
        assert((v << 0u32) >> 0u32 == v) by (bit_vector);
        lemma_decode_one_encoded(data, i, 0, 0, v);
        assert((0u32 | (v << 0u32)) == v) by (bit_vector);
        let j = i + enc.len();
        lemma_decode_encoded(data, j as int, vs.drop_first());
        assert(i < data.len());
        let x: i32 = vs[0];
        assert(((x as u32) as i32) == x) by (bit_vector);
        assert(seq![vs[0]] + vs.drop_first() =~= vs);
    }
}

proof fn lemma_encode_u32_len(v: u32)
    ensures
        1 <= spec_encode_u32(v).len(),
    decreases v,
{
    if v >= 128 {
        lemma_encode_u32_len(v / 128);
    }
}

/// Round-trip law: any finite sequence of 32-bit values, encoded and then
/// decoded with its own length as the expected count, comes back unchanged.
pub proof fn lemma_varint_round_trip(vs: Seq<i32>)
    ensures
        spec_decode_varints(spec_encode_varints(vs), 0, vs.len()) == Ok::<_, SchemError>(vs),
{
    let data = spec_encode_varints(vs);
    assert(data.subrange(0, data.len() as int) =~= data);
    lemma_decode_encoded(data, 0, vs);
}

} // verus!
