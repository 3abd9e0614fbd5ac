//! The byte form of code: one byte for the opcode, followed, where the
//! opcode takes an operand, by the operand as eight bytes, least
//! significant first, in two's complement.
use vstd::prelude::*;
use crate::vm::bytecode::{ByteCode, Inst};

verus! {

/// 2^64, the number of values that eight bytes can hold.
pub open spec fn word_range() -> int {
    0x1_0000_0000_0000_0000
}

/// The `n` low bytes of a natural number, least significant first.
pub open spec fn le_bytes(u: int, n: nat) -> Seq<u8>
    decreases n,
{
    if n == 0 {
        Seq::empty()
    } else {
        seq![(u % 256) as u8] + le_bytes(u / 256, (n - 1) as nat)
    }
}

/// The natural number that bytes spell, least significant first.
pub open spec fn le_value(bytes: Seq<u8>) -> int
    decreases bytes.len(),
{
    if bytes.len() == 0 {
        0
    } else {
        bytes[0] as int + 256 * le_value(bytes.drop_first())
    }
}

/// The eight bytes of an operand.
pub open spec fn operand_bytes(d: i64) -> Seq<u8> {
    le_bytes(
        if d >= 0 {
            d as int
        } else {
            d + word_range()
        },
        8,
    )
}

/// The operand that eight bytes spell.
pub open spec fn operand_value(bytes: Seq<u8>) -> i64 {
    let u = le_value(bytes);
    if u < 0x8000_0000_0000_0000 {
        u as i64
    } else {
        (u - word_range()) as i64
    }
}

/// The bytes of one instruction.
pub open spec fn encode_inst(i: Inst) -> Seq<u8> {
    seq![i.inst.spec_to_u8()] + match i.data {
        Some(d) => operand_bytes(d),
        None => Seq::empty(),
    }
}

/// The bytes of a sequence of instructions: those of each, in order.
pub open spec fn encode(code: Seq<Inst>) -> Seq<u8>
    decreases code.len(),
{
    if code.len() == 0 {
        Seq::empty()
    } else {
        encode_inst(code[0]) + encode(code.drop_first())
    }
}

/// The instructions that bytes spell, or `None` where a byte that should be
/// an opcode is none, or an operand is cut short.
pub open spec fn decode(bytes: Seq<u8>) -> Option<Seq<Inst>>
    decreases bytes.len(),
{
    if bytes.len() == 0 {
        Some(Seq::empty())
    } else {
        match ByteCode::spec_from_u8(bytes[0]) {
            None => None,
            Some(op) => if op.spec_has_operand() {
                if bytes.len() < 9 {
                    None
                } else {
                    match decode(bytes.skip(9)) {
                        None => None,
                        Some(rest) => Some(
                            seq![
                                Inst {
                                    inst: op,
                                    data: Some(operand_value(bytes.subrange(1, 9))),
                                },
                            ] + rest,
                        ),
                    }
                }
            } else {
                match decode(bytes.skip(1)) {
                    None => None,
                    Some(rest) => Some(seq![Inst { inst: op, data: None }] + rest),
                }
            },
        }
    }
}

/// Whether every instruction of the sequence is well formed.
pub open spec fn all_well_formed(code: Seq<Inst>) -> bool {
    forall|i: int| 0 <= i < code.len() ==> (#[trigger] code[i]).well_formed()
}

proof fn lemma_le_bytes_len(u: int, n: nat)
    ensures
        le_bytes(u, n).len() == n,
    decreases n,
{
    if n > 0 {
        lemma_le_bytes_len(u / 256, (n - 1) as nat);
    }
}

/// 256 to the power `n`.
pub open spec fn pow256(n: nat) -> int
    decreases n,
{
    if n == 0 {
        1
    } else {
        256 * pow256((n - 1) as nat)
    }
}

proof fn lemma_le_value_of_bytes(u: int, n: nat)
    requires
        0 <= u < pow256(n),
    ensures
        le_value(le_bytes(u, n)) == u,
    decreases n,
{
    if n > 0 {
        let rest = le_bytes(u / 256, (n - 1) as nat);
        let all = le_bytes(u, n);
        lemma_le_bytes_len(u / 256, (n - 1) as nat);
        assert(all.drop_first() =~= rest);
        lemma_le_value_of_bytes(u / 256, (n - 1) as nat);
    }
}

proof fn lemma_le_value_bound(bytes: Seq<u8>)
    ensures
        0 <= le_value(bytes) < pow256(bytes.len()),
    decreases bytes.len(),
{
    if bytes.len() > 0 {
        lemma_le_value_bound(bytes.drop_first());
    }
}

proof fn lemma_le_bytes_of_value(bytes: Seq<u8>)
    ensures
        le_bytes(le_value(bytes), bytes.len()) == bytes,
    decreases bytes.len(),
{
    if bytes.len() > 0 {
        let rest = bytes.drop_first();
        lemma_le_bytes_of_value(rest);
        lemma_le_value_bound(rest);
        let u = le_value(bytes);
        assert(u % 256 == bytes[0] as int);
        assert(u / 256 == le_value(rest));
        assert(le_bytes(u, bytes.len()) =~= bytes);
    } else {
        assert(le_bytes(le_value(bytes), bytes.len()) =~= bytes);
    }
}

proof fn lemma_pow256_8()
    ensures
        pow256(8) == word_range(),
{
    reveal_with_fuel(pow256, 9);
}

/// Reading the bytes of an operand gives the operand back.
pub proof fn lemma_operand_round_trip(d: i64)
    ensures
        operand_bytes(d).len() == 8,
        operand_value(operand_bytes(d)) == d,
{
    let u: int = if d >= 0 {
        d as int
    } else {
        d + word_range()
    };
    lemma_pow256_8();
    lemma_le_bytes_len(u, 8);
    lemma_le_value_of_bytes(u, 8);
}

/// Writing the operand that eight bytes spell gives the bytes back.
pub proof fn lemma_bytes_round_trip(bytes: Seq<u8>)
    requires
        bytes.len() == 8,
    ensures
        operand_bytes(operand_value(bytes)) == bytes,
{
    lemma_pow256_8();
    lemma_le_value_bound(bytes);
    lemma_le_bytes_of_value(bytes);
}

proof fn lemma_encode_push(code: Seq<Inst>, x: Inst)
    ensures
        encode(code.push(x)) == encode(code) + encode_inst(x),
    decreases code.len(),
{
    if code.len() == 0 {
        let one = code.push(x);
        assert(one.drop_first() =~= Seq::<Inst>::empty());
        assert(encode(one.drop_first()) =~= Seq::<u8>::empty());
        assert(encode(code) =~= Seq::<u8>::empty());
        assert(encode(one) == encode_inst(one[0]) + encode(one.drop_first()));
        assert(encode(one) =~= encode(code) + encode_inst(x));
    } else {
        lemma_encode_push(code.drop_first(), x);
        let longer = code.push(x);
        assert(longer.drop_first() =~= code.drop_first().push(x));
        assert(longer[0] == code[0]);
        assert(encode(longer) == encode_inst(code[0]) + encode(longer.drop_first()));
        assert(encode(code) == encode_inst(code[0]) + encode(code.drop_first()));
        assert(encode(longer) =~= encode(code) + encode_inst(x));
    }
}

/// Decoding the bytes of well-formed instructions gives the instructions
/// back: opcodes and operands alike.
pub proof fn lemma_decode_encode(code: Seq<Inst>)
    requires
        all_well_formed(code),
    ensures
        decode(encode(code)) == Some(code),
    decreases code.len(),
{
    if code.len() > 0 {
        let first = code[0];
        let rest = code.drop_first();
        let bytes = encode(code);
        assert(first.well_formed());
        assert(all_well_formed(rest)) by {
            assert forall|i: int| 0 <= i < rest.len() implies (#[trigger] rest[i]).well_formed() by {
                assert(rest[i] == code[i + 1]);
            }
        }
        lemma_decode_encode(rest);
        first.inst.lemma_byte_round_trip();
        assert(bytes[0] == first.inst.spec_to_u8());
        match first.data {
            Some(d) => {
                lemma_operand_round_trip(d);
                assert(bytes.subrange(1, 9) =~= operand_bytes(d));
                assert(bytes.skip(9) =~= encode(rest));
                assert(seq![first] + rest =~= code);
            },
            None => {
                assert(bytes.skip(1) =~= encode(rest));
                assert(seq![first] + rest =~= code);
            },
        }
    }
}

/// Bytes that decode are the encoding of what they decode to, and what they
/// decode to is well formed.
pub proof fn lemma_encode_decode(bytes: Seq<u8>)
    requires
        decode(bytes) is Some,
    ensures
        encode(decode(bytes).unwrap()) == bytes,
        all_well_formed(decode(bytes).unwrap()),
    decreases bytes.len(),
{
    if bytes.len() > 0 {
        let op = ByteCode::spec_from_u8(bytes[0]).unwrap();
        let code = decode(bytes).unwrap();
        if op.spec_has_operand() {
            let tail = bytes.skip(9);
            lemma_encode_decode(tail);
            let rest = decode(tail).unwrap();
            lemma_bytes_round_trip(bytes.subrange(1, 9));
            assert(code.drop_first() =~= rest);
            assert(encode(code) =~= bytes);
        } else {
            let tail = bytes.skip(1);
            lemma_encode_decode(tail);
            let rest = decode(tail).unwrap();
            assert(code.drop_first() =~= rest);
            assert(encode(code) =~= bytes);
        }
    } else {
        assert(encode(decode(bytes).unwrap()) =~= bytes);
    }
}

/// Appends the eight bytes of an operand.
fn push_operand(out: &mut Vec<u8>, d: i64)
    ensures
        final(out)@ == old(out)@ + operand_bytes(d),
{
    let mut u: u64 = if d >= 0 {
        d as u64
    } else {
        ((d - i64::MIN) as u64) + 0x8000_0000_0000_0000u64
    };
    let ghost start = u as int;
    let mut k: usize = 0;
    proof {
        lemma_pow256_8();
    }
    while k < 8
        invariant
            k <= 8,
            out@ + le_bytes(u as int, (8 - k) as nat) == old(out)@ + le_bytes(start, 8),
        decreases 8 - k,
    {
        let ghost before = out@;
        out.push((u % 256) as u8);
        proof {
            assert(le_bytes(u as int, (8 - k) as nat) == seq![(u as int % 256) as u8] + le_bytes(
                u as int / 256,
                (8 - k - 1) as nat,
            ));
            assert(out@ + le_bytes(u as int / 256, (8 - k - 1) as nat) =~= before + le_bytes(
                u as int,
                (8 - k) as nat,
            ));
        }
        u = u / 256;
        k += 1;
    }
    assert(out@ + le_bytes(u as int, 0) =~= out@);
}

/// Reads the operand that starts at `at`.
fn read_operand(v: &Vec<u8>, at: usize) -> (d: i64)
    requires
        at + 8 <= v.len(),
    ensures
        d == operand_value(v@.subrange(at as int, at + 8)),
{
    let ghost bytes = v@.subrange(at as int, at + 8);
    let mut u: u64 = 0;
    let mut k: usize = 8;
    proof {
        lemma_pow256_8();
        reveal_with_fuel(pow256, 9);
        assert(bytes.subrange(8, 8) =~= Seq::<u8>::empty());
    }
    while k > 0
        invariant
            k <= 8,
            at + 8 <= v.len(),
            bytes == v@.subrange(at as int, at + 8),
            u == le_value(bytes.subrange(k as int, 8)),
            0 <= u < pow256((8 - k) as nat),
        decreases k,
    {
        k -= 1;
        proof {
            let cur = bytes.subrange(k as int, 8);
            assert(cur.drop_first() =~= bytes.subrange(k + 1, 8));
            assert(cur[0] == v@[at + k]);
            reveal_with_fuel(pow256, 9);
        }
        u = u * 256 + v[at + k] as u64;
    }
    assert(bytes.subrange(0, 8) =~= bytes);
    if u < 0x8000_0000_0000_0000u64 {
        u as i64
    } else {
        ((u - 0x8000_0000_0000_0000u64) as i64) + i64::MIN
    }
}

/// Writes instructions out as bytes. The bytes of well-formed instructions
/// read back as the same instructions.
pub fn assemble_u8(code: &Vec<Inst>) -> (r: Vec<u8>)
    ensures
        r@ == encode(code@),
        all_well_formed(code@) ==> decode(r@) == Some(code@),
{
    proof {
        if all_well_formed(code@) {
            lemma_decode_encode(code@);
        }
    }
    let mut out: Vec<u8> = Vec::new();
    let mut i: usize = 0;
    assert(code@.take(0) =~= Seq::<Inst>::empty());
    while i < code.len()
        invariant
            i <= code.len(),
            out@ == encode(code@.take(i as int)),
        decreases code.len() - i,
    {
        let inst = code[i];
        proof {
            lemma_encode_push(code@.take(i as int), inst);
            assert(code@.take(i as int).push(inst) =~= code@.take(i + 1));
        }
        out.push(inst.inst.to_u8());
        let ghost mid = out@;
        match inst.data {
            Some(d) => {
                push_operand(&mut out, d);
                assert(out@ =~= encode(code@.take(i as int)) + encode_inst(inst));
            },
            None => {
                assert(out@ =~= encode(code@.take(i as int)) + encode_inst(inst));
            },
        }
        i += 1;
    }
    assert(code@.take(code.len() as int) =~= code@);
    out
}

/// Reads bytes back into instructions. The result is `None` exactly where
/// the bytes spell no instruction sequence: a byte in the place of an opcode
/// encodes none, or the bytes end inside an operand. Instructions that are
/// read are well formed, and writing them out again gives the same bytes:
/// the same opcodes and operands in the same order.
pub fn disassemble_u8(v: &Vec<u8>) -> (r: Option<Vec<Inst>>)
    ensures
        r matches Some(code) ==> decode(v@) == Some(code@),
        r is None ==> decode(v@) is None,
        r matches Some(code) ==> all_well_formed(code@) && encode(code@) == v@,
{
    proof {
        if decode(v@) is Some {
            lemma_encode_decode(v@);
        }
    }
    let mut out: Vec<Inst> = Vec::new();
    let mut idx: usize = 0;
    assert(v@.skip(0) =~= v@);
    while idx < v.len()
        invariant
            idx <= v.len(),
            decode(v@) == match decode(v@.skip(idx as int)) {
                Some(rest) => Some(out@ + rest),
                None => None,
            },
        decreases v.len() - idx,
    {
        let ghost here = v@.skip(idx as int);
        let ghost before = out@;
        assert(here[0] == v@[idx as int]);
        match ByteCode::from_u8(v[idx]) {
            None => {
                return None;
            },
            Some(op) => {
                if op.has_operand() {
                    if v.len() - idx < 9 {
                        return None;
                    }
                    let d = read_operand(v, idx + 1);
                    let inst = Inst { inst: op, data: Some(d) };
                    out.push(inst);
                    proof {
                        assert(here.subrange(1, 9) =~= v@.subrange(idx + 1, idx + 9));
                        assert(here.skip(9) =~= v@.skip(idx + 9));
                        match decode(here.skip(9)) {
                            Some(rest) => {
                                assert(before + (seq![inst] + rest) =~= out@ + rest);
                            },
                            None => {},
                        }
                    }
                    idx += 9;
                } else {
                    let inst = Inst { inst: op, data: None };
                    out.push(inst);
                    proof {
                        assert(here.skip(1) =~= v@.skip(idx + 1));
                        match decode(here.skip(1)) {
                            Some(rest) => {
                                assert(before + (seq![inst] + rest) =~= out@ + rest);
                            },
                            None => {},
                        }
                    }
                    idx += 1;
                }
            },
        }
    }
    assert(out@ + Seq::<Inst>::empty() =~= out@);
    Some(out)
}

} // verus!
