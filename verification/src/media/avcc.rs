//! What VideoToolbox hands over, made into what the others hand over: AVCC (each NAL after
//! a big-endian length) becomes Annex-B (each NAL after a start code).

use vstd::prelude::*;

use crate::capture::linux::take_bytes;

verus! {

/// The Annex-B start code that goes in front of each NAL.
pub open spec fn start_code() -> Seq<u8> {
    seq![0u8, 0u8, 0u8, 1u8]
}

/// The number that bytes spell, most significant first.
pub open spec fn be_value(bytes: Seq<u8>) -> nat
    decreases bytes.len(),
{
    if bytes.len() == 0 {
        0
    } else {
        be_value(bytes.drop_last()) * 256 + bytes.last() as nat
    }
}

/// How many bytes the AVCC length prefix takes: what the format description says when it
/// answers with 1 to 4, else 4, which is what VideoToolbox uses.
pub open spec fn spec_nal_header_length(status: i32, length: i32) -> usize {
    if status == 0 && 1 <= length <= 4 { length as usize } else { 4 }
}

pub fn nal_header_length(status: i32, length: i32) -> (header_len: usize)
    ensures
        header_len == spec_nal_header_length(status, length),
        1 <= header_len <= 4,
{
    if status == 0 && 1 <= length && length <= 4 {
        length as usize
    } else {
        4
    }
}

/// The Annex-B of the NALs from `position` on, and whether one of them is an IDR. A length
/// of zero, or one that runs past the buffer, means the prefix read is wrong: the walk stops
/// there instead of going into garbage.
pub open spec fn annex_b_from(avcc: Seq<u8>, header_len: nat, position: nat) -> (Seq<u8>, bool)
    decreases avcc.len() - position,
{
    if position + header_len > avcc.len() {
        (Seq::empty(), false)
    } else {
        let size = be_value(avcc.subrange(position as int, (position + header_len) as int));
        let start = position + header_len;
        if size == 0 || start + size > avcc.len() {
            (Seq::empty(), false)
        } else {
            let rest = annex_b_from(avcc, header_len, start + size);
            (start_code() + avcc.subrange(start as int, (start + size) as int) + rest.0, avcc[start as int] & 0x1F == 5 || rest.1)
        }
    }
}

/// AVCC to Annex-B, and whether the frame carries an IDR, which is what decides whether
/// SPS and PPS go with it.
pub fn to_annex_b(avcc: &[u8], header_len: usize) -> (converted: (Vec<u8>, bool))
    requires
        header_len <= 4,
    ensures
        (converted.0@, converted.1) == annex_b_from(avcc@, header_len as nat, 0),
{
    let mut output: Vec<u8> = Vec::new();
    let mut is_idr = false;
    let mut position: usize = 0;

    proof {
        assert(Seq::<u8>::empty() + annex_b_from(avcc@, header_len as nat, 0).0 =~= annex_b_from(avcc@, header_len as nat, 0).0);
    }

    loop
        invariant
            header_len <= 4,
            position <= avcc.len(),
            output@ + annex_b_from(avcc@, header_len as nat, position as nat).0 == annex_b_from(avcc@, header_len as nat, 0).0,
            (is_idr || annex_b_from(avcc@, header_len as nat, position as nat).1) == annex_b_from(avcc@, header_len as nat, 0).1,
        decreases avcc.len() - position,
    {
        if avcc.len() - position < header_len {
            proof {
                assert(output@ + Seq::<u8>::empty() =~= output@);
            }
            return (output, is_idr);
        }

        let mut size: u64 = 0;
        let mut k: usize = 0;

        proof {
            assert(avcc@.subrange(position as int, position as int) =~= Seq::<u8>::empty());
        }

        while k < header_len
            invariant
                header_len <= 4,
                position + header_len <= avcc.len(),
                k <= header_len,
                size == be_value(avcc@.subrange(position as int, position + k)),
                be_value(avcc@.subrange(position as int, position + k)) < pow256(k as nat),
                pow256(k as nat) <= 0x1_0000_0000,
            decreases header_len - k,
        {
            proof {
                assert(avcc@.subrange(position as int, position + k + 1).drop_last() =~= avcc@.subrange(
                    position as int,
                    position + k,
                ));
                lemma_pow256_step(k as nat);
                let before = be_value(avcc@.subrange(position as int, position + k));
                let byte = avcc@[position + k];
                assert(before * 256 + byte < pow256(k as nat) * 256) by (nonlinear_arith)
                    requires
                        before < pow256(k as nat),
                        byte < 256,
                ;
                lemma_pow256_bound(k as nat + 1);
            }
            size = size * 256 + avcc[position + k] as u64;
            k = k + 1;
        }

        let start = position + header_len;

        if size == 0 || size > (avcc.len() - start) as u64 {
            proof {
                assert(output@ + Seq::<u8>::empty() =~= output@);
            }
            return (output, is_idr);
        }

        let end = start + size as usize;
        let ghost rest = annex_b_from(avcc@, header_len as nat, end as nat);

        proof {
            assert(annex_b_from(avcc@, header_len as nat, position as nat).0 =~= start_code() + avcc@.subrange(
                start as int,
                end as int,
            ) + rest.0);
        }

        is_idr = is_idr || avcc[start] & 0x1F == 5;

        let mut code: Vec<u8> = vec![0, 0, 0, 1];
        let mut piece = take_bytes(avcc, start, end);

        output.append(&mut code);
        output.append(&mut piece);

        proof {
            assert(output@ + rest.0 =~= annex_b_from(avcc@, header_len as nat, 0).0);
        }

        position = end;
    }
}

pub open spec fn pow256(k: nat) -> nat
    decreases k,
{
    if k == 0 { 1 } else { 256 * pow256((k - 1) as nat) }
}

proof fn lemma_pow256_step(k: nat)
    ensures
        pow256(k + 1) == pow256(k) * 256,
{
}

proof fn lemma_pow256_bound(k: nat)
    requires
        k <= 4,
    ensures
        pow256(k) <= 0x1_0000_0000,
{
    reveal_with_fuel(pow256, 5);
}

} // verus!
