use vstd::prelude::*;

verus! {

/// Sum of all bytes of `s`, as a mathematical integer.
pub open spec fn byte_sum(s: Seq<u8>) -> nat
    decreases s.len(),
{
    if s.len() == 0 {
        0
    } else {
        byte_sum(s.drop_last()) + s.last() as nat
    }
}

/// The FastNet checksum of `s`: the byte that brings the sum of `s` to zero modulo 256.
pub open spec fn checksum_of(s: Seq<u8>) -> u8 {
    ((256 - byte_sum(s) % 256) % 256) as u8
}

/// Calculates the FastNet checksum: the two's complement of the sum of all
/// bytes, truncated to a byte.
pub fn calculate_checksum(data: &[u8]) -> (r: u8)
    ensures
        r == checksum_of(data@),
        (byte_sum(data@) + r) % 256 == 0,
{
    let mut sum: u16 = 0;
    let mut i: usize = 0;
    while i < data.len()
        invariant
            i <= data.len(),
            sum < 256,
            sum == byte_sum(data@.subrange(0, i as int)) % 256,
        decreases data.len() - i,
    {
        proof {
            lemma_byte_sum_prefix_step(data@, i as int);
            let b = byte_sum(data@.subrange(0, i as int));
            assert((b + data@[i as int] as nat) % 256 == (b % 256 + data@[i as int] as nat) % 256)
                by (nonlinear_arith);
        }
        sum = (sum + data[i] as u16) % 256;
        i = i + 1;
    }
    proof {
        assert(data@.subrange(0, data@.len() as int) =~= data@);
    }
    ((256 - sum) % 256) as u8
}

/// Extending a prefix by one byte adds that byte to the sum.
pub proof fn lemma_byte_sum_prefix_step(s: Seq<u8>, i: int)
    requires
        0 <= i < s.len(),
    ensures
        byte_sum(s.subrange(0, i + 1)) == byte_sum(s.subrange(0, i)) + s[i] as nat,
{
    assert(s.subrange(0, i + 1).drop_last() =~= s.subrange(0, i));
}


/// Appending its checksum to any data gives data whose checksum is zero: a
/// frame part followed by its checksum byte always sums to zero modulo 256.
pub proof fn lemma_checksum_appended_is_zero(s: Seq<u8>)
    ensures
        checksum_of(s.push(checksum_of(s))) == 0,
        (byte_sum(s) + checksum_of(s)) % 256 == 0,
{
    assert(s.push(checksum_of(s)).drop_last() =~= s);
}



} // verus!
