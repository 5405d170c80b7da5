use vstd::prelude::*;
use vstd::arithmetic::power2::{pow2, lemma2_to64, lemma_pow2_adds, lemma_pow2_pos,
    lemma_pow2_strictly_increases};
use vstd::arithmetic::div_mod::{lemma_mod_bound, lemma_mod_mod};
use vstd::bits::{lemma_u64_shl_is_mul, lemma_u32_low_bits_mask_is_mod,
    lemma_u64_low_bits_mask_is_mod, lemma_low_bits_mask_values};

verus! {

/// Largest radix-bit count the operator accepts.
///
/// The device offset tables hold partition counts in 32-bit words, so the
/// fanout must stay representable as a 32-bit value for every key type.
pub const MAX_RADIX_BITS: u32 = 31;

/// Number of partitions produced when partitioning on `radix_bits` key bits.
pub open spec fn spec_fanout(radix_bits: u32) -> nat {
    pow2(radix_bits as nat)
}

pub broadcast proof fn lemma_fanout_bounds(radix_bits: u32)
    requires
        radix_bits <= MAX_RADIX_BITS,
    ensures
        1 <= #[trigger] spec_fanout(radix_bits) <= 0x8000_0000,
{
    lemma_pow2_pos(radix_bits as nat);
    lemma2_to64();
    if radix_bits < 31 {
        lemma_pow2_strictly_increases(radix_bits as nat, 31);
    }
}

/// Returns the fanout, i.e. the number of partitions, `2^radix_bits`.
pub fn fanout(radix_bits: u32) -> (f: usize)
    requires
        radix_bits <= MAX_RADIX_BITS,
    ensures
        f == spec_fanout(radix_bits),
        1 <= f <= 0x8000_0000,
{
    proof {
        lemma2_to64();
        lemma_u64_shl_is_mul(1u64, radix_bits as u64);
        lemma_fanout_bounds(radix_bits);
    }
    let fan: u64 = 1u64 << radix_bits;
    fan as usize
}

/// One pass of a multi-pass radix partitioning job.
#[derive(Clone, Copy, Debug, PartialEq, Eq, Structural)]
pub enum RadixPass {
    First,
    Second,
    Third,
}

/// The radix-bit widths of up to three partitioning passes.
#[derive(Clone, Copy, Debug, PartialEq, Eq, Structural)]
pub struct RadixBits {
    pub first: u32,
    pub second: Option<u32>,
    pub third: Option<u32>,
}

/// The radix-bit configuration denoted by a list of pass widths: one to
/// three entries.
pub open spec fn spec_radix_bits_from_list(vals: Seq<u32>) -> Option<RadixBits> {
    if 1 <= vals.len() <= 3 {
        Some(
            RadixBits {
                first: vals[0],
                second: if vals.len() >= 2 {
                    Some(vals[1])
                } else {
                    None
                },
                third: if vals.len() >= 3 {
                    Some(vals[2])
                } else {
                    None
                },
            },
        )
    } else {
        None
    }
}

impl RadixBits {
    /// Builds the configuration from a list of per-pass bit widths; fails
    /// unless the list holds one to three entries.
    pub fn from_list(vals: &Vec<u32>) -> (r: Result<RadixBits, String>)
        ensures
            match spec_radix_bits_from_list(vals@) {
                Some(rb) => r == Result::<RadixBits, String>::Ok(rb),
                None => r is Err,
            },
    {
        if vals.len() < 1 || vals.len() > 3 {
            return Err(
                String::from_str("A RadixBits list must specify between one and three passes"),
            );
        }
        Ok(
            RadixBits {
                first: vals[0],
                second: if vals.len() >= 2 {
                    Some(vals[1])
                } else {
                    None
                },
                third: if vals.len() >= 3 {
                    Some(vals[2])
                } else {
                    None
                },
            },
        )
    }

    /// The radix bits of the given pass, if that pass is configured.
    pub fn pass_radix_bits(&self, pass: RadixPass) -> (r: Option<u32>)
        ensures
            r == match pass {
                RadixPass::First => Some(self.first),
                RadixPass::Second => self.second,
                RadixPass::Third => self.third,
            },
    {
        match pass {
            RadixPass::First => Some(self.first),
            RadixPass::Second => self.second,
            RadixPass::Third => self.third,
        }
    }
}

/// A relation tuple: a key attribute paired with a payload attribute.
#[derive(Clone, Copy, Debug, PartialEq, Eq, Structural)]
pub struct Tuple<K, V> {
    pub key: K,
    pub value: V,
}

/// Key types that the radix partitioning operator supports.
///
/// A key's partition index is formed from its low `radix_bits` bits, read as
/// the two's-complement residue `key mod 2^radix_bits`.
pub trait GpuRadixPartitionable: Sized + Copy {
    /// The partition that this key is assigned to.
    spec fn spec_partition_index(self, radix_bits: u32) -> int;

    /// The key value written into padding regions.
    spec fn spec_zero() -> Self;

    /// The width of the key type in bytes.
    spec fn spec_key_bytes() -> u32;

    proof fn lemma_partition_index_in_range(self, radix_bits: u32)
        requires
            radix_bits <= MAX_RADIX_BITS,
        ensures
            0 <= self.spec_partition_index(radix_bits) < spec_fanout(radix_bits);

    /// Computes the partition that this key is assigned to.
    fn partition_index(self, radix_bits: u32) -> (p: usize)
        requires
            radix_bits <= MAX_RADIX_BITS,
        ensures
            p == self.spec_partition_index(radix_bits);

    /// Returns the zero key, used to fill padding regions.
    fn zero() -> (z: Self)
        ensures
            z == Self::spec_zero();

    /// Returns the width of the key type in bytes.
    fn key_bytes() -> (n: u32)
        ensures
            n == Self::spec_key_bytes(),
            1 <= n <= 16,
            n == Self::spec_key_bytes();
}

impl GpuRadixPartitionable for i32 {
    open spec fn spec_partition_index(self, radix_bits: u32) -> int {
        (self as int) % (pow2(radix_bits as nat) as int)
    }

    open spec fn spec_zero() -> Self {
        0i32
    }

    open spec fn spec_key_bytes() -> u32 {
        4u32
    }

    proof fn lemma_partition_index_in_range(self, radix_bits: u32) {
        lemma_pow2_pos(radix_bits as nat);
        lemma_mod_bound(self as int, pow2(radix_bits as nat) as int);
    }

    fn partition_index(self, radix_bits: u32) -> (p: usize) {
        let ghost m: int = pow2(radix_bits as nat) as int;
        proof {
            lemma2_to64();
            lemma_u64_shl_is_mul(1u64, radix_bits as u64);
            lemma_pow2_pos(radix_bits as nat);
            if radix_bits < 31 {
                lemma_pow2_strictly_increases(radix_bits as nat, 31);
            }
        }
        let mask: u32 = ((1u64 << radix_bits) - 1) as u32;
        #[verifier::truncate]
        let ku: u32 = self as u32;
        proof {
            // `ku` is the two's-complement residue of the key modulo 2^32.
            assert(self < 0 ==> ku as int == self as int + 0x1_0000_0000int) by (bit_vector)
                requires ku == self as u32,
            ;
            assert(self >= 0 ==> ku as int == self as int) by (bit_vector)
                requires ku == self as u32,
            ;
            // Adding 2^32, a multiple of 2^radix_bits, does not change the
            // residue modulo 2^radix_bits.
            lemma_pow2_adds(radix_bits as nat, (32 - radix_bits) as nat);
            if self < 0 {
                vstd::arithmetic::div_mod::lemma_mod_multiples_vanish(
                    pow2((32 - radix_bits) as nat) as int, self as int, m);
                vstd::arithmetic::mul::lemma_mul_is_commutative(
                    pow2((32 - radix_bits) as nat) as int, m);
            }
            assert((ku as int) % m == (self as int) % m);
            lemma_u32_low_bits_mask_is_mod(ku, radix_bits as nat);
            lemma_mod_bound(ku as int, m);
        }
        (ku & mask) as usize
    }

    fn zero() -> (z: Self) {
        0i32
    }

    fn key_bytes() -> (n: u32) {
        4u32
    }
}

impl GpuRadixPartitionable for i64 {
    open spec fn spec_partition_index(self, radix_bits: u32) -> int {
        (self as int) % (pow2(radix_bits as nat) as int)
    }

    open spec fn spec_zero() -> Self {
        0i64
    }

    open spec fn spec_key_bytes() -> u32 {
        8u32
    }

    proof fn lemma_partition_index_in_range(self, radix_bits: u32) {
        lemma_pow2_pos(radix_bits as nat);
        lemma_mod_bound(self as int, pow2(radix_bits as nat) as int);
    }

    fn partition_index(self, radix_bits: u32) -> (p: usize) {
        let ghost m: int = pow2(radix_bits as nat) as int;
        proof {
            lemma2_to64();
            lemma_u64_shl_is_mul(1u64, radix_bits as u64);
            lemma_pow2_pos(radix_bits as nat);
            if radix_bits < 31 {
                lemma_pow2_strictly_increases(radix_bits as nat, 31);
            }
        }
        let mask: u64 = (1u64 << radix_bits) - 1;
        #[verifier::truncate]
        let ku: u64 = self as u64;
        proof {
            // `ku` is the two's-complement residue of the key modulo 2^64.
            assert(self < 0 ==> ku as int == self as int + 0x1_0000_0000_0000_0000int)
                by (bit_vector)
                requires ku == self as u64,
            ;
            assert(self >= 0 ==> ku as int == self as int) by (bit_vector)
                requires ku == self as u64,
            ;
            // Adding 2^64, a multiple of 2^radix_bits, does not change the
            // residue modulo 2^radix_bits.
            lemma_pow2_adds(radix_bits as nat, (64 - radix_bits) as nat);
            assert(pow2(64) == 0x1_0000_0000_0000_0000) by {
                lemma_pow2_adds(32, 32);
            }
            if self < 0 {
                vstd::arithmetic::div_mod::lemma_mod_multiples_vanish(
                    pow2((64 - radix_bits) as nat) as int, self as int, m);
                vstd::arithmetic::mul::lemma_mul_is_commutative(
                    pow2((64 - radix_bits) as nat) as int, m);
            }
            assert((ku as int) % m == (self as int) % m);
            lemma_u64_low_bits_mask_is_mod(ku, radix_bits as nat);
            lemma_mod_bound(ku as int, m);
            lemma_pow2_strictly_increases(radix_bits as nat, 32);
        }
        (ku & mask) as usize
    }

    fn zero() -> (z: Self) {
        0i64
    }

    fn key_bytes() -> (n: u32) {
        8u32
    }
}

} // verus!
