//! Actor addresses, subnets (an address plus a net-mask) and address ranges.

use vstd::arithmetic::power2::{lemma2_to64, lemma2_to64_rest, pow2};
use vstd::bits::{low_bits_mask, lemma_u64_low_bits_mask_is_mod, lemma_u64_pow2_no_overflow, lemma_u64_shl_is_mul};
use vstd::prelude::*;

verus! {

/// The widest net-mask: a subnet of a single address.
pub const MAX_MASK: u8 = 64;

/// An actor address: an opaque 64-bit value.
#[derive(Clone, Copy, Debug, PartialEq, Eq, Structural, Hash, PartialOrd, Ord)]
pub struct Address(pub u64);

/// A net-mask: the number of leading bits that name the subnet (0 to 64).
#[derive(Clone, Copy, Debug, PartialEq, Eq, Structural, Hash, PartialOrd, Ord)]
pub struct NetMask(pub u8);

/// A subnet: an address and a net-mask.
#[derive(Clone, Copy, Debug, PartialEq, Eq, Structural, Hash)]
pub struct NetAddress {
    pub address: Address,
    pub mask: NetMask,
}

/// An inclusive range of addresses.
#[derive(Clone, Copy, Debug, PartialEq, Eq, Structural, Hash)]
pub struct AddressRange {
    pub lo: u64,
    pub hi: u64,
}

/// The bits of an address that a mask of `mask` leading bits leaves to the host.
pub open spec fn host_bits(mask: u8) -> u64 {
    if mask == 0 {
        u64::MAX
    } else if mask >= 64 {
        0
    } else {
        ((1u64 << ((64 - mask) as u8)) - 1) as u64
    }
}

impl NetMask {
    pub open spec fn valid(self) -> bool {
        self.0 <= MAX_MASK
    }
}

impl NetAddress {
    /// The lowest address of the subnet.
    pub open spec fn spec_lo(self) -> u64 {
        self.address.0 & !host_bits(self.mask.0)
    }

    /// The highest address of the subnet.
    pub open spec fn spec_hi(self) -> u64 {
        self.address.0 | host_bits(self.mask.0)
    }

    /// The subnet holds no host bits in its address.
    pub open spec fn is_normal(self) -> bool {
        self.address.0 & host_bits(self.mask.0) == 0
    }

    /// The same subnet with its host bits cleared.
    pub open spec fn spec_normalized(self) -> NetAddress {
        NetAddress { address: Address(self.spec_lo()), mask: self.mask }
    }

    pub open spec fn spec_range(self) -> AddressRange {
        AddressRange { lo: self.spec_lo(), hi: self.spec_hi() }
    }
}

impl AddressRange {
    pub open spec fn spec_contains(self, a: u64) -> bool {
        self.lo <= a && a <= self.hi
    }

    pub open spec fn spec_overlaps(self, other: AddressRange) -> bool {
        self.lo <= other.hi && other.lo <= self.hi
    }
}

/// The host bits of a mask, computed.
pub fn host_bits_of(mask: NetMask) -> (r: u64)
    ensures
        r == host_bits(mask.0),
{
    if mask.0 == 0 {
        u64::MAX
    } else if mask.0 >= 64 {
        0
    } else {
        let s: u8 = 64 - mask.0;
        let one: u64 = 1;
        assert(one << s >= 1) by (bit_vector)
            requires
                one == 1,
                s < 64,
        ;
        let shifted: u64 = one << s;
        shifted - 1
    }
}

} // verus!

verus! {

/// The lowest address of a subnet lies below its highest.
pub proof fn lemma_lo_le_hi(n: NetAddress)
    ensures
        n.spec_lo() <= n.spec_hi(),
        n.spec_lo() <= n.address.0 <= n.spec_hi(),
{
    let a = n.address.0;
    let h = host_bits(n.mask.0);
    assert((a & !h) <= (a | h)) by (bit_vector);
    assert((a & !h) <= a) by (bit_vector);
    assert(a <= (a | h)) by (bit_vector);
}

/// The host bits of a mask `m` (at most 64) are the `64 - m` low bits: one
/// less than the number of addresses in a subnet of that mask.
proof fn lemma_host_bits_count(m: u8)
    requires
        m <= 64,
    ensures
        host_bits(m) as int + 1 == pow2((64 - m) as nat),
{
    lemma2_to64();
    lemma2_to64_rest();
    if m == 0 {
    } else if m == 64 {
    } else {
        let s8: u8 = (64 - m) as u8;
        let s64: u64 = s8 as u64;
        let one: u64 = 1;
        lemma_u64_pow2_no_overflow(s64 as nat);
        lemma_u64_shl_is_mul(one, s64);
        assert((one << s8) == (one << s64)) by (bit_vector)
            requires
                s64 == s8 as u64,
                s8 < 64,
        ;
        assert(one << s8 >= 1) by (bit_vector)
            requires
                one == 1,
                s8 < 64,
        ;
    }
}

/// A subnet of a valid mask `m` spans exactly `2^(64 - m)` addresses, from
/// its lowest address, a multiple of that number, to its highest, and holds
/// its own address; it is normal exactly where its address is such a
/// multiple. A subnet of mask 64 holds its own address and nothing else, and
/// is always normal.
pub proof fn law_subnet_spans_a_power_of_two(n: NetAddress)
    requires
        n.mask.valid(),
    ensures
        n.spec_lo() <= n.address.0 <= n.spec_hi(),
        n.spec_hi() - n.spec_lo() + 1 == pow2((64 - n.mask.0) as nat),
        (n.spec_lo() as nat) % pow2((64 - n.mask.0) as nat) == 0,
        n.is_normal() <==> (n.address.0 as nat) % pow2((64 - n.mask.0) as nat) == 0,
        n.mask.0 == 64 ==> n.spec_lo() == n.address.0 && n.spec_hi() == n.address.0 && n.is_normal(),
{
    let a = n.address.0;
    let m = n.mask.0;
    let h = host_bits(m);
    let e = (64 - m) as nat;
    lemma_lo_le_hi(n);
    lemma_host_bits_count(m);
    lemma2_to64();
    lemma2_to64_rest();
    assert((a | h) == (a & !h) + h) by (bit_vector);
    assert((a & !h) & h == 0) by (bit_vector);
    if m == 0 {
        assert(h == 0xffff_ffff_ffff_ffffu64);
        assert(a & h == a) by (bit_vector)
            requires
                h == 0xffff_ffff_ffff_ffffu64,
        ;
        assert((a & !h) == 0) by (bit_vector)
            requires
                h == 0xffff_ffff_ffff_ffffu64,
        ;
    } else {
        lemma_u64_pow2_no_overflow(e);
        assert(low_bits_mask(e) as u64 == h);
        lemma_u64_low_bits_mask_is_mod(a, e);
        lemma_u64_low_bits_mask_is_mod(a & !h, e);
    }
    if m == 64 {
        assert(h == 0);
        assert((a & !h) == a && (a | h) == a && a & h == 0) by (bit_vector)
            requires
                h == 0,
        ;
    }
}

impl NetAddress {
    /// The lowest address of the subnet.
    pub fn lo(&self) -> (r: u64)
        ensures
            r == self.spec_lo(),
    {
        self.address.0 & !host_bits_of(self.mask)
    }

    /// The highest address of the subnet.
    pub fn hi(&self) -> (r: u64)
        ensures
            r == self.spec_hi(),
    {
        self.address.0 | host_bits_of(self.mask)
    }

    /// Whether the subnet's address holds no host bits.
    pub fn is_normalized(&self) -> (r: bool)
        ensures
            r == self.is_normal(),
    {
        self.address.0 & host_bits_of(self.mask) == 0
    }

    /// The same subnet with its host bits cleared.
    pub fn normalized(&self) -> (r: NetAddress)
        ensures
            r == self.spec_normalized(),
    {
        NetAddress { address: Address(self.lo()), mask: self.mask }
    }

    /// Whether two subnets share an address.
    pub fn overlaps(&self, other: &NetAddress) -> (r: bool)
        ensures
            r == self.spec_range().spec_overlaps(other.spec_range()),
    {
        self.lo() <= other.hi() && other.lo() <= self.hi()
    }

    /// Whether the subnet holds an address.
    pub fn contains(&self, a: Address) -> (r: bool)
        ensures
            r == self.spec_range().spec_contains(a.0),
    {
        self.lo() <= a.0 && a.0 <= self.hi()
    }
}

impl AddressRange {
    /// The range of a single address.
    pub fn from_address(a: Address) -> (r: AddressRange)
        ensures
            r.lo == a.0,
            r.hi == a.0,
    {
        AddressRange { lo: a.0, hi: a.0 }
    }

    /// The range of a subnet.
    pub fn from_net(n: NetAddress) -> (r: AddressRange)
        ensures
            r == n.spec_range(),
    {
        AddressRange { lo: n.lo(), hi: n.hi() }
    }

    /// Whether the range holds an address.
    pub fn contains(&self, a: Address) -> (r: bool)
        ensures
            r == self.spec_contains(a.0),
    {
        self.lo <= a.0 && a.0 <= self.hi
    }

    /// Whether two ranges share an address.
    pub fn overlaps(&self, other: &AddressRange) -> (r: bool)
        ensures
            r == self.spec_overlaps(*other),
    {
        self.lo <= other.hi && other.lo <= self.hi
    }
}

} // verus!
