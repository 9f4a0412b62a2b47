//! Arithmetic on IPv6 addresses held as eight 16-bit segments, most
//! significant segment first.

use vstd::prelude::*;

verus! {

/// `65536` raised to the power `k`.
pub open spec fn radix_pow(k: nat) -> nat
    decreases k,
{
    if k == 0 {
        1
    } else {
        65536 * radix_pow((k - 1) as nat)
    }
}

/// The number of IPv6 addresses, `2^128`.
pub open spec fn address_space() -> nat {
    (u128::MAX + 1) as nat
}

/// The number that the segments from index `i` up to the last one spell,
/// read as big-endian digits in base 65536.
pub open spec fn suffix_value(s: Seq<u16>, i: int) -> nat
    decreases 8 - i,
{
    if i < 0 || i >= 8 {
        0
    } else {
        s[i] as nat * radix_pow((7 - i) as nat) + suffix_value(s, i + 1)
    }
}

/// The 128-bit number that eight segments spell.
pub open spec fn segments_value(s: Seq<u16>) -> nat {
    suffix_value(s, 0)
}

/// The value that follows `v`, wrapping from the highest address to zero.
pub open spec fn successor_value(v: nat) -> nat {
    if v + 1 == address_space() {
        0
    } else {
        v + 1
    }
}

/// Eight digits in base 65536 span exactly the 128-bit address space.
pub proof fn lemma_radix_pow_eight()
    ensures
        radix_pow(8) == address_space(),
{
    assert(radix_pow(0) == 1);
    assert(radix_pow(1) == 0x1_0000);
    assert(radix_pow(2) == 0x1_0000_0000);
    assert(radix_pow(3) == 0x1_0000_0000_0000);
    assert(radix_pow(4) == 0x1_0000_0000_0000_0000);
    assert(radix_pow(5) == 0x1_0000_0000_0000_0000_0000);
    assert(radix_pow(6) == 0x1_0000_0000_0000_0000_0000_0000);
    assert(radix_pow(7) == 0x1_0000_0000_0000_0000_0000_0000_0000);
}

/// A suffix value reads only the segments of that suffix.
pub proof fn lemma_suffix_value_frame(a: Seq<u16>, b: Seq<u16>, i: int)
    requires
        0 <= i <= 8,
        forall|j: int| i <= j < 8 ==> a[j] == b[j],
    ensures
        suffix_value(a, i) == suffix_value(b, i),
    decreases 8 - i,
{
    if i < 8 {
        lemma_suffix_value_frame(a, b, i + 1);
    }
}

/// A suffix of `8 - i` segments spells a number below `65536^(8 - i)`.
pub proof fn lemma_suffix_value_bound(s: Seq<u16>, i: int)
    requires
        0 <= i <= 8,
    ensures
        suffix_value(s, i) < radix_pow((8 - i) as nat),
    decreases 8 - i,
{
    if i < 8 {
        lemma_suffix_value_bound(s, i + 1);
        let p = radix_pow((7 - i) as nat);
        let d = s[i] as nat;
        assert(d * p + p <= 65536 * p) by (nonlinear_arith)
            requires
                d <= 65535,
        ;
    }
}

/// The successor of an address: the least significant segment is incremented
/// first and each overflow carries into the segment before it. The highest
/// address wraps to zero.
pub fn increment_ipv6_segments(segments: [u16; 8]) -> (result: [u16; 8])
    ensures
        segments_value(result@) == successor_value(segments_value(segments@)),
{
    let mut result = segments;
    let mut carry: u32 = 1;
    let mut i: usize = 8;
    while i > 0
        invariant
            i <= 8,
            carry <= 1,
            suffix_value(result@, i as int) + carry * radix_pow((8 - i) as nat) == suffix_value(
                segments@,
                i as int,
            ) + 1,
        decreases i,
    {
        let ghost before = result@;
        let ghost old_carry = carry as nat;
        i = i - 1;
        let sum: u32 = segments[i] as u32 + carry;
        assert(sum & 0xFFFF == sum % 0x1_0000) by (bit_vector);
        result[i] = (sum & 0xFFFF) as u16;
        carry = sum >> 16;
        proof {
            assert(sum >> 16 == sum / 0x1_0000) by (bit_vector);
            lemma_suffix_value_frame(before, result@, i + 1);
            let p = radix_pow((7 - i) as nat);
            let low = result@[i as int] as nat;
            let high = carry as nat;
            let digit = segments@[i as int] as nat;
            assert(low + 65536 * high == digit + old_carry);
            assert(low * p + high * (65536 * p) == digit * p + old_carry * p) by (nonlinear_arith)
                requires
                    low + 65536 * high == digit + old_carry,
            ;
        }
    }
    proof {
        lemma_radix_pow_eight();
        lemma_suffix_value_bound(result@, 0);
        lemma_suffix_value_bound(segments@, 0);
        if carry == 0 {
            assert(carry * radix_pow(8) == 0);
        } else {
            assert(carry * radix_pow(8) == radix_pow(8));
        }
    }
    result
}

/// The value reached from `v` by `n` increments.
pub open spec fn nth_successor_value(v: nat, n: nat) -> nat
    decreases n,
{
    if n == 0 {
        v
    } else {
        successor_value(nth_successor_value(v, (n - 1) as nat))
    }
}

/// Eight segments spell a number inside the address space.
pub proof fn lemma_segments_value_bound(s: Seq<u16>)
    ensures
        segments_value(s) < address_space(),
{
    lemma_suffix_value_bound(s, 0);
    lemma_radix_pow_eight();
}

/// As long as the address space is not left, `n` increments add exactly `n`.
pub proof fn lemma_nth_successor_adds(v: nat, n: nat)
    requires
        v + n < address_space(),
    ensures
        nth_successor_value(v, n) == v + n,
    decreases n,
{
    if n > 0 {
        lemma_nth_successor_adds(v, (n - 1) as nat);
    }
}

/// Repeated increment from `start` reaches `end` after exactly as many steps
/// as the two values differ by, and on the way it takes each value between
/// them once, in increasing order: none is skipped and none comes twice.
pub proof fn lemma_repeated_increment_reaches_end(start: Seq<u16>, end: Seq<u16>)
    requires
        start.len() == 8,
        end.len() == 8,
        segments_value(start) <= segments_value(end),
    ensures
        nth_successor_value(
            segments_value(start),
            (segments_value(end) - segments_value(start)) as nat,
        ) == segments_value(end),
        forall|k: nat|
            k <= segments_value(end) - segments_value(start) ==> #[trigger] nth_successor_value(
                segments_value(start),
                k,
            ) == segments_value(start) + k,
        forall|k: nat|
            k < segments_value(end) - segments_value(start) ==> #[trigger] nth_successor_value(
                segments_value(start),
                k,
            ) != segments_value(end),
{
    lemma_segments_value_bound(end);
    let v = segments_value(start);
    let n = (segments_value(end) - v) as nat;
    assert forall|k: nat| k <= n implies #[trigger] nth_successor_value(v, k) == v + k by {
        lemma_nth_successor_adds(v, k);
    }
}

/// Two addresses that agree before index `i` and differ at `i` are ordered
/// as their segments at `i` are.
pub proof fn lemma_first_difference_decides(a: Seq<u16>, b: Seq<u16>, i: int)
    requires
        0 <= i < 8,
        forall|j: int| 0 <= j < i ==> a[j] == b[j],
        a[i] < b[i],
    ensures
        segments_value(a) < segments_value(b),
{
    lemma_suffix_value_bound(a, i + 1);
    let p = radix_pow((7 - i) as nat);
    let x = a[i] as nat;
    let y = b[i] as nat;
    assert(x * p + p <= y * p) by (nonlinear_arith)
        requires
            x < y,
    ;
    assert(suffix_value(a, i) < suffix_value(b, i));
    lemma_common_prefix_keeps_order(a, b, i, 0);
}

/// Equal segments in front of two suffixes leave their order as it is.
proof fn lemma_common_prefix_keeps_order(a: Seq<u16>, b: Seq<u16>, i: int, k: int)
    requires
        0 <= k <= i < 8,
        forall|j: int| 0 <= j < i ==> a[j] == b[j],
        suffix_value(a, i) < suffix_value(b, i),
    ensures
        suffix_value(a, k) < suffix_value(b, k),
    decreases i - k,
{
    if k < i {
        lemma_common_prefix_keeps_order(a, b, i, k + 1);
    }
}

/// Distinct addresses have distinct values.
pub proof fn lemma_segments_value_injective(a: Seq<u16>, b: Seq<u16>)
    requires
        a.len() == 8,
        b.len() == 8,
        segments_value(a) == segments_value(b),
    ensures
        a == b,
{
    if a != b {
        let i = choose|i: int| 0 <= i < 8 && a[i] != b[i] && (forall|j: int| 0 <= j < i ==> a[j] == b[j]);
        assert(exists|i: int| 0 <= i < 8 && a[i] != b[i] && (forall|j: int| 0 <= j < i ==> a[j] == b[j])) by {
            lemma_first_difference_exists(a, b, 0);
        }
        if a[i] < b[i] {
            lemma_first_difference_decides(a, b, i);
        } else {
            lemma_first_difference_decides(b, a, i);
        }
    }
}

/// Two different addresses that agree before index `k` differ first at some
/// index from `k` on.
proof fn lemma_first_difference_exists(a: Seq<u16>, b: Seq<u16>, k: int)
    requires
        a.len() == 8,
        b.len() == 8,
        a != b,
        0 <= k <= 8,
        forall|j: int| 0 <= j < k ==> a[j] == b[j],
    ensures
        exists|i: int| 0 <= i < 8 && a[i] != b[i] && (forall|j: int| 0 <= j < i ==> a[j] == b[j]),
    decreases 8 - k,
{
    if k == 8 {
        assert(a =~= b);
    } else if a[k] != b[k] {
    } else {
        assert forall|j: int| 0 <= j < k + 1 implies a[j] == b[j] by {}
        lemma_first_difference_exists(a, b, k + 1);
    }
}

/// Whether `a` comes at or before `b`: the segments are compared from the
/// most significant one, which orders addresses by their values.
pub fn segments_le(a: [u16; 8], b: [u16; 8]) -> (result: bool)
    ensures
        result == (segments_value(a@) <= segments_value(b@)),
{
    let mut i: usize = 0;
    while i < 8
        invariant
            i <= 8,
            forall|j: int| 0 <= j < i ==> a@[j] == b@[j],
        decreases 8 - i,
    {
        if a[i] < b[i] {
            proof {
                lemma_first_difference_decides(a@, b@, i as int);
            }
            return true;
        }
        if a[i] > b[i] {
            proof {
                lemma_first_difference_decides(b@, a@, i as int);
            }
            return false;
        }
        i = i + 1;
    }
    proof {
        lemma_suffix_value_frame(a@, b@, 0);
    }
    true
}

} // verus!
