use port_scanner::range::{enumerate_ipv4, enumerate_ipv6, filter_host_addresses};
use port_scanner::segments::segments_le;
use port_scanner::{generate_ip_range, increment_ipv6_segments, Address, ConfigurationError};

fn v4(a: u8, b: u8, c: u8, d: u8) -> Address {
    Address::from_octets([a, b, c, d])
}

#[test]
fn from_octets_spells_the_number() {
    assert_eq!(v4(10, 0, 0, 1), Address::V4(0x0A00_0001));
    assert_eq!(v4(255, 255, 255, 255), Address::V4(u32::MAX));
    assert_eq!(v4(0, 0, 0, 0), Address::V4(0));
}

#[test]
fn octets_round_trip() {
    assert_eq!(Address::V4(0xC0A8_01FE).octets(), Some([192, 168, 1, 254]));
    assert_eq!(v4(1, 2, 3, 4).octets(), Some([1, 2, 3, 4]));
    assert_eq!(Address::V6([0, 0, 0, 0, 0, 0, 0, 1]).octets(), None);
}

#[test]
fn ipv4_range_is_inclusive_and_increasing() {
    let hosts = generate_ip_range(v4(10, 0, 0, 1), v4(10, 0, 0, 5)).unwrap();
    assert_eq!(
        hosts,
        vec![v4(10, 0, 0, 1), v4(10, 0, 0, 2), v4(10, 0, 0, 3), v4(10, 0, 0, 4), v4(10, 0, 0, 5)]
    );
}

#[test]
fn ipv4_single_address_range() {
    let hosts = generate_ip_range(v4(10, 0, 0, 1), v4(10, 0, 0, 1)).unwrap();
    assert_eq!(hosts, vec![v4(10, 0, 0, 1)]);
}

#[test]
fn ipv4_unfiltered_count_is_difference_plus_one() {
    let all = enumerate_ipv4(0x0A00_00F0, 0x0A00_0110);
    assert_eq!(all.len(), (0x0A00_0110u32 - 0x0A00_00F0u32 + 1) as usize);
    for (i, address) in all.iter().enumerate() {
        assert_eq!(*address, Address::V4(0x0A00_00F0 + i as u32));
    }
}

#[test]
fn ipv4_filter_drops_network_and_broadcast_only() {
    let hosts = generate_ip_range(v4(10, 0, 0, 253), v4(10, 0, 1, 2)).unwrap();
    assert_eq!(
        hosts,
        vec![v4(10, 0, 0, 253), v4(10, 0, 0, 254), v4(10, 0, 1, 1), v4(10, 0, 1, 2)]
    );
}

#[test]
fn filter_keeps_order_and_ipv6() {
    let six = Address::V6([0x2001, 0xdb8, 0, 0, 0, 0, 0, 0x00ff]);
    let zero = Address::V6([0x2001, 0xdb8, 0, 0, 0, 0, 0, 0]);
    let kept = filter_host_addresses(vec![
        v4(1, 1, 1, 0),
        six,
        v4(1, 1, 1, 7),
        v4(1, 1, 1, 255),
        zero,
        v4(1, 1, 0, 1),
    ]);
    assert_eq!(kept, vec![six, v4(1, 1, 1, 7), zero, v4(1, 1, 0, 1)]);
}

#[test]
fn is_host_follows_the_last_octet() {
    assert!(!v4(10, 0, 0, 0).is_host());
    assert!(!v4(10, 0, 0, 255).is_host());
    assert!(v4(10, 0, 0, 1).is_host());
    assert!(v4(10, 0, 255, 254).is_host());
    assert!(v4(0, 255, 0, 128).is_host());
    assert!(Address::V6([0, 0, 0, 0, 0, 0, 0, 0]).is_host());
    assert!(Address::V6([0, 0, 0, 0, 0, 0, 0, 0x00ff]).is_host());
}

#[test]
fn ipv4_range_ending_at_the_highest_address_ends() {
    let all = enumerate_ipv4(u32::MAX - 2, u32::MAX);
    assert_eq!(
        all,
        vec![Address::V4(u32::MAX - 2), Address::V4(u32::MAX - 1), Address::V4(u32::MAX)]
    );
    let hosts = generate_ip_range(Address::V4(u32::MAX - 2), Address::V4(u32::MAX)).unwrap();
    assert_eq!(hosts, vec![Address::V4(u32::MAX - 2), Address::V4(u32::MAX - 1)]);
}

#[test]
fn reversed_range_is_empty() {
    assert_eq!(generate_ip_range(v4(10, 0, 0, 9), v4(10, 0, 0, 3)), Ok(vec![]));
    assert_eq!(enumerate_ipv4(9, 3), vec![]);
    assert_eq!(
        enumerate_ipv6([0, 0, 0, 0, 0, 0, 0, 9], [0, 0, 0, 0, 0, 0, 0, 3]),
        vec![]
    );
}

#[test]
fn mixed_families_are_refused() {
    let six = Address::V6([0, 0, 0, 0, 0, 0, 0, 1]);
    assert_eq!(
        generate_ip_range(v4(10, 0, 0, 1), six),
        Err(ConfigurationError::InvalidRange)
    );
    assert_eq!(
        generate_ip_range(six, v4(10, 0, 0, 1)),
        Err(ConfigurationError::InvalidRange)
    );
}

#[test]
fn increment_adds_one_to_the_last_segment() {
    assert_eq!(
        increment_ipv6_segments([0x2001, 0xdb8, 0, 0, 0, 0, 0, 1]),
        [0x2001, 0xdb8, 0, 0, 0, 0, 0, 2]
    );
    assert_eq!(increment_ipv6_segments([0; 8]), [0, 0, 0, 0, 0, 0, 0, 1]);
}

#[test]
fn increment_carries_into_the_segment_before() {
    assert_eq!(
        increment_ipv6_segments([1, 2, 3, 4, 5, 6, 7, 0xFFFF]),
        [1, 2, 3, 4, 5, 6, 8, 0]
    );
    assert_eq!(
        increment_ipv6_segments([1, 2, 3, 4, 0xFFFF, 0xFFFF, 0xFFFF, 0xFFFF]),
        [1, 2, 3, 5, 0, 0, 0, 0]
    );
    assert_eq!(
        increment_ipv6_segments([0, 0xFFFF, 0xFFFF, 0xFFFF, 0xFFFF, 0xFFFF, 0xFFFF, 0xFFFF]),
        [1, 0, 0, 0, 0, 0, 0, 0]
    );
}

#[test]
fn increment_wraps_at_the_highest_address() {
    assert_eq!(increment_ipv6_segments([0xFFFF; 8]), [0; 8]);
}

#[test]
fn increment_is_not_the_identity() {
    let segments = [0xfe80, 0, 0, 0, 0, 0, 0x1234, 0x5678];
    assert_ne!(increment_ipv6_segments(segments), segments);
}

#[test]
fn segments_are_ordered_from_the_most_significant() {
    assert!(segments_le([0, 0, 0, 0, 0, 0, 0, 1], [0, 0, 0, 0, 0, 0, 0, 1]));
    assert!(segments_le([0, 0, 0, 0, 0, 0, 0, 0xFFFF], [0, 0, 0, 0, 0, 0, 1, 0]));
    assert!(!segments_le([0, 0, 0, 0, 0, 0, 1, 0], [0, 0, 0, 0, 0, 0, 0, 0xFFFF]));
    assert!(segments_le([1, 0xFFFF, 0, 0, 0, 0, 0, 0], [2, 0, 0, 0, 0, 0, 0, 0]));
    assert!(!segments_le([2, 0, 0, 0, 0, 0, 0, 0], [1, 0xFFFF, 0xFFFF, 0, 0, 0, 0, 9]));
}

#[test]
fn ipv6_range_crosses_a_segment_boundary() {
    let start = [0x2001, 0xdb8, 0, 0, 0, 0, 0, 0xFFFE];
    let end = [0x2001, 0xdb8, 0, 0, 0, 0, 1, 0x0001];
    let hosts = generate_ip_range(Address::V6(start), Address::V6(end)).unwrap();
    assert_eq!(
        hosts,
        vec![
            Address::V6([0x2001, 0xdb8, 0, 0, 0, 0, 0, 0xFFFE]),
            Address::V6([0x2001, 0xdb8, 0, 0, 0, 0, 0, 0xFFFF]),
            Address::V6([0x2001, 0xdb8, 0, 0, 0, 0, 1, 0x0000]),
            Address::V6([0x2001, 0xdb8, 0, 0, 0, 0, 1, 0x0001]),
        ]
    );
}

#[test]
fn ipv6_steps_equal_the_numeric_difference() {
    let start = [0, 0, 0, 0, 0, 0, 0, 0xFFF0];
    let end = [0, 0, 0, 0, 0, 0, 2, 0x0005];
    let start_number = u128::from(0xFFF0u16);
    let end_number = (2u128 << 16) + 5;
    let mut current = start;
    let mut steps: u128 = 0;
    while current != end {
        let next = increment_ipv6_segments(current);
        assert!(next > current);
        current = next;
        steps += 1;
        assert!(steps <= end_number - start_number);
    }
    assert_eq!(steps, end_number - start_number);
    let all = enumerate_ipv6(start, end);
    assert_eq!(all.len() as u128, end_number - start_number + 1);
}

#[test]
fn ipv6_range_ending_at_the_highest_address_ends() {
    let start = [0xFFFF, 0xFFFF, 0xFFFF, 0xFFFF, 0xFFFF, 0xFFFF, 0xFFFF, 0xFFFD];
    let hosts = generate_ip_range(Address::V6(start), Address::V6([0xFFFF; 8])).unwrap();
    assert_eq!(hosts.len(), 3);
    assert_eq!(hosts[2], Address::V6([0xFFFF; 8]));
}

#[test]
fn ipv6_is_never_filtered() {
    let hosts = generate_ip_range(
        Address::V6([0, 0, 0, 0, 0, 0, 0, 0x00FE]),
        Address::V6([0, 0, 0, 0, 0, 0, 0, 0x0100]),
    )
    .unwrap();
    assert_eq!(hosts.len(), 3);
    assert_eq!(hosts[1], Address::V6([0, 0, 0, 0, 0, 0, 0, 0x00FF]));
    assert_eq!(hosts[2], Address::V6([0, 0, 0, 0, 0, 0, 0, 0x0100]));
}
