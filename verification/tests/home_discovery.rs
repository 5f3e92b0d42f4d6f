use guild_node::addr::PeerAddr;
use guild_node::home_discovery::{
    count_leading_zeros, Discovery, SimpleDHT, BUCKET_COUNT, BUCKET_SIZE, SERVICE_TYPE,
};

#[test]
fn service_type_of_the_nodes() {
    assert_eq!(SERVICE_TYPE, "_guildhome._udp.local.");
    assert_eq!(BUCKET_SIZE, 20);
    assert_eq!(BUCKET_COUNT, 256);
}

#[test]
fn resolved_service_is_dialled_once() {
    let mut d = Discovery::new();
    assert_eq!(
        d.service_resolved("192.168.1.5:8000".to_string()),
        Some(PeerAddr::new(192, 168, 1, 5, 8000))
    );
    assert_eq!(d.service_resolved("192.168.1.5:8000".to_string()), None);
    assert_eq!(d.service_resolved("fe80::1:8000".to_string()), None);
    assert_eq!(
        d.service_resolved("192.168.1.6:8000".to_string()),
        Some(PeerAddr::new(192, 168, 1, 6, 8000))
    );
}

#[test]
fn seeds_count_as_seen_and_are_dialled_at_the_start() {
    let mut d = Discovery::with_bootstrap(vec![
        "10.0.0.1:1".to_string(),
        "10.0.0.2:2".to_string(),
        "10.0.0.1:1".to_string(),
        "somewhere".to_string(),
    ]);
    assert_eq!(
        d.connect_bootstrap(),
        vec![PeerAddr::new(10, 0, 0, 1, 1), PeerAddr::new(10, 0, 0, 2, 2)]
    );
    assert_eq!(d.service_resolved("10.0.0.2:2".to_string()), None);
    assert!(!d.note("somewhere".to_string()));
    assert!(d.note("elsewhere".to_string()));
    assert!(!d.note("elsewhere".to_string()));
}

#[test]
fn leading_zeros_of_128_bit_numbers() {
    assert_eq!(count_leading_zeros(0), 128);
    assert_eq!(count_leading_zeros(1), 127);
    assert_eq!(count_leading_zeros(2), 126);
    assert_eq!(count_leading_zeros(3), 126);
    assert_eq!(count_leading_zeros(u128::MAX), 0);
    assert_eq!(count_leading_zeros(1u128 << 64), 63);
    for x in [0u128, 5, 255, 256, 1 << 100, u128::MAX >> 7, 0x1234_5678_9abc_def0] {
        assert_eq!(count_leading_zeros(x), x.leading_zeros());
    }
}

#[test]
fn xor_distance_reads_the_first_sixteen_bytes_little_endian() {
    let t = SimpleDHT::new();
    let mut a = [0u8; 32];
    let mut b = [0u8; 32];
    assert_eq!(t.xor_distance(&a, &b), 0);
    a[0] = 0x0f;
    b[0] = 0xf0;
    assert_eq!(t.xor_distance(&a, &b), 0xff);
    a[1] = 1;
    assert_eq!(t.xor_distance(&a, &b), 0x1ff);
    a[15] = 0x80;
    assert_eq!(t.xor_distance(&a, &b), (0x80u128 << 120) | 0x1ff);
    b[16] = 0x55;
    b[31] = 0xff;
    assert_eq!(t.xor_distance(&a, &b), (0x80u128 << 120) | 0x1ff);
    assert_eq!(t.xor_distance(&b, &a), t.xor_distance(&a, &b));
}
