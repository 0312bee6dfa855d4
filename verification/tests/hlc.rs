use rag_kb::hlc::HybridLogicalClock;

#[test]
fn test_hlc_new() {
    let hlc = HybridLogicalClock::new(42);
    assert_eq!(hlc.node_id, 42);
    assert_eq!(hlc.logical, 0);
    assert!(hlc.wall_time > 0);
}

#[test]
fn test_hlc_tick() {
    let hlc1 = HybridLogicalClock::new(1);
    let hlc2 = hlc1.tick();
    assert!(hlc2 > hlc1);
}

#[test]
fn test_hlc_tick_rapid() {
    let mut hlc = HybridLogicalClock::new(1);
    let initial_wall = hlc.wall_time;

    for _ in 0..10 {
        let next = hlc.tick();
        assert!(next > hlc);
        hlc = next;
    }

    if hlc.wall_time == initial_wall {
        assert!(hlc.logical > 0);
    }
}

#[test]
fn test_hlc_merge() {
    let local = HybridLogicalClock::from_parts(1000, 5, 1);
    let remote = HybridLogicalClock::from_parts(1000, 10, 2);

    let merged = local.merge(&remote);
    assert!(merged > local);
    assert!(merged > remote);
    assert_eq!(merged.node_id, 1);
}

#[test]
fn test_hlc_bytes_roundtrip() {
    let hlc = HybridLogicalClock::from_parts(1234567890, 42, 7);
    let bytes = hlc.to_bytes();
    let parsed = HybridLogicalClock::from_bytes(&bytes).unwrap();

    assert_eq!(hlc, parsed);
}

#[test]
fn test_hlc_hex_roundtrip() {
    let hlc = HybridLogicalClock::from_parts(1234567890, 42, 7);
    let hex = hlc.to_hex();
    let parsed = HybridLogicalClock::from_hex(&hex).unwrap();

    assert_eq!(hlc, parsed);
}

#[test]
fn test_hlc_hex_value() {
    // 1234567890 is 0x499602d2; the digits must come out lowercase,
    // high byte first, across the three fields
    let hlc = HybridLogicalClock::from_parts(1234567890, 42, 7);
    assert_eq!(hlc.to_hex(), "00000000499602d20000002a0007");
}

#[test]
fn test_hlc_ordering() {
    let a = HybridLogicalClock::from_parts(1000, 0, 1);
    let b = HybridLogicalClock::from_parts(1000, 1, 1);
    let c = HybridLogicalClock::from_parts(1001, 0, 1);

    assert!(a < b);
    assert!(b < c);
    assert!(a < c);
}

#[test]
fn test_hlc_bytes_lexicographic() {
    let a = HybridLogicalClock::from_parts(1000, 0, 1);
    let b = HybridLogicalClock::from_parts(1001, 0, 1);

    assert!(a.to_bytes() < b.to_bytes());
}

#[test]
fn test_hlc_bytes_length() {
    let bytes = HybridLogicalClock::from_parts(5, 6, 7).to_bytes();
    assert_eq!(bytes.len(), 14);
    assert!(HybridLogicalClock::from_bytes(&bytes[..13]).is_none());
}

#[test]
fn test_hlc_from_hex_rejects_bad_input() {
    assert!(HybridLogicalClock::from_hex("zz").is_none());
    assert!(HybridLogicalClock::from_hex("0000").is_none());
    assert!(HybridLogicalClock::from_hex("00000000499602d20000002a00071").is_none());
}
