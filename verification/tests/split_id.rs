use frame_contrib::split_id::SplitId;

#[test]
fn test_u16_split() {
    let id: u16 = 257;
    let (group, track) = id.split();
    assert_eq!(group, 1);
    assert_eq!(track, 1);
}

#[test]
fn test_u32_split() {
    let id: u32 = 65537;
    let (group, track) = id.split();
    assert_eq!(group, 1);
    assert_eq!(track, 1);
}

#[test]
fn test_u64_split() {
    let id: u64 = 4294967297;
    let (group, track) = id.split();
    assert_eq!(group, 1);
    assert_eq!(track, 1);
}

#[test]
fn test_zero_split() {
    let id: u16 = 0;
    let (group, track) = id.split();
    assert_eq!(group, 0);
    assert_eq!(track, 0);
}

#[test]
fn test_max_values() {
    let id = u128::MAX;
    let (group, track) = id.split();
    assert_eq!(group, u64::MAX);
    assert_eq!(track, u64::MAX);
}

#[test]
fn test_combine_u16() {
    let combined = u16::combine(1, 1);
    assert_eq!(combined, 257);
}

#[test]
fn test_combine_u32() {
    let combined = u32::combine(1, 1);
    assert_eq!(combined, 65537);
}

#[test]
fn test_combine_u64() {
    let combined = u64::combine(1, 1);
    assert_eq!(combined, 4294967297);
}

#[test]
fn test_split_combine_roundtrip() {
    let original: u32 = 0x12345678;
    let (group, track) = original.split();
    let reconstructed = u32::combine(group, track);
    assert_eq!(original, reconstructed);
}

#[test]
fn split_puts_the_high_half_first() {
    let (group, track) = 0x1234u16.split();
    assert_eq!(group, 0x12);
    assert_eq!(track, 0x34);
    assert_eq!(u128::combine(3, 4), (3u128 << 64) | 4);
}
