use moe_680m::chain::memory::align_up;

#[test]
fn test_align_up() {
    assert_eq!(align_up(0, 128), 0);
    assert_eq!(align_up(1, 128), 128);
    assert_eq!(align_up(128, 128), 128);
    assert_eq!(align_up(129, 128), 256);
}
