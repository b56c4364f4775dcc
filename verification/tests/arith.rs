use wgpu_core::align::{align_to, get_greatest_common_divisor, get_lowest_common_denom};

#[test]
fn test_lcd() {
    assert_eq!(get_lowest_common_denom(2, 2), 2);
    assert_eq!(get_lowest_common_denom(2, 3), 6);
    assert_eq!(get_lowest_common_denom(6, 4), 12);
}

#[test]
fn test_gcd() {
    assert_eq!(get_greatest_common_divisor(5, 1), 1);
    assert_eq!(get_greatest_common_divisor(4, 2), 2);
    assert_eq!(get_greatest_common_divisor(6, 4), 2);
    assert_eq!(get_greatest_common_divisor(7, 7), 7);
}

#[test]
fn lcm_times_gcd_is_product() {
    let pairs: Vec<(u32, u32)> = vec![(2, 3), (6, 4), (12, 18), (7, 7), (1, 9), (256, 6)];
    for (a, b) in pairs {
        let g = if a >= b {
            get_greatest_common_divisor(a, b)
        } else {
            get_greatest_common_divisor(b, a)
        };
        let l = get_lowest_common_denom(a, b);
        assert_eq!(l * g, a * b);
        assert_eq!(l % a, 0);
        assert_eq!(l % b, 0);
    }
}

#[test]
fn align_rounds_up_to_multiple() {
    assert_eq!(align_to(8, 4), 8);
    assert_eq!(align_to(10, 4), 12);
    assert_eq!(align_to(1, 256), 256);
    assert_eq!(align_to(0, 8), 0);
}
