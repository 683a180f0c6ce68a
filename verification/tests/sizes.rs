use rdir::format::format_size;

fn reference_size(size: u64, human_readable: bool) -> String {
    if !human_readable {
        return size.to_string();
    }
    let units = ["B", "K", "M", "G", "T", "P", "E", "Z", "Y"];
    let mut s = size as f64;
    let mut idx = 0;
    while s >= 1024.0 && idx < units.len() - 1 {
        s /= 1024.0;
        idx += 1;
    }
    if idx == 0 {
        format!("{}{}", size, units[idx])
    } else {
        format!("{:.1}{}", s, units[idx])
    }
}

#[test]
fn size_zero_is_zero_bytes() {
    assert_eq!(format_size(0, true), "0B");
}

#[test]
fn size_1536_is_one_and_a_half_k() {
    assert_eq!(format_size(1536, true), "1.5K");
}

#[test]
fn size_tie_rounds_to_even_digit() {
    assert_eq!(format_size(1280, true), "1.2K");
    assert_eq!(format_size(1792, true), "1.8K");
}

#[test]
fn raw_size_is_the_decimal_number() {
    assert_eq!(format_size(0, false), "0");
    assert_eq!(format_size(1536, false), "1536");
    assert_eq!(format_size(u64::MAX, false), "18446744073709551615");
}

#[test]
fn size_agrees_with_floating_point_scaling() {
    let mut x: u64 = 1;
    let mut n: u64 = 0;
    while n < 200_000 {
        x = x.wrapping_mul(6364136223846793005).wrapping_add(1442695040888963407);
        let shift = (x >> 58) as u32;
        let size = x >> shift;
        assert_eq!(format_size(size, true), reference_size(size, true), "size {}", size);
        n += 1;
    }
}

#[test]
fn size_agrees_near_unit_boundaries() {
    let mut k: u32 = 0;
    while k < 64 {
        let base: u64 = 1u64 << k;
        let mut d: i64 = -3000;
        while d <= 3000 {
            let size = if d < 0 { base.wrapping_sub((-d) as u64) } else { base.wrapping_add(d as u64) };
            assert_eq!(format_size(size, true), reference_size(size, true), "size {}", size);
            d += 1;
        }
        k += 1;
    }
    assert_eq!(format_size(u64::MAX, true), reference_size(u64::MAX, true));
    assert_eq!(format_size(u64::MAX, true), "16.0E");
}
