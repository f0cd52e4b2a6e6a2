use brush_splat::count::format_count;

#[test]
fn formats_counts() {
    assert_eq!(format_count(999), "999");
    assert_eq!(format_count(9_999), "9999");
    assert_eq!(format_count(45_678), "45.7k");
    assert_eq!(format_count(2_500_000), "2.50M");
}

fn by_float(count: u32) -> String {
    if count >= 1_000_000 {
        format!("{:.2}M", f64::from(count) / 1e6)
    } else if count >= 10_000 {
        format!("{:.1}k", f64::from(count) / 1e3)
    } else {
        count.to_string()
    }
}

#[test]
fn small_counts_are_written_in_full() {
    assert_eq!(format_count(0), "0");
    assert_eq!(format_count(10), "10");
    assert_eq!(format_count(9_999), "9999");
    assert_eq!(format_count(10_000), "10.0k");
}

#[test]
fn units_change_at_a_million() {
    assert_eq!(format_count(999_949), "999.9k");
    assert_eq!(format_count(999_951), "1000.0k");
    assert_eq!(format_count(1_000_000), "1.00M");
    assert_eq!(format_count(u32::MAX), "4294.97M");
}

#[test]
fn half_thousandths_agree_with_floating_point() {
    let mut count = 10_050;
    while count < 1_000_000 {
        assert_eq!(format_count(count), by_float(count));
        assert_eq!(format_count(count - 1), by_float(count - 1));
        assert_eq!(format_count(count + 1), by_float(count + 1));
        count += 100;
    }
}

#[test]
fn half_hundredths_of_millions_agree_with_floating_point() {
    let mut count: u64 = 1_005_000;
    while count <= u64::from(u32::MAX) {
        assert_eq!(format_count(count as u32), by_float(count as u32));
        count += 10_000;
    }
}

#[test]
fn written_count_is_off_by_half_a_unit_at_most() {
    let mut count: u32 = 10_000;
    while count < 900_000 {
        let text = format_count(count);
        let value: f64 = text.trim_end_matches('k').parse().unwrap();
        assert!((value * 1000.0 - f64::from(count)).abs() <= 50.0 + 1e-6);
        count += 137;
    }
}
