use procwatch::util::humanize;

#[test]
fn humanize_returns_expected_values() {
    assert_eq!("1 B", humanize(1));
    assert_eq!("1 KiB", humanize(1023));
    assert_eq!("1 KiB", humanize(1025));
    assert_eq!("1.5 KiB", humanize(1024 + 512));
    assert_eq!("2 MiB", humanize(1024 * 1024 * 2));
    assert_eq!("2.4 MiB", humanize(1024 * (2048 + 410)));
    assert_eq!("4 GiB", humanize(1024 * 1024 * 2 * 1024 * 2));
    assert_eq!("3 TiB", humanize(1024 * 1024 * 1024 * 1024 * 3));
    assert_eq!("1024 TiB", humanize(1024 * 1024 * 1024 * 1024 * 1024));
    assert_eq!("1024 TiB", humanize(1024 * 1024 * 1024 * 1024 * 1024 + 512));
}

#[test]
fn humanize_small_and_boundary_values() {
    assert_eq!("1 B", humanize(0));
    assert_eq!("999 B", humanize(999));
    assert_eq!("1 KiB", humanize(1000));
    assert_eq!("1 KiB", humanize(1024));
    assert_eq!("1 MiB", humanize(1024 * 1024));
    assert_eq!("1 GiB", humanize(1024 * 1024 * 1024));
    assert_eq!("1 TiB", humanize(1024 * 1024 * 1024 * 1024));
    assert_eq!("10 KiB", humanize(10 * 1024 + 900));
    assert_eq!("9.9 KiB", humanize(10 * 1024 - 1));
    assert_eq!("16777215 TiB", humanize(u64::MAX));
}
