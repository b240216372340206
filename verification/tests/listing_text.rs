use hyper_scripter::grid::ListGrid;
use hyper_scripter::list::TimeFormat;
use hyper_scripter::time_fmt::{display_time, time_format};

const NOW: i64 = 1670500800; // 2022-12-08 12:00

#[test]
fn times_as_a_listing_shows_them() {
    assert_eq!(display_time(NOW, 1670486700).as_deref(), Some("08:05"));
    assert_eq!(display_time(NOW, 1670454000).as_deref(), Some("07 Dec"));
    assert_eq!(display_time(NOW, 1646092800).as_deref(), Some("01 Mar"));
    assert_eq!(display_time(NOW, 1640908800).as_deref(), Some("2021"));
    assert_eq!(display_time(NOW, 1577836800).as_deref(), Some("2020"));
    assert!(matches!(time_format(NOW, 1670454000), Some(TimeFormat::DayMonth)));
    assert_eq!(display_time(NOW, i64::MAX), None);
    assert_eq!(display_time(i64::MIN, NOW), None);
}

#[test]
fn grid_fits_the_screen_or_falls_back_to_one_column() {
    let mut g = ListGrid::new(3);
    g.add("a".to_owned(), 1);
    g.add("bb".to_owned(), 2);
    g.add("c".to_owned(), 1);
    assert_eq!(g.fit_into_screen(80), "a  bb  c\n");
    // The width is measured once: a later measure is not taken.
    assert_eq!(g.fit_into_screen(3), "a  bb  c\n");

    let mut narrow = ListGrid::new(3);
    narrow.add("a".to_owned(), 1);
    narrow.add("bb".to_owned(), 2);
    assert_eq!(narrow.fit_into_screen(0), "a\nbb\n");

    narrow.clear();
    narrow.add("zz".to_owned(), 2);
    assert_eq!(narrow.fit_into_screen(1), "zz\n");
}
