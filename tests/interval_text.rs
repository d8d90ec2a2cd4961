use photo_dater::files_interval::end_date_of;
use photo_dater::{Date, DateTime, FilesInterval};

fn new_files_interval(from: (i32, u32, u32), to: Option<(i32, u32, u32)>) -> FilesInterval {
    let (fy, fm, fd) = from;
    let (ty, tm, td) = to.unwrap_or(from);
    FilesInterval {
        from: DateTime::new(fy, fm, fd, 0, 0, 0).unwrap(),
        to: DateTime::new(ty, tm, td, 23, 59, 59).unwrap(),
    }
}

#[test]
fn try_from_name() {
    // Basic usage
    assert_eq!(
        FilesInterval::try_from_name("Some name without any date"),
        None
    );

    assert_eq!(
        FilesInterval::try_from_name("2025-05-01 Some name"),
        Some(new_files_interval((2025, 5, 1), None)),
    );

    assert_eq!(
        FilesInterval::try_from_name("2025-05-01 - 2026-06-01 Some name"),
        Some(new_files_interval((2025, 5, 1), Some((2026, 6, 1)))),
    );

    assert_eq!(
        FilesInterval::try_from_name("2025-05-01 - 06-01 Some name"),
        Some(new_files_interval((2025, 5, 1), Some((2025, 6, 1)))),
    );

    // Edge cases
    assert_eq!(
        FilesInterval::try_from_name("06-01 Name start with number"),
        None
    );

    assert_eq!(
        FilesInterval::try_from_name("2025-05-01 - Name start with separator"),
        Some(new_files_interval((2025, 5, 1), None)),
    );

    assert_eq!(
        FilesInterval::try_from_name("2025-05-02 - 2025-05-01 - Interval is not possilbe"),
        None,
    );
}

#[test]
fn delta() {
    assert_eq!(
        new_files_interval((2025, 5, 1), None).delta(),
        23 * 60 * 60 + 59 * 60 + 59
    );

    assert_eq!(
        new_files_interval((2025, 5, 1), Some((2025, 5, 5))).delta(),
        23 * 60 * 60 + 59 * 60 + 59 + 4 * 24 * 60 * 60
    );
}

#[test]
fn to_string() {
    assert_eq!(
        &new_files_interval((2025, 5, 1), None).to_string(),
        "2025-05-01"
    );

    assert_eq!(
        &new_files_interval((2025, 5, 1), Some((2026, 6, 2))).to_string(),
        "2025-05-01 - 2026-06-02"
    );

    assert_eq!(
        &new_files_interval((2025, 5, 1), Some((2025, 6, 2))).to_string(),
        "2025-05-01 - 06-02"
    );

    assert_eq!(
        &new_files_interval((2025, 5, 1), Some((2025, 5, 2))).to_string(),
        "2025-05-01 - 02"
    );

    assert_eq!(
        &new_files_interval((2025, 5, 1), Some((2025, 6, 1))).to_string(),
        "2025-05-01 - 06-01"
    );

    assert_eq!(
        &new_files_interval((2025, 5, 1), Some((2026, 5, 1))).to_string(),
        "2025-05-01 - 2026-05-01"
    );
}

#[test]
fn try_split_hands_back_rest() {
    let (interval, rest) = FilesInterval::try_split("2025-05-01 - 03 Trip to the sea").unwrap();
    assert_eq!(interval, new_files_interval((2025, 5, 1), Some((2025, 5, 3))));
    assert_eq!(rest, "Trip to the sea");

    let (interval, rest) = FilesInterval::try_split("2025-05-01 - 05-03 x").unwrap();
    assert_eq!(interval, new_files_interval((2025, 5, 1), Some((2025, 5, 3))));
    assert_eq!(rest, "x");

    let (interval, rest) = FilesInterval::try_split("2025-05-01 ").unwrap();
    assert_eq!(interval, new_files_interval((2025, 5, 1), None));
    assert_eq!(rest, "");
}

#[test]
fn try_split_needs_text_after_the_date() {
    // A date alone, with no space after it, is not a name with a date.
    assert_eq!(FilesInterval::try_split("2025-05-01"), None);
    // A day that does not exist is not read.
    assert_eq!(FilesInterval::try_from_name("2023-02-29 x"), None);
    assert_eq!(FilesInterval::try_from_name(""), None);
}

#[test]
fn round_trip_of_each_form() {
    let forms = [
        new_files_interval((2025, 5, 1), None),
        new_files_interval((2025, 5, 1), Some((2025, 5, 3))),
        new_files_interval((2025, 5, 1), Some((2025, 6, 2))),
        new_files_interval((2025, 12, 30), Some((2026, 1, 2))),
        new_files_interval((999, 1, 1), Some((999, 1, 9))),
    ];
    for interval in forms {
        let name = format!("{} holiday photos", interval.to_string());
        assert_eq!(FilesInterval::try_from_name(&name), Some(interval));
    }
}

#[test]
fn year_outside_four_digits_is_signed() {
    let i = new_files_interval((10000, 1, 1), None);
    assert_eq!(i.to_string(), "+10000-01-01");
    let i = new_files_interval((-1, 1, 1), None);
    assert_eq!(i.to_string(), "-0001-01-01");
}

#[test]
fn delta_across_years_and_leap_day() {
    // 2024 is a leap year: 366 days from 2024-01-01 to 2025-01-01.
    let i = new_files_interval((2024, 1, 1), Some((2025, 1, 1)));
    assert_eq!(i.delta(), 366 * 86400 + 86399);
    assert_eq!(i.num_days(), 366);
    let i = new_files_interval((2023, 2, 28), Some((2023, 3, 1)));
    assert_eq!(i.num_days(), 1);
    assert_eq!(new_files_interval((2025, 5, 1), None).num_days(), 0);
}

#[test]
fn dates_are_checked() {
    assert!(Date::new(2024, 2, 29).is_some());
    assert!(Date::new(2023, 2, 29).is_none());
    assert!(Date::new(2025, 13, 1).is_none());
    assert!(Date::new(2025, 4, 31).is_none());
    assert!(DateTime::new(2025, 4, 30, 24, 0, 0).is_none());
    assert_eq!(Date::new(7, 3, 9).unwrap().to_text(), "0007-03-09");
}

#[test]
fn short_forms_need_four_digit_years() {
    // The calendar library reads an unsigned year of at most four digits, so the short end
    // date of a range in year 10000 is not read and the name counts as a single day.
    let range = new_files_interval((10000, 1, 1), Some((10000, 1, 2)));
    let name = format!("{} x", range.to_string());
    assert_eq!(name, "+10000-01-01 - 02 x");
    assert_eq!(
        FilesInterval::try_from_name(&name),
        Some(new_files_interval((10000, 1, 1), None))
    );
}

#[test]
fn rest_starting_with_separator_is_read_as_range() {
    let day = new_files_interval((2025, 5, 1), None);
    let name = format!("{} {}", day.to_string(), "- 03 x");
    assert_eq!(
        FilesInterval::try_from_name(&name),
        Some(new_files_interval((2025, 5, 1), Some((2025, 5, 3))))
    );
}

#[test]
fn from_date_rejects_reversed_days() {
    let d1 = Date::new(2025, 5, 1).unwrap();
    let d2 = Date::new(2025, 5, 2).unwrap();
    assert_eq!(FilesInterval::from_date(d2, d1), None);
    assert_eq!(
        FilesInterval::from_date(d1, d2),
        Some(new_files_interval((2025, 5, 1), Some((2025, 5, 2))))
    );
}

#[test]
fn end_date_takes_the_first_reading() {
    let a = Date::new(2025, 5, 3);
    let b = Date::new(2025, 6, 3);
    let c = Date::new(2026, 1, 1);
    assert_eq!(end_date_of(a, b, c), a);
    assert_eq!(end_date_of(None, b, c), b);
    assert_eq!(end_date_of(None, None, c), c);
    assert_eq!(end_date_of(None, None, None), None);
}

#[test]
fn read_back_gives_the_interval() {
    let d1 = Date::new(2025, 5, 1).unwrap();
    let d3 = Date::new(2025, 5, 3).unwrap();
    let n1 = Date::new(2025, 6, 2).unwrap();
    let y2 = Date::new(2026, 1, 1).unwrap();
    for (from, to) in [(d1, d1), (d1, d3), (d1, n1), (d1, y2)] {
        assert_eq!(
            FilesInterval::read_back(from, to, "trip - day two"),
            FilesInterval::from_date(from, to)
        );
    }
    assert_eq!(
        FilesInterval::read_back(d1, d1, "trip - day two"),
        Some(new_files_interval((2025, 5, 1), None))
    );
}
