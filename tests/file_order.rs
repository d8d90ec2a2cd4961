use photo_dater::{ByCreatedDate, ByPath, DateTime, File, PhotoError};
use std::cmp::Ordering;

/// Helper function to create date-times for testing.
fn datetime(y: i32, m: u32, d: u32, hour: u32, min: u32, sec: u32) -> DateTime {
    DateTime::new(y, m, d, hour, min, sec).unwrap()
}

#[test]
fn cmp_by_path() {
    let created = datetime(2025, 5, 1, 10, 11, 12);
    let mut first_file = File {
        path: "./some/path/1.jpg".to_string(),
        created,
    };
    let mut second_file = File {
        path: "./some/path/2.jpg".to_string(),
        created,
    };
    assert_eq!(
        ByPath::<&File>(&first_file).cmp(&ByPath::<&File>(&second_file)),
        Ordering::Less
    );

    assert_eq!(
        ByPath::<&File>(&second_file).cmp(&ByPath::<&File>(&first_file)),
        Ordering::Greater
    );

    assert_eq!(
        ByPath::<&File>(&first_file).cmp(&ByPath::<&File>(&first_file)),
        Ordering::Equal
    );

    assert_eq!(
        ByPath::<&mut File>(&mut first_file).cmp(&ByPath::<&mut File>(&mut second_file)),
        Ordering::Less
    );

    let min = ByPath::<&File>(&first_file).min(ByPath::<&File>(&second_file));
    assert_eq!(&min.0.path, &first_file.path);

    {
        let min = ByPath::<&mut File>(&mut first_file).min(ByPath::<&mut File>(&mut second_file));
        min.0.path = "./some/path/3.jpg".to_string();
    }
    assert_eq!(first_file.path, "./some/path/3.jpg".to_string());
}

#[test]
fn cmp_by_date() {
    let mut first_file = File {
        path: String::new(),
        created: datetime(2025, 5, 1, 10, 11, 12),
    };
    let mut second_file = File {
        path: String::new(),
        created: datetime(2025, 5, 1, 10, 11, 13),
    };

    assert_eq!(
        ByCreatedDate::<&File>(&first_file).cmp(&ByCreatedDate::<&File>(&second_file)),
        Ordering::Less
    );

    assert_eq!(
        ByCreatedDate::<&mut File>(&mut first_file)
            .cmp(&ByCreatedDate::<&mut File>(&mut second_file)),
        Ordering::Less
    );

    assert_eq!(
        ByCreatedDate::<&File>(&second_file).cmp(&ByCreatedDate::<&File>(&first_file)),
        Ordering::Greater
    );

    assert_eq!(
        ByCreatedDate::<&File>(&first_file).cmp(&ByCreatedDate::<&File>(&first_file)),
        Ordering::Equal
    );

    let min = ByCreatedDate::<&File>(&first_file).min(ByCreatedDate::<&File>(&second_file));
    assert_eq!(&min.0.created, &first_file.created);

    {
        let min = ByCreatedDate::<&mut File>(&mut first_file)
            .min(ByCreatedDate::<&mut File>(&mut second_file));
        min.0.created = datetime(2025, 5, 1, 10, 11, 13);
    }
    assert_eq!(first_file.created, datetime(2025, 5, 1, 10, 11, 13));
}

#[test]
fn path_order_is_by_components() {
    let created = datetime(2025, 5, 1, 10, 11, 12);
    let short = File { path: "./a".to_string(), created };
    let long = File { path: "./ab".to_string(), created };
    let upper = File { path: "./B".to_string(), created };
    let nested = File { path: "./a/b".to_string(), created };
    let dashed = File { path: "./a-b".to_string(), created };
    assert_eq!(ByPath(&short).cmp(&ByPath(&long)), Ordering::Less);
    assert_eq!(ByPath(&upper).cmp(&ByPath(&short)), Ordering::Less);
    // The component `a` comes before `a-b`, although `-` comes before `/`.
    assert_eq!(ByPath(&nested).cmp(&ByPath(&dashed)), Ordering::Less);
    assert_eq!(ByPath(&dashed).cmp(&ByPath(&nested)), Ordering::Greater);
    let spaced = File { path: "./IMG 1/x.jpg".to_string(), created };
    let plain = File { path: "./IMG/y.jpg".to_string(), created };
    assert_eq!(ByPath(&plain).cmp(&ByPath(&spaced)), Ordering::Less);
    // Paths that differ only in a repeated separator name the same place.
    let doubled = File { path: "./a//b".to_string(), created };
    assert_eq!(ByPath(&doubled).cmp(&ByPath(&nested)), Ordering::Equal);
}

#[test]
fn parse_created_reads_both_forms() {
    assert_eq!(
        File::parse_created("2025-05-01 14:30:25"),
        Ok(datetime(2025, 5, 1, 14, 30, 25))
    );
    assert_eq!(
        File::parse_created("2025:05:01 14:30:25"),
        Ok(datetime(2025, 5, 1, 14, 30, 25))
    );
    assert_eq!(
        File::parse_created("yesterday"),
        Err(PhotoError::UnreadableDate { text: "yesterday".to_string() })
    );
}
