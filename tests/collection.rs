use chrono::{Datelike, NaiveDateTime, Timelike};
use photo_dater::{ByCreatedDate, ByPath, DateTime, File, Files, FilesInterval, RenamedFile};
use std::str::FromStr;

fn at(text: &str) -> DateTime {
    let t = NaiveDateTime::from_str(text).unwrap();
    DateTime::new(t.year(), t.month(), t.day(), t.hour(), t.minute(), t.second()).unwrap()
}

fn testing_files() -> [File; 3] {
    [
        File {
            path: "./1.jpg".to_string(),
            created: at("2025-05-01T12:13:14"),
        },
        File {
            path: "./2.png".to_string(),
            created: at("2025-05-01T14:15:16"),
        },
        File {
            path: "./3".to_string(),
            created: at("2025-05-03T12:13:14"),
        },
    ]
}

fn collect(files: &[&File]) -> Files {
    Files::new(files.iter().map(|f| (*f).clone()).collect())
}

#[test]
fn interval() {
    let [file1, file2, file3] = testing_files();

    let files = Files::new(vec![]);
    assert_eq!(files.interval(), None);

    let files = collect(&[&file1]);
    assert_eq!(
        files.interval(),
        Some(FilesInterval {
            from: at("2025-05-01T12:13:14"),
            to: at("2025-05-01T12:13:14")
        })
    );

    let files = collect(&[&file1, &file2]);
    assert_eq!(
        files.interval(),
        Some(FilesInterval {
            from: at("2025-05-01T12:13:14"),
            to: at("2025-05-01T14:15:16")
        })
    );

    let files = collect(&[&file1, &file3]);
    assert_eq!(
        files.interval(),
        Some(FilesInterval {
            from: at("2025-05-01T12:13:14"),
            to: at("2025-05-03T12:13:14")
        })
    );

    let files = collect(&[&file1, &file3, &file2]);
    assert_eq!(
        files.interval(),
        Some(FilesInterval {
            from: at("2025-05-01T12:13:14"),
            to: at("2025-05-03T12:13:14")
        })
    );
}

#[test]
fn rename_files() {
    let [file1, file2, file3] = testing_files();

    let files = Files::new(vec![]);
    assert_eq!(files.rename_files::<ByPath<&File>>("new name", Some(4)), vec![]);

    let files = collect(&[&file1]);
    assert_eq!(
        files.rename_files::<ByPath<&File>>("new_name", Some(4)),
        vec![RenamedFile(file1.clone(), "./new_name 0001.jpg".to_string())]
    );

    let files = collect(&[&file1, &file2]);
    assert_eq!(
        files.rename_files::<ByPath<&File>>("new_name", Some(4)),
        vec![
            RenamedFile(file1.clone(), "./new_name 0001.jpg".to_string()),
            RenamedFile(file2.clone(), "./new_name 0002.png".to_string())
        ]
    );

    let files = collect(&[&file1, &file3]);
    assert_eq!(
        files.rename_files::<ByPath<&File>>("new_name", Some(4)),
        vec![
            RenamedFile(file1.clone(), "./new_name 0001.jpg".to_string()),
            RenamedFile(file3.clone(), "./new_name 0002".to_string()),
        ]
    );

    let files = collect(&[&file1, &file3, &file2]);
    assert_eq!(
        files.rename_files::<ByPath<&File>>("new_name", Some(4)),
        vec![
            RenamedFile(file1.clone(), "./new_name 0001.jpg".to_string()),
            RenamedFile(file2.clone(), "./new_name 0002.png".to_string()),
            RenamedFile(file3.clone(), "./new_name 0003".to_string()),
        ]
    );
}

#[test]
fn move_by_days() {
    let [file1, file2, file3] = testing_files();

    let files = Files::new(vec![]);
    assert_eq!(files.move_by_days(), Vec::<Vec<RenamedFile>>::new());

    let files = collect(&[&file1]);
    assert_eq!(
        files.move_by_days(),
        vec![vec![RenamedFile(file1.clone(), "./2025-05-01/1.jpg".to_string())]]
    );

    let files = collect(&[&file1, &file2]);
    assert_eq!(
        files.move_by_days(),
        vec![vec![
            RenamedFile(file1.clone(), "./2025-05-01/1.jpg".to_string()),
            RenamedFile(file2.clone(), "./2025-05-01/2.png".to_string())
        ]]
    );

    let files = collect(&[&file1, &file3]);
    assert_eq!(
        files.move_by_days(),
        vec![
            vec![RenamedFile(file1.clone(), "./2025-05-01/1.jpg".to_string())],
            vec![RenamedFile(file3.clone(), "./2025-05-03/3".to_string())],
        ]
    );

    let files = collect(&[&file1, &file3, &file2]);
    assert_eq!(
        files.move_by_days(),
        vec![
            vec![
                RenamedFile(file1.clone(), "./2025-05-01/1.jpg".to_string()),
                RenamedFile(file2.clone(), "./2025-05-01/2.png".to_string())
            ],
            vec![RenamedFile(file3.clone(), "./2025-05-03/3".to_string())],
        ]
    );
}

#[test]
fn sequential_names_for_photo_base() {
    let created = at("2025-05-01T12:00:00");
    let b = File { path: "b.jpg".to_string(), created };
    let a = File { path: "a.png".to_string(), created };
    let c = File { path: "c".to_string(), created };
    let files = collect(&[&b, &a, &c]);
    assert_eq!(
        files.rename_files::<ByPath<&File>>("photo", Some(4)),
        vec![
            RenamedFile(a.clone(), "photo 0001.png".to_string()),
            RenamedFile(b.clone(), "photo 0002.jpg".to_string()),
            RenamedFile(c.clone(), "photo 0003".to_string()),
        ]
    );
    // Without a width, the numbers take as many digits as the count of files.
    assert_eq!(
        files.rename_files::<ByPath<&File>>("photo", None),
        vec![
            RenamedFile(a.clone(), "photo 1.png".to_string()),
            RenamedFile(b.clone(), "photo 2.jpg".to_string()),
            RenamedFile(c.clone(), "photo 3".to_string()),
        ]
    );
}

#[test]
fn default_width_follows_the_count() {
    let created = at("2025-05-01T12:00:00");
    let list: Vec<File> = (0..10)
        .map(|i| File { path: format!("./f{i}.jpg"), created })
        .collect();
    let renamed = Files::new(list).rename_files::<ByPath<&File>>("p", None);
    assert_eq!(renamed[0].1, "./p 01.jpg");
    assert_eq!(renamed[9].1, "./p 10.jpg");
}

#[test]
fn rename_files_by_created_date() {
    let [file1, file2, file3] = testing_files();
    let files = collect(&[&file3, &file2, &file1]);
    assert_eq!(
        files.rename_files::<ByCreatedDate<&File>>("n", Some(2)),
        vec![
            RenamedFile(file1.clone(), "./n 01.jpg".to_string()),
            RenamedFile(file2.clone(), "./n 02.png".to_string()),
            RenamedFile(file3.clone(), "./n 03".to_string()),
        ]
    );
}

#[test]
fn sorting_by_date_keeps_ties_in_place() {
    let created = at("2025-05-01T12:00:00");
    let x = File { path: "./x".to_string(), created };
    let y = File { path: "./y".to_string(), created };
    let early = File { path: "./z".to_string(), created: at("2025-04-30T08:00:00") };
    let files = collect(&[&y, &x, &early]);
    assert_eq!(files.get_sorted::<ByCreatedDate<&File>>(), vec![early.clone(), y.clone(), x.clone()]);
    assert_eq!(files.get_sorted::<ByPath<&File>>(), vec![x, y, early]);
}

#[test]
fn interval_spans_earliest_to_latest() {
    let files = Files::new(vec![
        File { path: "./m".to_string(), created: at("2025-05-02T09:00:00") },
        File { path: "./l".to_string(), created: at("2025-06-01T00:00:01") },
        File { path: "./e".to_string(), created: at("2024-12-31T23:59:59") },
        File { path: "./n".to_string(), created: at("2025-05-02T08:00:00") },
    ]);
    let interval = files.interval().unwrap();
    assert_eq!(interval.from, at("2024-12-31T23:59:59"));
    assert_eq!(interval.to, at("2025-06-01T00:00:01"));
}

#[test]
fn groups_by_days_cover_the_sorted_files() {
    let files = Files::new(vec![
        File { path: "./c".to_string(), created: at("2025-05-03T10:00:00") },
        File { path: "./a".to_string(), created: at("2025-05-01T23:59:59") },
        File { path: "./d".to_string(), created: at("2025-05-03T09:00:00") },
        File { path: "./b".to_string(), created: at("2025-05-02T00:00:00") },
    ]);
    let groups = files.group_by_days();
    let flat: Vec<File> = groups.iter().flatten().cloned().collect();
    assert_eq!(flat, files.get_sorted::<ByCreatedDate<&File>>());
    assert_eq!(groups.len(), 3);
    let paths: Vec<Vec<&str>> = groups
        .iter()
        .map(|g| g.iter().map(|f| f.path.as_str()).collect())
        .collect();
    assert_eq!(paths, vec![vec!["./a"], vec!["./b"], vec!["./d", "./c"]]);
    for g in &groups {
        assert!(!g.is_empty());
    }
    assert!(Files::new(vec![]).group_by_days().is_empty());
}

#[test]
fn move_by_days_drops_files_without_parent() {
    let files = Files::new(vec![
        File { path: "/".to_string(), created: at("2025-05-01T10:00:00") },
        File { path: "/photos/x.jpg".to_string(), created: at("2025-05-01T11:00:00") },
    ]);
    let expected = vec![vec![RenamedFile(
        File { path: "/photos/x.jpg".to_string(), created: at("2025-05-01T11:00:00") },
        "/photos/2025-05-01/x.jpg".to_string(),
    )]];
    assert_eq!(files.move_by_days(), expected);
}

#[test]
fn sorting_by_path_follows_components() {
    let created = at("2025-05-01T12:00:00");
    let dashed = File { path: "./a-b".to_string(), created };
    let nested = File { path: "./a/b".to_string(), created };
    let spaced = File { path: "./IMG 1/x.jpg".to_string(), created };
    let plain = File { path: "./IMG/y.jpg".to_string(), created };
    let files = collect(&[&dashed, &spaced, &nested, &plain]);
    assert_eq!(
        files.get_sorted::<ByPath<&File>>(),
        vec![plain.clone(), spaced.clone(), nested.clone(), dashed.clone()]
    );
    let renamed = files.rename_files::<ByPath<&File>>("p", None);
    assert_eq!(renamed[0].1, "./IMG/p 1.jpg");
    assert_eq!(renamed[1].1, "./IMG 1/p 2.jpg");
}
