use bomajou::buckets::BookmarksByDate;
use bomajou::date::CalendarDate;
use bomajou::group::{
    group_items, place_item, Diagnostic, GroupError, ItemOutcome, RawBookmark, UnparseablePolicy,
};
use bomajou::render::render;
use bomajou::response::{group_response, read_items};

fn date(year: i32, month: u32, day: u32) -> CalendarDate {
    CalendarDate { year, month, day }
}

fn raw(title: Option<&str>, created: Option<&str>, link: Option<&str>) -> RawBookmark {
    RawBookmark {
        title: title.map(|s| s.to_string()),
        created: created.map(|s| s.to_string()),
        link: link.map(|s| s.to_string()),
    }
}

fn today() -> CalendarDate {
    date(2030, 6, 15)
}

fn entries(m: &BookmarksByDate) -> Vec<(String, Vec<String>)> {
    m.buckets.iter().map(|b| (b.date.key(), b.entries.clone())).collect()
}

#[test]
fn two_items_same_date_round_trip() {
    let json: serde_json::Value = serde_json::from_str(
        r#"{"items": [
            {"created": "2024-01-05T10:00:00.000Z", "title": "A", "link": "http://a"},
            {"created": "2024-01-05T11:00:00Z", "title": "B", "link": "http://b"}
        ]}"#,
    )
    .unwrap();
    let g = group_response(&json, today(), UnparseablePolicy::FileUnderToday).unwrap();
    assert_eq!(g.dates.buckets.len(), 1);
    assert_eq!(
        entries(&g.dates),
        vec![(
            "2024-01-05".to_string(),
            vec!["[A](http://a)".to_string(), "[B](http://b)".to_string()]
        )]
    );
    assert!(g.diagnostics.is_empty());
    assert_eq!(
        render(&g.dates),
        "# Bomajou\n\n## [[2024-01-05]]\n\n- [A](http://a)\n- [B](http://b)\n"
    );
}

#[test]
fn each_record_lands_in_its_own_date_once() {
    let items = vec![
        raw(Some("x"), Some("2024-03-02T00:00:00Z"), Some("l1")),
        raw(Some("y"), Some("2024-03-01T23:59:59.5Z"), Some("l2")),
        raw(Some("z"), Some("2024-03-02T12:00:00Z"), Some("l3")),
    ];
    let g = group_items(&items, today(), UnparseablePolicy::FileUnderToday).unwrap();
    assert_eq!(
        entries(&g.dates),
        vec![
            ("2024-03-01".to_string(), vec!["[y](l2)".to_string()]),
            ("2024-03-02".to_string(), vec!["[x](l1)".to_string(), "[z](l3)".to_string()]),
        ]
    );
    let total: usize = g.dates.buckets.iter().map(|b| b.entries.len()).sum();
    assert_eq!(total, 3);
}

#[test]
fn dates_render_in_ascending_order() {
    let items = vec![
        raw(Some("late"), Some("2025-01-01T00:00:00Z"), Some("c")),
        raw(Some("early"), Some("1999-12-31T00:00:00Z"), Some("a")),
        raw(Some("mid"), Some("2024-10-09T00:00:00Z"), Some("b")),
    ];
    let g = group_items(&items, today(), UnparseablePolicy::FileUnderToday).unwrap();
    assert_eq!(
        render(&g.dates),
        "# Bomajou\n\n## [[1999-12-31]]\n\n- [early](a)\n\n## [[2024-10-09]]\n\n- [mid](b)\n\n## [[2025-01-01]]\n\n- [late](c)\n"
    );
}

#[test]
fn rendering_twice_gives_identical_text() {
    let items = vec![
        raw(Some("a"), Some("2024-01-01T00:00:00Z"), Some("1")),
        raw(Some("b"), Some("2024-01-02T00:00:00Z"), Some("2")),
    ];
    let g = group_items(&items, today(), UnparseablePolicy::FileUnderToday).unwrap();
    assert_eq!(render(&g.dates), render(&g.dates));
    assert_eq!(render(&g.dates), render(&g.dates.clone()));
}

#[test]
fn untitled_records_are_left_out_silently() {
    let items = vec![
        raw(None, Some("2024-01-01T00:00:00Z"), Some("1")),
        raw(Some("kept"), Some("2024-01-01T00:00:00Z"), Some("2")),
        raw(None, None, None),
    ];
    let g = group_items(&items, today(), UnparseablePolicy::FileUnderToday).unwrap();
    assert_eq!(
        entries(&g.dates),
        vec![("2024-01-01".to_string(), vec!["[kept](2)".to_string()])]
    );
    assert!(g.diagnostics.is_empty());
}

#[test]
fn unparseable_timestamp_files_under_today_with_a_note() {
    let items = vec![raw(Some("t"), Some("yesterday"), Some("u"))];
    let g = group_items(&items, today(), UnparseablePolicy::FileUnderToday).unwrap();
    assert_eq!(
        entries(&g.dates),
        vec![("2030-06-15".to_string(), vec!["[t](u)".to_string()])]
    );
    assert_eq!(
        g.diagnostics,
        vec![Diagnostic::UnparseableTimestamp { index: 0, text: "yesterday".to_string() }]
    );
}

#[test]
fn unparseable_timestamp_dropped_under_drop_policy() {
    let items = vec![
        raw(Some("t"), Some("2024-13-01T00:00:00Z"), Some("u")),
        raw(Some("k"), Some("2024-01-01T00:00:00Z"), Some("v")),
    ];
    let g = group_items(&items, today(), UnparseablePolicy::Drop).unwrap();
    assert_eq!(
        entries(&g.dates),
        vec![("2024-01-01".to_string(), vec!["[k](v)".to_string()])]
    );
    assert_eq!(
        g.diagnostics,
        vec![Diagnostic::UnparseableTimestamp { index: 0, text: "2024-13-01T00:00:00Z".to_string() }]
    );
}

#[test]
fn missing_created_is_noted_and_skipped() {
    let items = vec![
        raw(Some("a"), None, Some("1")),
        raw(Some("b"), Some("2024-05-05T05:05:05Z"), Some("2")),
    ];
    let g = group_items(&items, today(), UnparseablePolicy::FileUnderToday).unwrap();
    assert_eq!(g.diagnostics, vec![Diagnostic::MissingCreated { index: 0 }]);
    assert_eq!(
        entries(&g.dates),
        vec![("2024-05-05".to_string(), vec!["[b](2)".to_string()])]
    );
}

#[test]
fn missing_link_abandons_the_run() {
    let items = vec![
        raw(Some("a"), Some("2024-01-01T00:00:00Z"), Some("1")),
        raw(Some("b"), Some("2024-01-01T00:00:00Z"), None),
        raw(Some("c"), Some("2024-01-01T00:00:00Z"), None),
    ];
    let r = group_items(&items, today(), UnparseablePolicy::FileUnderToday);
    assert_eq!(r.err(), Some(GroupError::MissingLink(1)));
}

#[test]
fn empty_input_renders_title_only() {
    let g = group_items(&Vec::new(), today(), UnparseablePolicy::FileUnderToday).unwrap();
    assert!(g.dates.buckets.is_empty());
    assert_eq!(render(&g.dates), "# Bomajou\n");
}

#[test]
fn place_item_outcomes() {
    let d = date(2024, 2, 29);
    let t = today();
    let p = UnparseablePolicy::FileUnderToday;
    assert!(matches!(
        place_item(&raw(None, Some("x"), Some("l")), Some(d), t, p),
        ItemOutcome::Untitled
    ));
    assert!(matches!(
        place_item(&raw(Some("a"), None, Some("l")), Some(d), t, p),
        ItemOutcome::MissingCreated
    ));
    assert!(matches!(
        place_item(&raw(Some("a"), Some("x"), None), Some(d), t, p),
        ItemOutcome::MissingLink
    ));
    assert!(matches!(
        place_item(&raw(Some("a"), Some("x"), Some("l")), None, t, UnparseablePolicy::Drop),
        ItemOutcome::Dropped
    ));
    match place_item(&raw(Some("a"), Some("x"), Some("l")), Some(d), t, p) {
        ItemOutcome::Filed { date, text, fallback } => {
            assert_eq!(date, d);
            assert_eq!(text, "[a](l)");
            assert!(!fallback);
        }
        other => panic!("unexpected {:?}", other),
    }
    match place_item(&raw(Some("a"), Some("x"), Some("l")), None, t, p) {
        ItemOutcome::Filed { date, fallback, .. } => {
            assert_eq!(date, t);
            assert!(fallback);
        }
        other => panic!("unexpected {:?}", other),
    }
}

#[test]
fn response_without_items_is_malformed() {
    let json: serde_json::Value = serde_json::from_str(r#"{"data": []}"#).unwrap();
    assert_eq!(read_items(&json).err(), Some(GroupError::MissingItems));
    let json: serde_json::Value = serde_json::from_str(r#"{"items": {"a": 1}}"#).unwrap();
    assert_eq!(
        group_response(&json, today(), UnparseablePolicy::FileUnderToday).err(),
        Some(GroupError::ItemsNotArray)
    );
}

#[test]
fn response_fields_are_read() {
    let json: serde_json::Value = serde_json::from_str(
        r#"{"items": [
            {"title": 7, "created": "2024-01-05T10:00:00Z", "link": "l"},
            {"title": "s", "created": 12, "link": "m"},
            {"created": "2024-01-05T10:00:00Z", "link": "n"},
            3
        ]}"#,
    )
    .unwrap();
    let items = read_items(&json).unwrap();
    assert_eq!(items.len(), 4);
    assert_eq!(items[0].title.as_deref(), Some("7"));
    assert_eq!(items[1].title.as_deref(), Some("s"));
    assert_eq!(items[1].created, None);
    assert_eq!(items[2].title, None);
    assert_eq!(items[3].link, None);
    let g = group_response(&json, today(), UnparseablePolicy::FileUnderToday).unwrap();
    assert_eq!(
        entries(&g.dates),
        vec![("2024-01-05".to_string(), vec!["[7](l)".to_string()])]
    );
    assert_eq!(g.diagnostics, vec![Diagnostic::MissingCreated { index: 1 }]);
}

#[test]
fn insert_keeps_dates_sorted_and_entries_in_order() {
    let mut m = BookmarksByDate::new();
    m.insert(date(2024, 5, 1), "b".to_string());
    m.insert(date(2023, 5, 1), "a".to_string());
    m.insert(date(2024, 5, 1), "c".to_string());
    m.insert(date(2024, 4, 30), "d".to_string());
    assert_eq!(
        entries(&m),
        vec![
            ("2023-05-01".to_string(), vec!["a".to_string()]),
            ("2024-04-30".to_string(), vec!["d".to_string()]),
            ("2024-05-01".to_string(), vec!["b".to_string(), "c".to_string()]),
        ]
    );
}

#[test]
fn untitled_records_leave_the_document_unchanged() {
    let all = vec![
        raw(None, Some("2024-01-02T00:00:00Z"), Some("0")),
        raw(Some("a"), Some("2024-01-01T00:00:00Z"), Some("1")),
        raw(None, Some("bad"), None),
        raw(Some("b"), Some("2024-01-03T00:00:00Z"), Some("2")),
        raw(None, None, Some("3")),
    ];
    let titled: Vec<RawBookmark> = all.iter().filter(|r| r.title.is_some()).cloned().collect();
    let p = UnparseablePolicy::FileUnderToday;
    let g_all = group_items(&all, today(), p).unwrap();
    let g_titled = group_items(&titled, today(), p).unwrap();
    assert_eq!(render(&g_all.dates), render(&g_titled.dates));
    assert_eq!(g_all.dates.buckets.len(), 2);
    assert!(g_all.diagnostics.is_empty());
}
