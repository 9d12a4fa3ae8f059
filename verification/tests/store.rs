use memo::data::{DataFile, DisplayMode, LineRule, Listing, MemoError};
use memo::date_time::{DateTimeFields, Timestamp, DATE_TIME_FORMAT};
use memo::models::{validate_line, Content, ListingRow, MemoData};

fn stamp(year: i32, month: u32, day: u32, hour: u32, minute: u32, second: u32) -> Timestamp {
    Timestamp::from_ymd_hms(year, month, day, hour, minute, second).unwrap()
}

#[test]
fn test_memo_data_add() {
    let mut d = MemoData::new();
    assert_eq!(d.add(1, "one").is_ok(), true);
    assert_eq!(d.contents.len(), 1);
}

#[test]
fn test_memo_data_load() {
    let mut d = MemoData::new();
    let data =
        "1: 2001-01-01 01:01:01 one\n2: 2002-02-02 02:02:02 two\n3: 2003-03-03 03:03:03 three\n\n"
            .to_string();
    assert_eq!(d.load(data).is_ok(), true);
    assert_eq!(d.sorted_ids(), vec![1, 2, 3]);
}

#[test]
fn test_memo_data_sorted_ids() {
    let mut d = MemoData::new();
    assert_eq!(d.add(2, "two").is_ok(), true);
    assert_eq!(d.add(1, "one").is_ok(), true);
    assert_eq!(d.add(3, "three").is_ok(), true);
    assert_eq!(d.sorted_ids(), vec![1, 2, 3]);
}

#[test]
fn test_memo_data_remove() {
    let mut d = MemoData::new();
    assert_eq!(d.add(1, "one").is_ok(), true);
    assert_eq!(d.remove(1).is_ok(), true);
    assert_eq!(d.contents.len(), 0);
}

#[test]
fn impls_test_memo_data_get() {
    let mut d = MemoData::new();
    assert_eq!(d.add(1, "one").is_ok(), true);
    assert_eq!(d.get(1).expect("Id should exist").text, "one");
}

#[test]
fn test_memo_data_display() {
    let mut d = MemoData::new();
    let data_str =
        "1: 2021-01-01 01:01:01 one\n2: 2021-01-01 01:01:01 two\n3: 2021-01-01 01:01:01 three\n";
    d.contents = MemoData::parse(data_str.to_string()).expect("Error parsing data");
    assert_eq!(d.to_text(), data_str);
}

#[test]
fn test_content_from_str() {
    let content = "2021-01-01 01:01:01 one";
    let date_time = "2021-01-01 01:01:01";
    let c = Content::from_str(content).expect("Error creating Content");
    assert_eq!(c.text, "one");
    assert_eq!(DATE_TIME_FORMAT, "%Y-%m-%d %H:%M:%S");
    assert_eq!(c.date_time.to_text(), date_time);
}

#[test]
fn test_content_from_str_spaces() {
    let content = " 2021-01-01 01:01:01 one two three ";
    let date_time = "2021-01-01 01:01:01";
    let c = Content::from_str(content).expect("Error creating Content");
    assert_eq!(c.text, "one two three");
    assert_eq!(c.date_time.to_text(), date_time);
}

#[test]
fn test_content_display() {
    let content = "2021-01-01 01:01:01 one";
    let c = Content::from_str(content).expect("Error creating Content");
    assert_eq!(c.to_text(), content);
}

#[test]
fn test_memo_data_new() {
    let d = MemoData::new();
    assert_eq!(d.contents.len(), 0);
}

#[test]
fn test_memo_data_parse() {
    let data =
        "1: 2001-01-01 01:01:01 one\n2: 2002-02-02 02:02:02 two\n3: 2003-03-03 03:03:03 three\n"
            .to_string();
    let d = MemoData::parse(data).unwrap();
    assert_eq!(d.len(), 3);
}

#[test]
fn models_test_memo_data_get() {
    let mut d = MemoData::new();
    let date_time =
        Timestamp::from_ymd_hms(2001, 1, 1, 1, 1, 1).expect("Error creating date NaiveDate");
    d.contents.insert(
        1,
        Content {
            text: "one".to_string(),
            date_time: Timestamp::from_fields(date_time.fields())
                .expect("Error creating time NaiveDateTime"),
        },
    );
    assert_eq!(d.get(1).unwrap().text, "one");
    assert!(d.get(2).is_none());
}

#[test]
fn test_validate_line() {
    let line = "1: 2001-01-01 01:01:01 one";
    let (id, content) = validate_line(line).unwrap();
    assert_eq!(id, 1);
    assert_eq!(content.text, "one");
    assert_eq!(content.date_time.to_text(), "2001-01-01 01:01:01");
}

#[test]
fn test_validate_line_invalid() {
    let line_invalid_id = "a: 2001-01-01 01:01:01 one";
    let line_missing_id = ": 2001-01-01 01:01:01 one";
    let line_missing_content = "1: 2001-01-01 01:01:01";
    let line_invalid_date = "1: 2001-01-01-01 01:01:01 one";

    assert!(validate_line(line_invalid_id).is_err());
    assert!(validate_line(line_missing_id).is_err());
    assert!(validate_line(line_missing_content).is_err());
    assert!(validate_line(line_invalid_date).is_err());
}

#[test]
fn validate_line_names_the_broken_rule_and_the_line() {
    for (line, rule) in [
        ("a: 2001-01-01 01:01:01 one", LineRule::Id),
        (": 2001-01-01 01:01:01 one", LineRule::Id),
        (" 1: 2001-01-01 01:01:01 one", LineRule::Id),
        ("1 2001-01-01 01-01-01 one", LineRule::Id),
        ("17", LineRule::Separator),
        ("1:", LineRule::Fields),
        ("1: 2001-01-01 01:01:01", LineRule::Fields),
        ("1: 2001-01-01 01:01:01 ", LineRule::Fields),
        ("1: 2001-01-01\t01:01:01 one", LineRule::Fields),
        ("1: 2001-01-01-01 01:01:01 one", LineRule::DateTime),
        ("1: 2001-01-01  01:01:01 one", LineRule::DateTime),
        ("1: 2001-13-01 01:01:01 one", LineRule::DateTime),
        ("1: +12001-01-01 01:01:01 one", LineRule::DateTime),
    ] {
        match validate_line(line) {
            Err(MemoError::MalformedLine(found, text)) => {
                assert_eq!(found, rule);
                assert_eq!(text, line);
            }
            _ => panic!("the line {:?} was accepted", line),
        }
    }
}

#[test]
fn validate_line_keeps_the_spaces_inside_the_text() {
    let (id, content) = validate_line("+12:2001-01-01 01:01:01  two  words \t").unwrap();
    assert_eq!(id, 12);
    assert_eq!(content.text, " two  words");
    let (id, content) = validate_line("3: 2001-01-01 01:01:01 a: b").unwrap();
    assert_eq!(id, 3);
    assert_eq!(content.text, "a: b");
}

#[test]
fn content_from_str_names_the_broken_rule() {
    match Content::from_str("2021-01-01 one") {
        Err(MemoError::MalformedLine(rule, text)) => {
            assert_eq!(rule, LineRule::Fields);
            assert_eq!(text, "2021-01-01 one");
        }
        _ => panic!("accepted"),
    }
    match Content::from_str("2021-01-01 25:00:00 one") {
        Err(MemoError::MalformedLine(rule, _)) => assert_eq!(rule, LineRule::DateTime),
        _ => panic!("accepted"),
    }
}

#[test]
fn parse_passes_over_empty_lines_and_carriage_returns() {
    let data = "\n1: 2001-01-01 01:01:01 one\r\n\r\n\n2: 2002-02-02 02:02:02 two".to_string();
    let d = MemoData::parse(data).unwrap();
    assert_eq!(d.len(), 2);
    assert_eq!(d[&1].text, "one");
    assert_eq!(d[&2].text, "two");
    assert_eq!(MemoData::parse(String::new()).unwrap().len(), 0);
}

#[test]
fn parse_is_all_or_nothing_and_reports_the_first_bad_line() {
    let data = "1: 2001-01-01 01:01:01 one\nx: bad\n3: also bad\n".to_string();
    match MemoData::parse(data) {
        Err(MemoError::MalformedLine(rule, line)) => {
            assert_eq!(rule, LineRule::Id);
            assert_eq!(line, "x: bad");
        }
        _ => panic!("accepted"),
    }
}

#[test]
fn parse_lets_a_later_line_replace_an_earlier_one() {
    let data = "1: 2001-01-01 01:01:01 one\n1: 2002-02-02 02:02:02 uno\n".to_string();
    let d = MemoData::parse(data).unwrap();
    assert_eq!(d.len(), 1);
    assert_eq!(d[&1].text, "uno");
    assert_eq!(d[&1].date_time.to_text(), "2002-02-02 02:02:02");
}

#[test]
fn load_changes_nothing_where_it_fails() {
    let mut d = MemoData::new();
    d.add_at(7, "seven", stamp(2001, 1, 1, 1, 1, 1)).unwrap();
    assert!(d.load("1: 2001-01-01-01 01:01:01 one\n".to_string()).is_err());
    assert_eq!(d.sorted_ids(), vec![7]);
    assert!(d.load("1: 2001-01-01 01:01:01 one\n".to_string()).is_ok());
    assert_eq!(d.sorted_ids(), vec![1]);
}

#[test]
fn add_on_an_id_in_use_fails_and_changes_nothing() {
    let mut d = MemoData::new();
    d.add_at(1, "one", stamp(2001, 1, 1, 1, 1, 1)).unwrap();
    let before = d.to_text();
    match d.add(1, "other") {
        Err(MemoError::DuplicateId(id)) => assert_eq!(id, 1),
        _ => panic!("added twice"),
    }
    match d.add_at(1, "other", stamp(2002, 2, 2, 2, 2, 2)) {
        Err(MemoError::DuplicateId(id)) => assert_eq!(id, 1),
        _ => panic!("added twice"),
    }
    assert_eq!(d.to_text(), before);
    assert_eq!(d.get(1).unwrap().text, "one");
}

#[test]
fn remove_on_an_absent_id_fails_and_changes_nothing() {
    let mut d = MemoData::new();
    d.add_at(1, "one", stamp(2001, 1, 1, 1, 1, 1)).unwrap();
    let before = d.to_text();
    match d.remove(2) {
        Err(MemoError::NotFound(id)) => assert_eq!(id, 2),
        _ => panic!("removed"),
    }
    assert_eq!(d.to_text(), before);
    assert_eq!(d.sorted_ids(), vec![1]);
}

#[test]
fn next_id_is_one_more_than_the_largest() {
    let mut d = MemoData::new();
    assert_eq!(d.next_id(), 1);
    for id in [2, 5, 7] {
        d.add_at(id, "x", stamp(2001, 1, 1, 1, 1, 1)).unwrap();
    }
    assert_eq!(d.next_id(), 8);
    d.remove(7).unwrap();
    assert_eq!(d.next_id(), 6);
    let mut zero = MemoData::new();
    zero.add_at(0, "x", stamp(2001, 1, 1, 1, 1, 1)).unwrap();
    assert_eq!(zero.next_id(), 1);
}

#[test]
fn sorted_ids_ascend_whatever_the_order_of_insertion() {
    let mut d = MemoData::new();
    for id in [3, 1, 2] {
        d.add_at(id, "x", stamp(2001, 1, 1, 1, 1, 1)).unwrap();
    }
    assert_eq!(d.sorted_ids(), vec![1, 2, 3]);
    let mut many = MemoData::new();
    for id in [40, 4000000000, 7, 0, 19, 300, 8] {
        many.add_at(id, "x", stamp(2001, 1, 1, 1, 1, 1)).unwrap();
    }
    assert_eq!(many.sorted_ids(), vec![0, 7, 8, 19, 40, 300, 4000000000]);
    assert_eq!(MemoData::new().sorted_ids(), Vec::<u32>::new());
}

#[test]
fn add_read_cuts_the_reading_down_to_the_second() {
    let mut d = MemoData::new();
    let reading = DateTimeFields {
        year: 2024,
        month: 2,
        day: 29,
        hour: 23,
        minute: 59,
        second: 59,
        nanosecond: 123_456_789,
    };
    d.add_read(1, "one", reading).unwrap();
    assert_eq!(d.to_text(), "1: 2024-02-29 23:59:59 one\n");
    match d.add_read(1, "again", reading) {
        Err(MemoError::DuplicateId(id)) => assert_eq!(id, 1),
        _ => panic!("added twice"),
    }
}

#[test]
fn add_read_rejects_a_reading_beyond_the_text_form() {
    let mut d = MemoData::new();
    let reading = DateTimeFields {
        year: 10000,
        month: 1,
        day: 1,
        hour: 0,
        minute: 0,
        second: 0,
        nanosecond: 0,
    };
    assert!(matches!(d.add_read(1, "one", reading), Err(MemoError::InvalidDateTime)));
    assert!(d.sorted_ids().is_empty());
}

#[test]
fn add_stamps_the_memo_with_the_present() {
    let mut d = MemoData::new();
    d.add(1, "one").unwrap();
    let written = d.get(1).unwrap().date_time.fields();
    assert!(written.year >= 2024);
    assert_eq!(written.nanosecond, 0);
}

#[test]
fn to_text_writes_one_line_per_memo_by_ascending_id() {
    let mut d = MemoData::new();
    d.add_at(10, "ten", stamp(2010, 10, 10, 10, 10, 10)).unwrap();
    d.add_at(2, "two words", stamp(2002, 2, 2, 2, 2, 2)).unwrap();
    assert_eq!(d.to_text(), "2: 2002-02-02 02:02:02 two words\n10: 2010-10-10 10:10:10 ten\n");
    assert_eq!(MemoData::new().to_text(), "");
    assert_eq!(MemoData::default().to_text(), "");
}

#[test]
fn text_form_round_trips() {
    let mut d = MemoData::new();
    d.add_at(1, "one", stamp(2001, 1, 1, 1, 1, 1)).unwrap();
    d.add_at(4294967295, " leading space and: colon", stamp(9999, 12, 31, 23, 59, 59)).unwrap();
    d.add_at(0, "z\u{e9}ro \u{1F600}", stamp(0, 1, 1, 0, 0, 0)).unwrap();
    let text = d.to_text();
    let back = MemoData::parse(text.clone()).unwrap();
    assert_eq!(back.len(), 3);
    for id in d.sorted_ids() {
        assert_eq!(back[&id].text, d.get(id).unwrap().text);
        assert_eq!(back[&id].date_time.fields(), d.get(id).unwrap().date_time.fields());
    }
    let again = MemoData { contents: back };
    assert_eq!(again.to_text(), text);
    let empty = MemoData::parse(MemoData::new().to_text()).unwrap();
    assert_eq!(empty.len(), 0);
}

#[test]
fn text_form_does_not_round_trip_a_text_that_ends_in_a_space() {
    let mut d = MemoData::new();
    d.add_at(1, "note ", stamp(2001, 1, 1, 1, 1, 1)).unwrap();
    let back = MemoData::parse(d.to_text()).unwrap();
    assert_eq!(back[&1].text, "note");
    let mut e = MemoData::new();
    e.add_at(1, "", stamp(2001, 1, 1, 1, 1, 1)).unwrap();
    assert!(MemoData::parse(e.to_text()).is_err());
}

#[test]
fn load_remove_and_write_back() {
    let mut d = MemoData::new();
    d.load("1: 2001-01-01 01:01:01 one\n2: 2002-02-02 02:02:02 two\n".to_string()).unwrap();
    d.remove(1).unwrap();
    assert_eq!(d.to_text(), "2: 2002-02-02 02:02:02 two\n");
}

#[test]
fn group_by_date_lists_newest_first_under_day_headings() {
    let mut d = MemoData::new();
    d.add_at(1, "one", stamp(2001, 1, 1, 1, 1, 1)).unwrap();
    d.add_at(2, "two", stamp(2001, 1, 1, 2, 2, 2)).unwrap();
    d.add_at(3, "three", stamp(2001, 1, 2, 3, 3, 3)).unwrap();
    d.add_at(12, "twelve", stamp(2001, 1, 1, 4, 4, 4)).unwrap();
    let rows = d.group_by_date();
    let shown: Vec<String> = rows
        .iter()
        .map(|row| match row {
            ListingRow::Day(heading) => format!("# {}", heading),
            ListingRow::Memo(label, text) => format!("{} {}", label, text),
        })
        .collect();
    assert_eq!(
        shown,
        vec![
            "# Monday, January  1, 2001",
            "12: 04:04:04 twelve",
            "# Tuesday, January  2, 2001",
            "03: 03:03:03 three",
            "# Monday, January  1, 2001",
            "02: 02:02:02 two",
            "01: 01:01:01 one",
        ]
    );
    assert!(MemoData::new().group_by_date().is_empty());
}

#[test]
fn display_gives_the_listing_of_the_mode() {
    let mut d = MemoData::new();
    d.add_at(1, "one", stamp(2001, 1, 1, 1, 1, 1)).unwrap();
    match d.display(DisplayMode::Sorted) {
        Listing::Sorted(text) => assert_eq!(text, "1: 2001-01-01 01:01:01 one\n"),
        _ => panic!("wrong layout"),
    }
    match d.display(DisplayMode::GroupByDate) {
        Listing::GroupByDate(rows) => assert_eq!(rows.len(), 2),
        _ => panic!("wrong layout"),
    }
}

#[test]
fn data_file_methods_are_those_of_the_store() {
    let mut d = MemoData::new();
    assert!(DataFile::load(&mut d, "5: 2001-01-01 01:01:01 five\n".to_string()).is_ok());
    assert!(DataFile::add(&mut d, 6, "six").is_ok());
    assert!(DataFile::add(&mut d, 6, "six").is_err());
    assert_eq!(DataFile::sorted_ids(&d), vec![5, 6]);
    assert!(DataFile::remove(&mut d, 6).is_ok());
    assert!(DataFile::remove(&mut d, 6).is_err());
    assert_eq!(DataFile::to_text(&d), "5: 2001-01-01 01:01:01 five\n");
}

#[test]
fn messages_name_the_id_or_the_line() {
    assert_eq!(MemoError::DuplicateId(7).message(), "Id '7' already exists");
    assert_eq!(MemoError::NotFound(12).message(), "Id '12' not found");
    assert_eq!(
        MemoError::MalformedLine(LineRule::Id, "a: b".to_string()).message(),
        "Invalid id in line 'a: b'"
    );
    assert_eq!(
        MemoError::MalformedLine(LineRule::Separator, "12".to_string()).message(),
        "Missing content in line '12'"
    );
    assert_eq!(
        MemoError::MalformedLine(LineRule::Fields, "1: x".to_string()).message(),
        "Expected a date, a time and a text in line '1: x'"
    );
    assert_eq!(
        MemoError::MalformedLine(LineRule::DateTime, "1: x y z".to_string()).message(),
        "Invalid date time in line '1: x y z'"
    );
    assert_eq!(
        MemoError::InvalidDateTime.message(),
        "The current time is outside the years 0 to 9999"
    );
}

#[test]
fn render_sorted_gives_the_memos_by_ascending_id() {
    let mut d = MemoData::new();
    d.add_at(3, "three", stamp(2003, 3, 3, 3, 3, 3)).unwrap();
    d.add_at(1, "one", stamp(2001, 1, 1, 1, 1, 1)).unwrap();
    d.add_at(2, "two", stamp(2002, 2, 2, 2, 2, 2)).unwrap();
    let shown: Vec<(u32, String)> =
        d.render_sorted().iter().map(|(id, content)| (*id, content.to_text())).collect();
    assert_eq!(
        shown,
        vec![
            (1, "2001-01-01 01:01:01 one".to_string()),
            (2, "2002-02-02 02:02:02 two".to_string()),
            (3, "2003-03-03 03:03:03 three".to_string()),
        ]
    );
    assert!(MemoData::new().render_sorted().is_empty());
}
