use cvpn::Segment;
use cvpn::Size;
use cvpn::Sort;
use cvpn::Timestamp;
use cvpn::Unit;
use cvpn::sort::sort_segments;

fn ts(second: u8) -> Timestamp {
    Timestamp { year: 2023, month: 1, day: 2, hour: 3, minute: 4, second }
}

fn file(name: &str, size: Size, second: u8) -> Segment {
    Segment::from_file(name.to_string(), name.to_string(), size, "v".to_string(), ts(second))
}

fn dir(name: &str, second: u8) -> Segment {
    Segment::from_dir(name.to_string(), name.to_string(), "v".to_string(), ts(second))
}

#[test]
fn megabyte_outranks_any_number_of_kilobytes() {
    let small = Size::new(100, Unit::MB);
    let large = Size::new(99900, Unit::KB);
    assert!(large.le(&small));
    assert!(!small.le(&large));
}

#[test]
fn sort_by_size_ranks_unit_first() {
    let v = vec![
        file("one-mb", Size::new(100, Unit::MB), 0),
        file("many-kb", Size::new(99900, Unit::KB), 0),
        dir("d", 0),
    ];
    let r = sort_segments(v, &Sort::Size);
    assert_eq!(r[0].name, "d");
    assert_eq!(r[1].name, "many-kb");
    assert_eq!(r[2].name, "one-mb");
}

#[test]
fn sort_by_name_is_lexicographic() {
    let v = vec![dir("bb", 0), dir("a", 0), dir("ab", 0)];
    let r = sort_segments(v, &Sort::Name);
    assert_eq!(r[0].name, "a");
    assert_eq!(r[1].name, "ab");
    assert_eq!(r[2].name, "bb");
}

#[test]
fn sort_by_date_is_chronological() {
    let v = vec![dir("late", 30), dir("early", 1), dir("mid", 15)];
    let r = sort_segments(v, &Sort::Date);
    assert_eq!(r[0].name, "early");
    assert_eq!(r[1].name, "mid");
    assert_eq!(r[2].name, "late");
}

#[test]
fn unsorted_keeps_the_server_order() {
    let v = vec![dir("z", 0), dir("a", 0)];
    let r = sort_segments(v, &Sort::Unsorted);
    assert_eq!(r[0].name, "z");
    assert_eq!(r[1].name, "a");
}

#[test]
fn sort_key_names() {
    assert_eq!(Sort::from_str("size"), Some(Sort::Size));
    assert_eq!(Sort::from_str("date"), Some(Sort::Date));
    assert_eq!(Sort::from_str("name"), Some(Sort::Name));
    assert_eq!(Sort::from_str("none"), Some(Sort::Unsorted));
    assert_eq!(Sort::from_str("weight"), None);
}
