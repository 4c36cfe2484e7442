use cvpn::ListError;
use cvpn::Size;
use cvpn::Timestamp;
use cvpn::Unit;
use cvpn::VolumeID;
use cvpn::listing::classify_list_status;
use cvpn::listing::list_query_pairs;
use cvpn::listing::parse_listing;
use cvpn::listing::parse_listing_page;
use cvpn::timestamp::parse_timestamp;

#[test]
fn two_entry_block_yields_directory_then_file() {
    let block = "d(\"docs\",\"0\",\"Mon Jan  2 03:04:05 2023\");\nf(\"a.txt\",\"0\",\"12&nbsp;KB\",\"Mon Jan  2 03:04:06 2023\");";
    let segs = parse_listing(block, "/class", &VolumeID::FSShare).unwrap();
    assert_eq!(segs.len(), 2);

    assert_eq!(segs[0].name, "docs");
    assert_eq!(segs[0].path, "/class/docs");
    assert!(segs[0].is_dir);
    assert!(!segs[0].is_file);
    assert!(segs[0].size.is_none());
    assert_eq!(segs[0].volume_id, "resource_1423533946.487706.3");
    assert_eq!(
        segs[0].uploaded_at,
        Timestamp { year: 2023, month: 1, day: 2, hour: 3, minute: 4, second: 5 }
    );

    assert_eq!(segs[1].name, "a.txt");
    assert_eq!(segs[1].path, "/class/a.txt");
    assert!(segs[1].is_file);
    assert!(!segs[1].is_dir);
    assert_eq!(segs[1].size, Some(Size { centi: 1200, unit: Unit::KB }));
    assert_eq!(
        segs[1].uploaded_at,
        Timestamp { year: 2023, month: 1, day: 2, hour: 3, minute: 4, second: 6 }
    );
}

#[test]
fn blank_and_unrecognised_lines_are_skipped() {
    let block = "\nvar x = 1;\n\nd(\"a\",\"0\",\"Mon Jan  2 03:04:05 2023\");\n";
    let segs = parse_listing(block, "", &VolumeID::FSShare).unwrap();
    assert_eq!(segs.len(), 1);
    assert_eq!(segs[0].name, "a");
    assert_eq!(segs[0].path, "a");
}

#[test]
fn fractional_size_is_held_in_hundredths() {
    let block = "f(\"b\",\"0\",\"1.5&nbsp;MB\",\"Mon Jan  2 03:04:05 2023\");";
    let segs = parse_listing(block, "/", &VolumeID::FSShare).unwrap();
    assert_eq!(segs[0].size, Some(Size { centi: 150, unit: Unit::MB }));
    assert_eq!(segs[0].path, "/b");
}

#[test]
fn size_field_without_separator_is_malformed() {
    let block = "f(\"b\",\"0\",\"12KB\",\"Mon Jan  2 03:04:05 2023\");";
    assert!(matches!(
        parse_listing(block, "/", &VolumeID::FSShare),
        Err(ListError::MalformedSizeField)
    ));
}

#[test]
fn size_field_with_two_separators_is_malformed() {
    let block = "f(\"b\",\"0\",\"12&nbsp;KB&nbsp;x\",\"Mon Jan  2 03:04:05 2023\");";
    assert!(matches!(
        parse_listing(block, "/", &VolumeID::FSShare),
        Err(ListError::MalformedSizeField)
    ));
}

#[test]
fn bad_timestamp_aborts_listing_and_names_the_line() {
    let line = "d(\"docs\",\"0\",\"not a time\");";
    match parse_listing(line, "/", &VolumeID::FSShare) {
        Err(ListError::TimestampParseFailure(l)) => assert_eq!(l, line),
        _ => panic!("expected a timestamp failure"),
    }
}

#[test]
fn unknown_unit_falls_back_to_bytes() {
    assert_eq!(Unit::from_str("B"), Unit::B);
    assert_eq!(Unit::from_str("KB"), Unit::KB);
    assert_eq!(Unit::from_str("MB"), Unit::MB);
    assert_eq!(Unit::from_str("GB"), Unit::GB);
    assert_eq!(Unit::from_str("TB"), Unit::TB);
    assert_eq!(Unit::from_str("PB"), Unit::B);
}

#[test]
fn timestamp_wrapper_reads_fixed_format() {
    assert_eq!(
        parse_timestamp("Mon Jan  2 03:04:05 2023"),
        Some(Timestamp { year: 2023, month: 1, day: 2, hour: 3, minute: 4, second: 5 })
    );
    assert_eq!(parse_timestamp("2023-01-02 03:04:05"), None);
    assert_eq!(parse_timestamp(""), None);
}

#[test]
fn listing_status_classification() {
    assert!(classify_list_status(200, "/p").is_none());
    match classify_list_status(302, "/p") {
        Some(ListError::PermissionDenied(p)) => assert_eq!(p, "/p"),
        _ => panic!("expected permission denied"),
    }
    assert!(matches!(
        classify_list_status(500, "/p"),
        Some(ListError::Unknown)
    ));
}

#[test]
fn any_redirect_status_is_permission_denied() {
    for status in [301u16, 303, 307, 308] {
        match classify_list_status(status, "/p") {
            Some(ListError::PermissionDenied(p)) => assert_eq!(p, "/p"),
            _ => panic!("expected permission denied"),
        }
    }
    assert!(matches!(
        classify_list_status(400, "/p"),
        Some(ListError::Unknown)
    ));
}

#[test]
fn listing_query_pairs_are_the_fixed_eight() {
    let pairs = list_query_pairs("/class", &VolumeID::FSShare);
    let expect = vec![
        ("t", "p"),
        ("v", "resource_1423533946.487706.3"),
        ("si", "0"),
        ("ri", "0"),
        ("pi", "0"),
        ("sb", "name"),
        ("so", "asc"),
        ("dir", "/class"),
    ];
    assert_eq!(pairs.len(), expect.len());
    let mut i = 0;
    while i < pairs.len() {
        assert_eq!(pairs[i].0, expect[i].0);
        assert_eq!(pairs[i].1, expect[i].1);
        i += 1;
    }
}

#[test]
fn listing_page_block_is_found_and_parsed() {
    let html = "<html><body><table id=\"table_wfb_5\"><tbody><script>d(\"docs\",\"0\",\"Mon Jan  2 03:04:05 2023\");\n</script></tbody></table></body></html>";
    let segs = parse_listing_page(html, "/class", &VolumeID::FSShare).unwrap();
    assert_eq!(segs.len(), 1);
    assert_eq!(segs[0].name, "docs");
}

#[test]
fn listing_page_without_block_is_unknown() {
    let html = "<html><body><p>nothing here</p></body></html>";
    assert!(matches!(
        parse_listing_page(html, "/class", &VolumeID::FSShare),
        Err(ListError::Unknown)
    ));
}
