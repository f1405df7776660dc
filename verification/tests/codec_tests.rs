use taggen::begin_ledger_read;
use taggen::begin_ledger_write;
use taggen::clear_tags;
use taggen::commit_ledger;
use taggen::csv_to_rows;
use taggen::ensure_tags_table;
use taggen::export_csv;
use taggen::import_csv;
use taggen::open_ledger;
use taggen::read_all_tags;
use taggen::record_tag;
use taggen::rows_to_csv;
use taggen::TagError;
use taggen::MAX_RFC3339_TIMESTAMP;

#[test]
fn empty_rows_give_bare_header() {
    assert_eq!(rows_to_csv(&vec![]).unwrap(), "tag,datetime\n");
}

#[test]
fn one_row_renders_exactly() {
    let text = rows_to_csv(&vec![("aa1".to_string(), 1_705_314_600)]).unwrap();
    assert_eq!(text, "tag,datetime\n\"aa1\",2024-01-15T10:30:00Z\n");
}

#[test]
fn epoch_and_range_limits_render() {
    let text = rows_to_csv(&vec![("t".to_string(), 0)]).unwrap();
    assert_eq!(text, "tag,datetime\n\"t\",1970-01-01T00:00:00Z\n");
    let text = rows_to_csv(&vec![("t".to_string(), MAX_RFC3339_TIMESTAMP)]).unwrap();
    assert_eq!(text, "tag,datetime\n\"t\",9999-12-31T23:59:59Z\n");
}

#[test]
fn unrepresentable_timestamp_is_an_encoding_error() {
    // One second past the last RFC3339 instant.
    let err = rows_to_csv(&vec![("t".to_string(), MAX_RFC3339_TIMESTAMP + 1)]).unwrap_err();
    assert!(matches!(err, TagError::Encoding(_)));
}

#[test]
fn parse_reads_back_what_was_rendered() {
    let rows = vec![
        ("aa1".to_string(), 1_705_314_600),
        ("a,\"b\nc".to_string(), 0),
        ("z9".to_string(), 1_600_000_000),
    ];
    let text = rows_to_csv(&rows).unwrap();
    assert_eq!(csv_to_rows(&text).unwrap(), rows);
}

#[test]
fn parse_accepts_bare_and_quoted_tags() {
    let text = "tag,datetime\naa1,2024-01-15T10:30:00Z\n\"b,b\",1970-01-01T00:00:00Z\n";
    let rows = csv_to_rows(text).unwrap();
    assert_eq!(
        rows,
        vec![("aa1".to_string(), 1_705_314_600), ("b,b".to_string(), 0)]
    );
}

#[test]
fn parse_accepts_crlf_row_endings() {
    let text = "tag,datetime\r\naa1,2024-01-15T10:30:00Z\r\n\"b,b\",1970-01-01T00:00:00Z\n";
    let rows = csv_to_rows(text).unwrap();
    assert_eq!(
        rows,
        vec![("aa1".to_string(), 1_705_314_600), ("b,b".to_string(), 0)]
    );
}

#[test]
fn parse_rejects_bad_datetime() {
    let err = csv_to_rows("tag,datetime\nfoo,notadate\n").unwrap_err();
    assert!(matches!(err, TagError::Encoding(_)));
}

#[test]
fn parse_rejects_missing_header_newline() {
    let err = csv_to_rows("tag,datetime").unwrap_err();
    assert!(matches!(err, TagError::Encoding(_)));
}

#[test]
fn parse_rejects_unterminated_row() {
    let err = csv_to_rows("tag,datetime\nfoo,2024-01-15T10:30:00Z").unwrap_err();
    assert!(matches!(err, TagError::Encoding(_)));
}

#[test]
fn empty_text_holds_no_rows() {
    assert_eq!(csv_to_rows("").unwrap(), vec![]);
}

#[test]
fn csv_reader_agrees_with_the_rendering() {
    // The emitted text is ordinary CSV: an independent reader sees the same
    // tags and datetime strings.
    let rows = vec![
        ("plain1".to_string(), 1_705_314_600),
        ("a,\"b".to_string(), 0),
    ];
    let text = rows_to_csv(&rows).unwrap();
    let mut reader = csv::ReaderBuilder::new().from_reader(text.as_bytes());
    let got: Vec<(String, String)> = reader
        .records()
        .map(|r| {
            let rec = r.unwrap();
            (rec[0].to_string(), rec[1].to_string())
        })
        .collect();
    assert_eq!(
        got,
        vec![
            ("plain1".to_string(), "2024-01-15T10:30:00Z".to_string()),
            ("a,\"b".to_string(), "1970-01-01T00:00:00Z".to_string()),
        ]
    );
}

#[test]
fn import_upserts_and_reports_count() {
    let db = open_ledger("/tmp/taggen_test_codec_import.redb").unwrap();
    ensure_tags_table(&db).unwrap();
    let mut txn = begin_ledger_write(&db).unwrap();
    clear_tags(&mut txn).unwrap();
    record_tag(&mut txn, &"old".to_string(), 1).unwrap();
    let n = import_csv(
        &mut txn,
        "tag,datetime\nold,2024-01-15T10:30:00Z\nnew,1970-01-01T00:00:00Z\n",
    )
    .unwrap();
    assert_eq!(n, 2);
    assert_eq!(lookup(&txn, "old"), Some(1_705_314_600));
    assert_eq!(lookup(&txn, "new"), Some(0));
}

fn lookup(txn: &redb::WriteTransaction, tag: &str) -> Option<i64> {
    taggen::lookup_tag(txn, &tag.to_string()).unwrap()
}

#[test]
fn bad_row_aborts_the_whole_load() {
    let db = open_ledger("/tmp/taggen_test_codec_abort.redb").unwrap();
    ensure_tags_table(&db).unwrap();
    let mut txn = begin_ledger_write(&db).unwrap();
    clear_tags(&mut txn).unwrap();
    let err = import_csv(
        &mut txn,
        "tag,datetime\ngood,2024-01-15T10:30:00Z\nbad,oops\n",
    )
    .unwrap_err();
    assert!(matches!(err, TagError::Encoding(_)));
    // The well-formed first row was not inserted either.
    assert_eq!(lookup(&txn, "good"), None);
}

#[test]
fn export_import_round_trip_empty_ledger() {
    let db = open_ledger("/tmp/taggen_test_codec_rt_empty.redb").unwrap();
    ensure_tags_table(&db).unwrap();
    let mut txn = begin_ledger_write(&db).unwrap();
    clear_tags(&mut txn).unwrap();
    commit_ledger(txn).unwrap();
    ensure_tags_table(&db).unwrap();

    let read = begin_ledger_read(&db).unwrap();
    let text = export_csv(&read).unwrap();

    let other = open_ledger("/tmp/taggen_test_codec_rt_empty2.redb").unwrap();
    ensure_tags_table(&other).unwrap();
    let mut txn = begin_ledger_write(&other).unwrap();
    clear_tags(&mut txn).unwrap();
    assert_eq!(import_csv(&mut txn, &text).unwrap(), 0);
    commit_ledger(txn).unwrap();
    ensure_tags_table(&other).unwrap();
    let read = begin_ledger_read(&other).unwrap();
    assert_eq!(read_all_tags(&read).unwrap(), vec![]);
}

#[test]
fn export_import_round_trip_populated_ledger() {
    let db = open_ledger("/tmp/taggen_test_codec_rt.redb").unwrap();
    ensure_tags_table(&db).unwrap();
    let mut txn = begin_ledger_write(&db).unwrap();
    clear_tags(&mut txn).unwrap();
    record_tag(&mut txn, &"df0s1z".to_string(), 1_705_314_600).unwrap();
    record_tag(&mut txn, &"a,\"b".to_string(), 0).unwrap();
    record_tag(&mut txn, &"z9".to_string(), 1_600_000_000).unwrap();
    commit_ledger(txn).unwrap();

    let read = begin_ledger_read(&db).unwrap();
    let mut original = read_all_tags(&read).unwrap();
    let text = export_csv(&read).unwrap();

    let other = open_ledger("/tmp/taggen_test_codec_rt2.redb").unwrap();
    ensure_tags_table(&other).unwrap();
    let mut txn = begin_ledger_write(&other).unwrap();
    clear_tags(&mut txn).unwrap();
    import_csv(&mut txn, &text).unwrap();
    commit_ledger(txn).unwrap();

    let read = begin_ledger_read(&other).unwrap();
    let mut rebuilt = read_all_tags(&read).unwrap();
    original.sort();
    rebuilt.sort();
    assert_eq!(rebuilt, original);
}
