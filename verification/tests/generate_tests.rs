use taggen::begin_ledger_write;
use taggen::build_candidate;
use taggen::clear_tags;
use taggen::collect_candidates;
use taggen::commit_ledger;
use taggen::ensure_tags_table;
use taggen::finalize_generation;
use taggen::lookup_tag;
use taggen::open_ledger;
use taggen::parse_chars;
use taggen::record_tag;
use taggen::select_tag;
use taggen::TagError;

#[test]
fn build_candidate_drops_adjacent_duplicates() {
    let chars = parse_chars("ab").unwrap();
    // max repeats = ceil(2/2) = 1; the duplicate draw of 'a' is dropped.
    let out = build_candidate(&chars, 2, &vec![0, 0, 1]).unwrap();
    assert_eq!(out, "ab");
}

#[test]
fn build_candidate_enforces_repeat_bound() {
    let chars = parse_chars("ab").unwrap();
    // max repeats = ceil(3/2) = 2: 'a' may occur twice but not three times.
    let out = build_candidate(&chars, 3, &vec![0, 1, 0, 1, 0, 1]).unwrap();
    assert_eq!(out, "aba");
}

#[test]
fn build_candidate_single_symbol_alphabet_repeats_freely() {
    let chars = parse_chars("x").unwrap();
    let out = build_candidate(&chars, 3, &vec![0, 0, 0, 0, 0, 0]).unwrap();
    assert_eq!(out, "xxx");
}

#[test]
fn build_candidate_fails_when_draws_run_out() {
    let chars = parse_chars("ab").unwrap();
    // After deduplication only one symbol survives of six equal draws.
    assert!(build_candidate(&chars, 3, &vec![0, 0, 0, 0, 0, 0]).is_none());
}

#[test]
fn generated_tag_has_shape_and_composition() {
    // Alphabet "abc123", length 6, amount 1: the tag is six characters over
    // the alphabet, holds a digit and a letter, and no symbol repeats since
    // ceil(6/6) = 1.
    let db = open_ledger("/tmp/taggen_test_shape.redb").unwrap();
    ensure_tags_table(&db).unwrap();
    let mut txn = begin_ledger_write(&db).unwrap();
    clear_tags(&mut txn).unwrap();
    let chars = parse_chars("abc123").unwrap();
    let tags = collect_candidates(&txn, &chars, 6, 1).unwrap();
    assert_eq!(tags.len(), 1);
    let tag = &tags[0];
    assert_eq!(tag.chars().count(), 6);
    assert!(tag.chars().all(|c| "abc123".contains(c)));
    assert!(tag.chars().any(|c| c.is_ascii_digit()));
    assert!(tag.chars().any(|c| c.is_ascii_alphabetic()));
    for c in "abc123".chars() {
        assert!(tag.chars().filter(|&d| d == c).count() <= 1);
    }
}

#[test]
fn single_character_alphabet_yields_constant_tag() {
    let db = open_ledger("/tmp/taggen_test_single.redb").unwrap();
    ensure_tags_table(&db).unwrap();
    let mut txn = begin_ledger_write(&db).unwrap();
    clear_tags(&mut txn).unwrap();
    let chars = parse_chars("x").unwrap();
    let tags = collect_candidates(&txn, &chars, 3, 1).unwrap();
    assert_eq!(tags, vec!["xxx".to_string()]);
}

#[test]
fn generation_skips_tags_already_in_ledger() {
    let db = open_ledger("/tmp/taggen_test_skip.redb").unwrap();
    ensure_tags_table(&db).unwrap();
    let mut txn = begin_ledger_write(&db).unwrap();
    clear_tags(&mut txn).unwrap();
    record_tag(&mut txn, &"aa1".to_string(), 1_700_000_000).unwrap();
    let chars = parse_chars("a1").unwrap();
    for _ in 0..20 {
        let tags = collect_candidates(&txn, &chars, 3, 1).unwrap();
        assert_eq!(tags.len(), 1);
        assert_ne!(tags[0], "aa1");
    }
}

#[test]
fn generation_exhausts_when_composition_is_impossible() {
    let db = open_ledger("/tmp/taggen_test_exhaust.redb").unwrap();
    ensure_tags_table(&db).unwrap();
    let mut txn = begin_ledger_write(&db).unwrap();
    clear_tags(&mut txn).unwrap();
    // One character can never hold both a digit and a letter.
    let chars = parse_chars("a1").unwrap();
    let err = collect_candidates(&txn, &chars, 1, 1).unwrap_err();
    assert!(matches!(err, TagError::Exhausted));
}

#[test]
fn max_repeats_is_the_ceiling() {
    assert_eq!(taggen::max_repeats(6, 6), 1);
    assert_eq!(taggen::max_repeats(3, 2), 2);
    assert_eq!(taggen::max_repeats(3, 1), 3);
    assert_eq!(taggen::max_repeats(127, 16), 8);
}

#[test]
fn exhaustion_has_a_readable_message() {
    assert_eq!(
        TagError::Exhausted.message(),
        "tag generation exhausted its attempt budget"
    );
}

#[test]
fn select_tag_follows_the_selection_rule() {
    let one = vec!["a".to_string()];
    assert_eq!(select_tag(&one, None), Some(0));
    assert_eq!(select_tag(&one, Some(5)), Some(0));
    let two = vec!["a".to_string(), "b".to_string()];
    assert_eq!(select_tag(&two, Some(1)), Some(1));
    assert_eq!(select_tag(&two, Some(2)), None);
    assert_eq!(select_tag(&two, None), None);
}

#[test]
fn committed_tag_never_comes_back() {
    let db = open_ledger("/tmp/taggen_test_repeat.redb").unwrap();
    ensure_tags_table(&db).unwrap();
    let mut txn = begin_ledger_write(&db).unwrap();
    clear_tags(&mut txn).unwrap();
    commit_ledger(txn).unwrap();

    let chars = parse_chars("a1").unwrap();
    let txn = begin_ledger_write(&db).unwrap();
    let tags = collect_candidates(&txn, &chars, 3, 1).unwrap();
    let issued = finalize_generation(txn, &tags, None).unwrap().unwrap();
    assert_eq!(issued, tags[0]);

    // The issued tag is durably recorded and never reproduced.
    let txn = begin_ledger_write(&db).unwrap();
    assert!(lookup_tag(&txn, &issued).unwrap().is_some());
    for _ in 0..20 {
        let again = collect_candidates(&txn, &chars, 3, 1).unwrap();
        assert_ne!(again[0], issued);
    }
}

#[test]
fn record_selection_adds_exactly_the_chosen_tag() {
    let db = open_ledger("/tmp/taggen_test_record_sel.redb").unwrap();
    ensure_tags_table(&db).unwrap();
    let mut txn = begin_ledger_write(&db).unwrap();
    clear_tags(&mut txn).unwrap();
    let tags = vec!["df01".to_string(), "qs23".to_string()];
    let chosen = taggen::record_selection(&mut txn, &tags, Some(1), 1_700_000_000)
        .unwrap()
        .unwrap();
    assert_eq!(chosen, "qs23");
    assert_eq!(lookup_tag(&txn, &"qs23".to_string()).unwrap(), Some(1_700_000_000));
    assert_eq!(lookup_tag(&txn, &"df01".to_string()).unwrap(), None);

    // A declined pick records nothing.
    let none = taggen::record_selection(&mut txn, &tags, None, 1_700_000_001).unwrap();
    assert!(none.is_none());
    assert_eq!(lookup_tag(&txn, &"df01".to_string()).unwrap(), None);
}

#[test]
fn declined_selection_commits_without_recording() {
    let db = open_ledger("/tmp/taggen_test_decline.redb").unwrap();
    ensure_tags_table(&db).unwrap();
    let mut txn = begin_ledger_write(&db).unwrap();
    clear_tags(&mut txn).unwrap();
    let chars = parse_chars("dfqsvz0123456789").unwrap();
    let tags = collect_candidates(&txn, &chars, 6, 2).unwrap();
    assert_eq!(tags.len(), 2);
    // The selector declines: nothing is recorded, the transaction still ends.
    let chosen = finalize_generation(txn, &tags, None).unwrap();
    assert!(chosen.is_none());
    let txn = begin_ledger_write(&db).unwrap();
    assert!(lookup_tag(&txn, &tags[0]).unwrap().is_none());
    assert!(lookup_tag(&txn, &tags[1]).unwrap().is_none());
}
