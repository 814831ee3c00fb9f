use sblex_fjall_morphology_core::array::{merge, push_bytes};
use sblex_fjall_morphology_core::continuation::{
    add_continuation, continuation_text, response,
};
use sblex_fjall_morphology_core::record::{frame_analysis, frame_list};
use sblex_fjall_morphology_core::store::{
    flush_outcome, note_key, opened_database, opened_keyspace, plan_insert, read_answer,
    write_outcome,
};
use sblex_fjall_morphology_core::text::push_decimal;
use sblex_fjall_morphology_core::{
    AnalysisRecord, FjallMorphologyError, StoreFault, StoredAnalysis,
};

fn merged(existing: Option<&[u8]>, analysis: &[u8]) -> Result<Vec<u8>, StoreFault> {
    merge(&existing.map(|bytes| bytes.to_vec()), analysis)
}

#[test]
fn first_analysis_makes_an_array_of_one() {
    assert_eq!(merged(None, b"{\"gf\":\"x\"}").ok().unwrap(), b"[{\"gf\":\"x\"}]".to_vec());
    assert_eq!(merged(None, b"").ok().unwrap(), b"[]".to_vec());
}

#[test]
fn later_analysis_is_spliced_before_the_closing_bracket() {
    assert_eq!(merged(Some(b"[1]"), b"2").ok().unwrap(), b"[1,2]".to_vec());
    assert_eq!(merged(Some(b"[1,2]"), b"3").ok().unwrap(), b"[1,2,3]".to_vec());
    assert_eq!(merged(Some(b"[{}]"), b"{}").ok().unwrap(), b"[{},{}]".to_vec());
    assert_eq!(merged(Some(b"]"), b"x").ok().unwrap(), b",x]".to_vec());
}

#[test]
fn same_analysis_twice_is_kept_twice() {
    let once = merged(None, b"7").ok().unwrap();
    let twice = merged(Some(&once), b"7").ok().unwrap();
    assert_eq!(twice, b"[7,7]".to_vec());
}

#[test]
fn value_without_closing_bracket_is_refused() {
    assert!(matches!(merged(Some(b""), b"1"), Err(StoreFault::UnclosedArray)));
    assert!(matches!(merged(Some(b"[1"), b"2"), Err(StoreFault::UnclosedArray)));
    assert!(matches!(merged(Some(b"[1] "), b"2"), Err(StoreFault::UnclosedArray)));
    assert!(matches!(merged(Some(b"[1]\n"), b"2"), Err(StoreFault::UnclosedArray)));
}

#[test]
fn bytes_are_appended() {
    let mut out = b"ab".to_vec();
    push_bytes(&mut out, b"");
    assert_eq!(out, b"ab".to_vec());
    push_bytes(&mut out, b"cde");
    assert_eq!(out, b"abcde".to_vec());
}

#[test]
fn decimal_rendering() {
    for (n, expected) in [
        (0usize, "0"),
        (7, "7"),
        (9, "9"),
        (10, "10"),
        (41, "41"),
        (100, "100"),
        (1234567890, "1234567890"),
    ] {
        let mut out = String::from("n=");
        push_decimal(&mut out, n);
        assert_eq!(out, format!("n={}", expected));
    }
    let mut out = String::new();
    push_decimal(&mut out, usize::MAX);
    assert_eq!(out, format!("{}", usize::MAX));
}

#[test]
fn next_character_is_added_once() {
    let mut found: Vec<char> = Vec::new();
    add_continuation(&mut found, "dväljs", "dv");
    assert_eq!(found, vec!['ä']);
    add_continuation(&mut found, "dvärg", "dv");
    assert_eq!(found, vec!['ä']);
    add_continuation(&mut found, "dvala", "dv");
    assert_eq!(found, vec!['ä', 'a']);
    add_continuation(&mut found, "dv", "dv");
    assert_eq!(found, vec!['ä', 'a']);
    add_continuation(&mut found, "dva", "dv");
    assert_eq!(found, vec!['ä', 'a']);
}

#[test]
fn next_character_after_a_fragment_of_several_bytes() {
    let mut found: Vec<char> = Vec::new();
    add_continuation(&mut found, "åäö", "åä");
    add_continuation(&mut found, "åä€x", "åä");
    add_continuation(&mut found, "åäa", "åä");
    add_continuation(&mut found, "x", "");
    assert_eq!(found, vec!['ö', '€', 'a', 'x']);
}

#[test]
fn response_frames_the_two_members() {
    assert_eq!(response(&None, "\"\""), b"{\"a\":[],\"c\":\"\"}".to_vec());
    assert_eq!(
        response(&Some(b"[{\"gf\":\"x\"}]".to_vec()), "\"\""),
        b"{\"a\":[{\"gf\":\"x\"}],\"c\":\"\"}".to_vec()
    );
    assert_eq!(
        response(&None, "\"\u{e4}a\u{20ac}\""),
        "{\"a\":[],\"c\":\"\u{e4}a\u{20ac}\"}".as_bytes().to_vec()
    );
    assert_eq!(response(&None, "\"\\\"\""), b"{\"a\":[],\"c\":\"\\\"\"}".to_vec());
    assert_eq!(response(&Some(Vec::new()), "7"), b"{\"a\":,\"c\":7}".to_vec());
}

#[test]
fn continuations_are_put_together_in_order() {
    assert_eq!(continuation_text(&vec![]), "");
    assert_eq!(continuation_text(&vec!['\u{e4}', 'a', '"', '\u{20ac}']), "\u{e4}a\"\u{20ac}");
}

#[test]
fn failed_write_and_failed_flush_are_reported() {
    assert!(write_outcome("ord", Ok(())).is_ok());
    match write_outcome("ord", Err(fjall::Error::Poisoned)) {
        Err(FjallMorphologyError::FailedToInsertWord { word, err }) => {
            assert_eq!(word, "ord");
            assert!(matches!(err, StoreFault::Engine(fjall::Error::Poisoned)));
        }
        _ => panic!("expected a failed write"),
    }
    assert!(flush_outcome(Ok(())).is_ok());
    match flush_outcome(Err(fjall::Error::Poisoned)) {
        Err(err @ FjallMorphologyError::FailedToPersistDb(_)) => {
            assert_eq!(err.message(), "failed to persist database: FjallError: Poisoned");
        }
        _ => panic!("expected a failure to persist"),
    }
}

fn sample() -> AnalysisRecord {
    AnalysisRecord {
        word: "bilarna".to_string(),
        head: "bil".to_string(),
        pos: "nn".to_string(),
        param: "pl def nom".to_string(),
        inhs: vec!["u".to_string(), "v".to_string()],
        id: "bil..nn.1".to_string(),
        p: "nn_2u_stol".to_string(),
        attr: "0".to_string(),
    }
}

#[test]
fn record_is_stored_under_the_stored_names() {
    let (word, stored) = sample().into_entry();
    assert_eq!(word, "bilarna");
    assert_eq!(stored.gf, "bil");
    assert_eq!(stored.id, "bil..nn.1");
    assert_eq!(stored.pos, "nn");
    assert_eq!(stored.is_, vec!["u".to_string(), "v".to_string()]);
    assert_eq!(stored.msd, "pl def nom");
    assert_eq!(stored.p, "nn_2u_stol");
}

#[test]
fn stored_analysis_as_json() {
    let (_, stored) = sample().into_entry();
    assert_eq!(
        stored.to_json().unwrap(),
        "{\"gf\":\"bil\",\"id\":\"bil..nn.1\",\"pos\":\"nn\",\"is\":[\"u\",\"v\"],\"msd\":\"pl def nom\",\"p\":\"nn_2u_stol\"}"
    );
    let empty = StoredAnalysis {
        gf: String::new(),
        id: String::new(),
        pos: String::new(),
        is_: Vec::new(),
        msd: String::new(),
        p: String::new(),
    };
    assert_eq!(
        empty.to_json().unwrap(),
        "{\"gf\":\"\",\"id\":\"\",\"pos\":\"\",\"is\":[],\"msd\":\"\",\"p\":\"\"}"
    );
}

#[test]
fn stored_analysis_is_what_the_serializer_reads_back() {
    let (_, stored) = sample().into_entry();
    let parsed: serde_json::Value = serde_json::from_str(&stored.to_json().unwrap()).unwrap();
    let object = parsed.as_object().unwrap();
    let names: Vec<&str> = object.keys().map(|k| k.as_str()).collect();
    assert_eq!(names.len(), 6);
    assert_eq!(parsed["gf"].as_str(), Some("bil"));
    assert_eq!(parsed["is"][1].as_str(), Some("v"));
    assert_eq!(parsed["msd"].as_str(), Some("pl def nom"));
}

#[test]
fn messages_name_what_failed() {
    let e = FjallMorphologyError::CantOpenDatabase {
        folder: "/tmp/db".to_string(),
        err: fjall::Error::Locked,
    };
    assert_eq!(e.message(), "failed to open database '/tmp/db': FjallError: Locked");
    let e = FjallMorphologyError::CantCreateKeyspace(fjall::Error::Poisoned);
    assert_eq!(e.message(), "failed to create keyspace: FjallError: Poisoned");
    let e = FjallMorphologyError::CantReadWord {
        word: "dv".to_string(),
        err: StoreFault::Engine(fjall::Error::Poisoned),
    };
    assert_eq!(e.message(), "failed to read 'dv' from db: FjallError: Poisoned");
    let e = FjallMorphologyError::FailedToReadPrefixForWord {
        word: "dv".to_string(),
        err: StoreFault::Engine(fjall::Error::KeyspaceDeleted),
    };
    assert_eq!(e.message(), "failed to read key for prefix 'dv': FjallError: KeyspaceDeleted");
    let e = FjallMorphologyError::FailedToInsertWord {
        word: "dv".to_string(),
        err: StoreFault::ValueTooLarge,
    };
    assert_eq!(
        e.message(),
        "failed to insert value to word 'dv': value exceeds the size limit of the store"
    );
    let e = FjallMorphologyError::FailedToPersistDb(fjall::Error::Poisoned);
    assert_eq!(e.message(), "failed to persist database: FjallError: Poisoned");
}

#[test]
fn messages_of_reader_and_serializer_failures() {
    let cause = serde_json::from_str::<serde_json::Value>("{").unwrap_err();
    let cause_text = cause.to_string();
    let e = FjallMorphologyError::JsonDeserialize {
        line: 120,
        path: "saldo.lex".to_string(),
        err: cause,
    };
    assert_eq!(
        e.message(),
        format!("failed to deserialize JSON from line 120 of 'saldo.lex': {}", cause_text)
    );
    assert_eq!(e.detail(), cause_text);
    assert_eq!(e.message_with("why"), "failed to deserialize JSON from line 120 of 'saldo.lex': why");
    let cause = serde_json::from_str::<serde_json::Value>("]").unwrap_err();
    let cause_text = cause.to_string();
    let e = FjallMorphologyError::JsonSerialize(cause);
    assert_eq!(e.message(), format!("failed to serialize JSON: {}", cause_text));
}

#[test]
fn io_failure_speaks_for_itself() {
    let cause = std::io::Error::new(std::io::ErrorKind::NotFound, "no such lexicon");
    let e = FjallMorphologyError::from(cause);
    assert!(matches!(e, FjallMorphologyError::Io(_)));
    assert_eq!(e.message(), "no such lexicon");
    assert_eq!(e.message_with("x"), "x");
}

#[test]
fn faults_of_the_store_have_fixed_wordings() {
    assert_eq!(StoreFault::UnclosedArray.detail(), "stored value is not a closed array");
    assert_eq!(StoreFault::ValueTooLarge.detail(), "value exceeds the size limit of the store");
    assert_eq!(StoreFault::KeyNotText.detail(), "stored key is not valid UTF-8");
    assert_eq!(StoreFault::Engine(fjall::Error::Poisoned).detail(), "FjallError: Poisoned");
}

#[test]
fn read_is_passed_on_as_the_answer() {
    assert_eq!(read_answer("dv", Ok(None)).ok().unwrap(), None);
    assert_eq!(read_answer("dv", Ok(Some(b"[1]".to_vec()))).ok().unwrap(), Some(b"[1]".to_vec()));
    match read_answer("dv", Err(fjall::Error::Poisoned)) {
        Err(FjallMorphologyError::CantReadWord { word, err }) => {
            assert_eq!(word, "dv");
            assert!(matches!(err, StoreFault::Engine(fjall::Error::Poisoned)));
        }
        _ => panic!("expected a failed read"),
    }
}

#[test]
fn insert_is_planned_from_what_was_read() {
    assert_eq!(plan_insert("w", Ok(None), b"{}").ok().unwrap(), b"[{}]".to_vec());
    assert_eq!(
        plan_insert("w", Ok(Some(b"[{}]".to_vec())), b"{\"a\":1}").ok().unwrap(),
        b"[{},{\"a\":1}]".to_vec()
    );
    match plan_insert("w", Err(fjall::Error::KeyspaceDeleted), b"{}") {
        Err(FjallMorphologyError::CantReadWord { word, err }) => {
            assert_eq!(word, "w");
            assert!(matches!(err, StoreFault::Engine(fjall::Error::KeyspaceDeleted)));
        }
        _ => panic!("expected a failed read"),
    }
    match plan_insert("w", Ok(Some(b"[{}".to_vec())), b"{}") {
        Err(FjallMorphologyError::CantReadWord { word, err }) => {
            assert_eq!(word, "w");
            assert!(matches!(err, StoreFault::UnclosedArray));
        }
        _ => panic!("expected a failed read"),
    }
}

#[test]
fn scanned_key_is_noted_or_fails_the_scan() {
    let mut found = vec!['a'];
    note_key(&mut found, "dv", Ok("dväljs".as_bytes().to_vec())).ok().unwrap();
    assert_eq!(found, vec!['a', 'ä']);
    note_key(&mut found, "dv", Ok(b"dva".to_vec())).ok().unwrap();
    assert_eq!(found, vec!['a', 'ä']);
    match note_key(&mut found, "dv", Ok(b"dv\xc3".to_vec())) {
        Err(FjallMorphologyError::FailedToReadPrefixForWord { word, err }) => {
            assert_eq!(word, "dv");
            assert!(matches!(err, StoreFault::KeyNotText));
        }
        _ => panic!("expected a failed scan"),
    }
    match note_key(&mut found, "dv", Err(fjall::Error::Poisoned)) {
        Err(FjallMorphologyError::FailedToReadPrefixForWord { word, err }) => {
            assert_eq!(word, "dv");
            assert!(matches!(err, StoreFault::Engine(fjall::Error::Poisoned)));
        }
        _ => panic!("expected a failed scan"),
    }
    assert_eq!(found, vec!['a', 'ä']);
}

#[test]
fn list_is_framed_from_its_items() {
    assert_eq!(frame_list(&vec![]), "[]");
    assert_eq!(frame_list(&vec!["\"u\"".to_string()]), "[\"u\"]");
    assert_eq!(
        frame_list(&vec!["\"u\"".to_string(), "\"\"".to_string(), "1".to_string()]),
        "[\"u\",\"\",1]"
    );
}

#[test]
fn analysis_is_framed_from_its_six_values() {
    assert_eq!(
        frame_analysis("\"bil\"", "\"bil..nn.1\"", "\"nn\"", "[\"u\"]", "\"sg\"", "\"nn_2u\""),
        "{\"gf\":\"bil\",\"id\":\"bil..nn.1\",\"pos\":\"nn\",\"is\":[\"u\"],\"msd\":\"sg\",\"p\":\"nn_2u\"}"
    );
    assert_eq!(
        frame_analysis("1", "2", "3", "4", "5", "6"),
        "{\"gf\":1,\"id\":2,\"pos\":3,\"is\":4,\"msd\":5,\"p\":6}"
    );
    assert_eq!(
        frame_analysis("", "", "", "", "", ""),
        "{\"gf\":,\"id\":,\"pos\":,\"is\":,\"msd\":,\"p\":}"
    );
}

#[test]
fn failure_to_open_names_the_folder() {
    match opened_database("/srv/saldo", Err(fjall::Error::Locked)) {
        Err(FjallMorphologyError::CantOpenDatabase { folder, err }) => {
            assert_eq!(folder, "/srv/saldo");
            assert!(matches!(err, fjall::Error::Locked));
        }
        _ => panic!("expected a failure to open"),
    }
    match opened_keyspace(Err(fjall::Error::KeyspaceDeleted)) {
        Err(FjallMorphologyError::CantCreateKeyspace(err)) => {
            assert!(matches!(err, fjall::Error::KeyspaceDeleted));
        }
        _ => panic!("expected a failure to create the keyspace"),
    }
}

#[test]
fn plain_text_is_written_between_double_quotes() {
    let plain = " !#[]{}/~\u{7f}\u{80}\u{e4}\u{20ac}\u{1f600}";
    let stored = StoredAnalysis {
        gf: plain.to_string(),
        id: String::new(),
        pos: "'".to_string(),
        is_: vec![plain.to_string(), " ".to_string()],
        msd: "\u{20}".to_string(),
        p: "a b".to_string(),
    };
    assert_eq!(
        stored.to_json().unwrap(),
        format!(
            "{{\"gf\":\"{0}\",\"id\":\"\",\"pos\":\"'\",\"is\":[\"{0}\",\" \"],\"msd\":\" \",\"p\":\"a b\"}}",
            plain
        )
    );
}

#[test]
fn text_that_is_not_plain_is_escaped() {
    for (text, literal) in [
        ("\"", "\"\\\"\""),
        ("\\", "\"\\\\\""),
        ("\u{1f}", "\"\\u001f\""),
        ("\u{0}", "\"\\u0000\""),
        ("\t", "\"\\t\""),
    ] {
        let stored = StoredAnalysis {
            gf: text.to_string(),
            id: String::new(),
            pos: String::new(),
            is_: Vec::new(),
            msd: String::new(),
            p: String::new(),
        };
        assert_eq!(
            stored.to_json().unwrap(),
            format!("{{\"gf\":{},\"id\":\"\",\"pos\":\"\",\"is\":[],\"msd\":\"\",\"p\":\"\"}}", literal)
        );
    }
}
