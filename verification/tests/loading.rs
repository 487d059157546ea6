use zengin::{
    load_banks_from_file, load_branches_from_file, parse_banks, parse_branches, read_data_file,
    DataDir, FileError, LoadError, ParseError, RecordField, Zengin,
};

fn sample_bank_data() -> &'static str {
    r#"{
            "0001":{
                "code":"0001",
                "name":"みずほ",
                "kana":"ミズホ",
                "hira":"みずほ",
                "roma":"mizuho"
            },
            "0005":{
                "code":"0005",
                "name":"三菱ＵＦＪ",
                "kana":"ミツビシユ－エフジエイ",
                "hira":"みつびしゆ－えふじえい",
                "roma":"mitsubishiyu-efujiei"
            }
        }"#
}

fn sample_branch_data() -> &'static str {
    r#"{
            "001":{
                "code":"001",
                "name":"東京営業部",
                "kana":"トウキヨウ",
                "hira":"とうきよう",
                "roma":"toukiyou"
            }
        }"#
}

fn other_branch_data() -> &'static str {
    r#"{
            "001":{"code":"001","name":"本店","kana":"ホンテン","hira":"ほんてん","roma":"honten"},
            "002":{"code":"002","name":"丸の内支店","kana":"マルノウチ","hira":"まるのうち","roma":"marunouchi"}
        }"#
}

fn sample_dir() -> DataDir {
    let mut dir = DataDir::new();
    dir.add_file("banks.json".to_string(), sample_bank_data().as_bytes().to_vec());
    dir.add_file("branches/0001.json".to_string(), sample_branch_data().as_bytes().to_vec());
    dir.add_file("branches/0005.json".to_string(), other_branch_data().as_bytes().to_vec());
    dir
}

#[test]
fn test_parse_banks() {
    let json_data = sample_bank_data();
    let banks = parse_banks(json_data).unwrap();
    assert_eq!(banks.get("0001").unwrap().name, "みずほ");
    assert_eq!(banks.get("0005").unwrap().name, "三菱ＵＦＪ");
}

#[test]
fn test_parse_branches() {
    let json_data = sample_branch_data();
    let branches = parse_branches(json_data).unwrap();
    assert_eq!(branches.get("001").unwrap().name, "東京営業部");
}

#[test]
fn test_zengin_new() {
    let zengin = Zengin::new(&sample_dir()).unwrap();
    assert_eq!(zengin.all_banks().get("0001").unwrap().name, "みずほ");
}

#[test]
fn parsed_banks_hold_every_field_and_no_branches() {
    let banks = parse_banks(sample_bank_data()).unwrap();
    assert_eq!(banks.len(), 2);
    let bank = banks.get("0005").unwrap();
    assert_eq!(bank.code, "0005");
    assert_eq!(bank.name, "三菱ＵＦＪ");
    assert_eq!(bank.kana, "ミツビシユ－エフジエイ");
    assert_eq!(bank.hira, "みつびしゆ－えふじえい");
    assert_eq!(bank.roma, "mitsubishiyu-efujiei");
    assert_eq!(bank.all_branches().len(), 0);
}

#[test]
fn parsed_branches_hold_every_field() {
    let branches = parse_branches(sample_branch_data()).unwrap();
    assert_eq!(branches.len(), 1);
    let branch = branches.get("001").unwrap();
    assert_eq!(branch.code, "001");
    assert_eq!(branch.name, "東京営業部");
    assert_eq!(branch.kana, "トウキヨウ");
    assert_eq!(branch.hira, "とうきよう");
    assert_eq!(branch.roma, "toukiyou");
}

#[test]
fn a_record_is_found_under_its_key_not_under_its_code_field() {
    let text = r#"{"9":{"code":"0009","name":"n","kana":"k","hira":"h","roma":"r"}}"#;
    let banks = parse_banks(text).unwrap();
    assert_eq!(banks.get("9").unwrap().code, "0009");
    assert!(banks.get("0009").is_none());
}

#[test]
fn members_beyond_the_five_are_passed_over() {
    let text = r#"{"001":{"code":"001","name":"n","kana":"k","hira":"h","roma":"r",
        "branches":{"x":1},"open":true,"floor":3,"notes":[null,"a"],"since":null}}"#;
    let branches = parse_branches(text).unwrap();
    assert_eq!(branches.get("001").unwrap().roma, "r");
}

#[test]
fn an_empty_object_is_an_empty_table() {
    assert_eq!(parse_banks("{}").unwrap().len(), 0);
    assert_eq!(parse_branches(" { } ").unwrap().len(), 0);
}

#[test]
fn text_that_is_no_json_is_malformed() {
    assert!(matches!(parse_banks("{\"0001\":"), Err(ParseError::Malformed(_))));
    assert!(matches!(parse_branches("not json"), Err(ParseError::Malformed(_))));
    assert!(matches!(parse_banks(""), Err(ParseError::Malformed(_))));
}

#[test]
fn a_document_that_is_no_object_of_objects_is_malformed() {
    assert!(matches!(parse_banks("[]"), Err(ParseError::Malformed(_))));
    assert!(matches!(parse_banks("{\"0001\":\"みずほ\"}"), Err(ParseError::Malformed(_))));
    assert!(matches!(
        parse_branches(r#"{"001":["001","n","k","h","r"]}"#),
        Err(ParseError::Malformed(_))
    ));
}

#[test]
fn a_missing_member_is_reported_with_key_and_field() {
    let text = r#"{"0001":{"code":"0001","name":"みずほ","hira":"みずほ","roma":"mizuho"}}"#;
    match parse_banks(text) {
        Err(ParseError::MissingField { key, field }) => {
            assert_eq!(key, "0001");
            assert_eq!(field, RecordField::Kana);
        }
        _ => panic!("a record without kana was accepted"),
    }
}

#[test]
fn a_member_that_is_no_string_is_reported_with_key_and_field() {
    let text = r#"{"001":{"code":1,"name":"n","kana":"k","hira":"h","roma":"r"}}"#;
    match parse_branches(text) {
        Err(ParseError::NotText { key, field }) => {
            assert_eq!(key, "001");
            assert_eq!(field, RecordField::Code);
        }
        _ => panic!("a record with a number for its code was accepted"),
    }
    let text = r#"{"001":{"code":"001","name":"n","kana":"k","hira":"h","roma":null}}"#;
    match parse_branches(text) {
        Err(ParseError::NotText { key, field }) => {
            assert_eq!(key, "001");
            assert_eq!(field, RecordField::Roma);
        }
        _ => panic!("a record with null for its romanized name was accepted"),
    }
}

#[test]
fn of_two_faults_in_a_record_the_earlier_member_counts() {
    let text = r#"{"001":{"code":"001","kana":7,"hira":"h"}}"#;
    match parse_branches(text) {
        Err(ParseError::MissingField { key, field }) => {
            assert_eq!(key, "001");
            assert_eq!(field, RecordField::Name);
        }
        _ => panic!("the missing name was not reported"),
    }
}

#[test]
fn the_loaded_banks_have_their_branches() {
    let zengin = Zengin::new(&sample_dir()).unwrap();
    assert_eq!(zengin.all_banks().len(), 2);
    let mizuho = zengin.get_bank("0001").unwrap();
    assert_eq!(mizuho.all_branches().len(), 1);
    assert_eq!(mizuho.get_branch("001").unwrap().name, "東京営業部");
    let mufg = zengin.get_bank("0005").unwrap();
    assert_eq!(mufg.roma, "mitsubishiyu-efujiei");
    assert_eq!(mufg.all_branches().len(), 2);
    assert_eq!(mufg.get_branch("002").unwrap().name, "丸の内支店");
    assert!(mufg.get_branch("003").is_none());
}

#[test]
fn the_branch_file_is_named_by_the_code_field() {
    let mut dir = DataDir::new();
    let index = r#"{"k":{"code":"0001","name":"n","kana":"k","hira":"h","roma":"r"}}"#;
    dir.add_file("banks.json".to_string(), index.as_bytes().to_vec());
    dir.add_file("branches/0001.json".to_string(), sample_branch_data().as_bytes().to_vec());
    let zengin = Zengin::new(&dir).unwrap();
    assert!(zengin.get_bank("0001").is_none());
    assert_eq!(zengin.get_bank("k").unwrap().get_branch("001").unwrap().roma, "toukiyou");
}

#[test]
fn a_bank_without_a_branch_file_fails_the_load() {
    let mut dir = DataDir::new();
    dir.add_file("banks.json".to_string(), sample_bank_data().as_bytes().to_vec());
    dir.add_file("branches/0001.json".to_string(), sample_branch_data().as_bytes().to_vec());
    match Zengin::new(&dir) {
        Err(LoadError::File(FileError::NotFound { path })) => {
            assert_eq!(path, "branches/0005.json");
        }
        _ => panic!("the missing branch file was not reported"),
    }
}

#[test]
fn a_directory_without_the_index_fails_the_load() {
    let dir = DataDir::new();
    match Zengin::new(&dir) {
        Err(LoadError::File(FileError::NotFound { path })) => assert_eq!(path, "banks.json"),
        _ => panic!("the missing index was not reported"),
    }
}

#[test]
fn a_malformed_branch_file_fails_the_load() {
    let mut dir = sample_dir();
    dir.add_file("branches/0005.json".to_string(), b"{\"001\":".to_vec());
    match Zengin::new(&dir) {
        Err(LoadError::Parse { path, error }) => {
            assert_eq!(path, "branches/0005.json");
            assert!(matches!(error, ParseError::Malformed(_)));
        }
        _ => panic!("the malformed branch file was not reported"),
    }
}

#[test]
fn a_faulty_bank_record_is_reported_before_any_branch_file_is_read() {
    let mut dir = DataDir::new();
    let index = r#"{"0001":{"code":"0001","name":"n","kana":"k","hira":"h","roma":"r"},
                    "0002":{"code":"0002","name":"n","kana":"k","hira":"h"}}"#;
    dir.add_file("banks.json".to_string(), index.as_bytes().to_vec());
    match Zengin::new(&dir) {
        Err(LoadError::Parse { path, error }) => {
            assert_eq!(path, "banks.json");
            match error {
                ParseError::MissingField { key, field } => {
                    assert_eq!(key, "0002");
                    assert_eq!(field, RecordField::Roma);
                }
                _ => panic!("the missing member was not reported"),
            }
        }
        _ => panic!("the faulty index was not reported"),
    }
}

#[test]
fn a_file_is_read_as_utf8_text() {
    let mut dir = DataDir::new();
    dir.add_file("a.json".to_string(), "東京".as_bytes().to_vec());
    dir.add_file("b.json".to_string(), vec![0xe6, 0x9d]);
    dir.add_file("c.json".to_string(), Vec::new());
    assert_eq!(read_data_file(&dir, "a.json").unwrap(), "東京");
    assert_eq!(read_data_file(&dir, "c.json").unwrap(), "");
    match read_data_file(&dir, "b.json") {
        Err(FileError::Unreadable { path }) => assert_eq!(path, "b.json"),
        _ => panic!("bytes that are no UTF-8 were read as text"),
    }
    match read_data_file(&dir, "d.json") {
        Err(FileError::NotFound { path }) => assert_eq!(path, "d.json"),
        _ => panic!("a file that is not there was read"),
    }
    assert_eq!(dir.get_file("b.json").unwrap(), &vec![0xe6u8, 0x9d]);
    assert!(dir.get_file("B.json").is_none());
}

#[test]
fn tables_are_loaded_from_files() {
    let dir = sample_dir();
    let banks = load_banks_from_file(&dir, "banks.json").unwrap();
    assert_eq!(banks.get("0001").unwrap().kana, "ミズホ");
    let branches = load_branches_from_file(&dir, "branches/0001.json").unwrap();
    assert_eq!(branches.get("001").unwrap().hira, "とうきよう");
    assert!(matches!(
        load_branches_from_file(&dir, "branches/0002.json"),
        Err(LoadError::File(FileError::NotFound { .. }))
    ));
    match load_banks_from_file(&dir, "branches/0001.json") {
        Ok(banks) => assert_eq!(banks.get("001").unwrap().name, "東京営業部"),
        Err(_) => panic!("a table of the same shape was refused"),
    }
    let mut bad = DataDir::new();
    bad.add_file("banks.json".to_string(), vec![0xff]);
    assert!(matches!(
        load_banks_from_file(&bad, "banks.json"),
        Err(LoadError::File(FileError::Unreadable { .. }))
    ));
}
