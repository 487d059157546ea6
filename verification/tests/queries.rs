use zengin::{Bank, Branch, BranchMap, CodeMap, DataDir, NameField, Zengin};

fn branch(code: &str, name: &str, kana: &str, hira: &str, roma: &str) -> Branch {
    Branch {
        code: code.to_string(),
        name: name.to_string(),
        kana: kana.to_string(),
        hira: hira.to_string(),
        roma: roma.to_string(),
    }
}

fn tokyo_bank() -> Bank {
    let mut branches: BranchMap = CodeMap::new();
    branches.insert(
        "001".to_string(),
        branch("001", "東京営業部", "トウキヨウ", "とうきよう", "toukiyou"),
    );
    branches.insert("002".to_string(), branch("002", "本店", "ホンテン", "ほんてん", "honten"));
    branches.insert(
        "003".to_string(),
        branch("003", "大阪支店", "オオサカ", "おおさか", "oosaka"),
    );
    Bank {
        code: "0001".to_string(),
        name: "みずほ".to_string(),
        kana: "ミズホ".to_string(),
        hira: "みずほ".to_string(),
        roma: "mizuho".to_string(),
        branches,
    }
}

fn collection() -> Zengin {
    let banks = r#"{
        "0001":{"code":"0001","name":"みずほ","kana":"ミズホ","hira":"みずほ","roma":"mizuho"},
        "0005":{"code":"0005","name":"三菱ＵＦＪ","kana":"ミツビシユ－エフジエイ",
                "hira":"みつびしゆ－えふじえい","roma":"mitsubishiyu-efujiei"},
        "0009":{"code":"0009","name":"三井住友","kana":"ミツイスミトモ",
                "hira":"みついすみとも","roma":"mitsuisumitomo"}
    }"#;
    let branches = r#"{
        "001":{"code":"001","name":"東京営業部","kana":"トウキヨウ","hira":"とうきよう","roma":"toukiyou"}
    }"#;
    let mut dir = DataDir::new();
    dir.add_file("banks.json".to_string(), banks.as_bytes().to_vec());
    for code in ["0001", "0005", "0009"] {
        dir.add_file(format!("branches/{}.json", code), branches.as_bytes().to_vec());
    }
    Zengin::new(&dir).unwrap()
}

fn codes_of_banks(found: Vec<&Bank>) -> Vec<String> {
    found.into_iter().map(|bank| bank.code.clone()).collect()
}

fn codes_of_branches(found: Vec<&Branch>) -> Vec<String> {
    found.into_iter().map(|branch| branch.code.clone()).collect()
}

#[test]
fn a_bank_is_found_by_its_code() {
    let zengin = collection();
    let bank = zengin.get_bank("0005").unwrap();
    assert_eq!(bank.code, "0005");
    assert_eq!(bank.name, "三菱ＵＦＪ");
    assert_eq!(bank.kana, "ミツビシユ－エフジエイ");
    assert_eq!(bank.hira, "みつびしゆ－えふじえい");
    assert_eq!(bank.roma, "mitsubishiyu-efujiei");
}

#[test]
fn an_absent_bank_code_gives_none() {
    let zengin = collection();
    assert!(zengin.get_bank("0002").is_none());
    assert!(zengin.get_bank("").is_none());
}

#[test]
fn a_code_is_taken_as_it_is_written() {
    let zengin = collection();
    assert!(zengin.get_bank("1").is_none());
    assert!(zengin.get_bank("0001 ").is_none());
    assert!(zengin.get_bank("００01").is_none());
    let bank = tokyo_bank();
    assert!(bank.get_branch("1").is_none());
    assert!(bank.get_branch("01").is_none());
    assert_eq!(bank.get_branch("001").unwrap().name, "東京営業部");
}

#[test]
fn a_branch_is_found_by_its_code() {
    let bank = tokyo_bank();
    let found = bank.get_branch("003").unwrap();
    assert_eq!(found.code, "003");
    assert_eq!(found.name, "大阪支店");
    assert_eq!(found.kana, "オオサカ");
    assert_eq!(found.hira, "おおさか");
    assert_eq!(found.roma, "oosaka");
    assert!(bank.get_branch("004").is_none());
}

#[test]
fn banks_by_name_gives_exactly_the_bank_that_matches() {
    let zengin = collection();
    let found = zengin.find_banks_by_name(".*みずほ.*").unwrap();
    assert_eq!(found.len(), 1);
    assert_eq!(found[0].code, "0001");
    assert_eq!(found[0].name, "みずほ");
}

#[test]
fn branches_by_name_gives_exactly_the_branch_that_matches() {
    let bank = tokyo_bank();
    let found = bank.find_branches_by_name(".*東京.*").unwrap();
    assert_eq!(found.len(), 1);
    assert_eq!(found[0].code, "001");
    assert_eq!(found[0].name, "東京営業部");
}

#[test]
fn banks_are_found_by_each_name_field() {
    let zengin = collection();
    assert_eq!(codes_of_banks(zengin.find_banks_by_kana(".*ミズホ.*").unwrap()), vec!["0001"]);
    assert_eq!(codes_of_banks(zengin.find_banks_by_hira(".*みずほ.*").unwrap()), vec!["0001"]);
    assert_eq!(codes_of_banks(zengin.find_banks_by_roma(".*mizuho.*").unwrap()), vec!["0001"]);
    assert_eq!(codes_of_banks(zengin.find_banks_by_name("三").unwrap()), vec!["0005", "0009"]);
    assert_eq!(
        codes_of_banks(zengin.find_banks_by(NameField::Roma, "^mitsu").unwrap()),
        vec!["0005", "0009"]
    );
    assert_eq!(
        codes_of_banks(zengin.find_banks_by(NameField::Kana, "ミツイ").unwrap()),
        vec!["0009"]
    );
    assert_eq!(
        codes_of_banks(zengin.find_banks_by(NameField::Hira, "みつ.*い$").unwrap()),
        vec!["0005"]
    );
    assert_eq!(
        codes_of_banks(zengin.find_banks_by(NameField::Name, "^みずほ$").unwrap()),
        vec!["0001"]
    );
}

#[test]
fn branches_are_found_by_each_name_field() {
    let bank = tokyo_bank();
    assert_eq!(
        codes_of_branches(bank.find_branches_by_hira(".*とうきよう.*").unwrap()),
        vec!["001"]
    );
    assert_eq!(
        codes_of_branches(bank.find_branches_by_kana(".*トウキヨウ.*").unwrap()),
        vec!["001"]
    );
    assert_eq!(
        codes_of_branches(bank.find_branches_by_roma(".*toukiyou.*").unwrap()),
        vec!["001"]
    );
    assert_eq!(codes_of_branches(bank.find_branches_by_name("店").unwrap()), vec!["002", "003"]);
    assert_eq!(
        codes_of_branches(bank.find_branches_by(NameField::Roma, "o{2}").unwrap()),
        vec!["003"]
    );
    assert_eq!(
        codes_of_branches(bank.find_branches_by(NameField::Kana, "^ホ").unwrap()),
        vec!["002"]
    );
    assert_eq!(
        codes_of_branches(bank.find_branches_by(NameField::Hira, "[おう]").unwrap()),
        vec!["001", "003"]
    );
    assert_eq!(
        codes_of_branches(bank.find_branches_by(NameField::Name, "部$").unwrap()),
        vec!["001"]
    );
}

#[test]
fn a_pattern_is_searched_for_not_matched_against_the_whole() {
    let bank = tokyo_bank();
    assert_eq!(codes_of_branches(bank.find_branches_by_name("東京").unwrap()), vec!["001"]);
    assert_eq!(codes_of_branches(bank.find_branches_by_roma("kiyo").unwrap()), vec!["001"]);
    assert_eq!(codes_of_branches(bank.find_branches_by_roma("^kiyo").unwrap()), Vec::<String>::new());
}

#[test]
fn a_search_does_not_look_at_other_fields() {
    let zengin = collection();
    assert!(zengin.find_banks_by_name("mizuho").unwrap().is_empty());
    assert!(zengin.find_banks_by_roma("みずほ").unwrap().is_empty());
    assert!(zengin.find_banks_by_kana("みずほ").unwrap().is_empty());
    assert!(zengin.find_banks_by_hira("ミズホ").unwrap().is_empty());
    assert!(zengin.find_banks_by_name("0001").unwrap().is_empty());
}

#[test]
fn the_found_come_in_the_order_of_the_table() {
    let zengin = collection();
    assert_eq!(
        codes_of_banks(zengin.find_banks_by_name("").unwrap()),
        vec!["0001", "0005", "0009"]
    );
    let bank = tokyo_bank();
    assert_eq!(
        codes_of_branches(bank.find_branches_by_name(".*").unwrap()),
        vec!["001", "002", "003"]
    );
}

#[test]
fn a_pattern_that_matches_nothing_finds_nothing() {
    let zengin = collection();
    assert!(zengin.find_banks_by_name("りそな").unwrap().is_empty());
    let bank = tokyo_bank();
    assert!(bank.find_branches_by_name("名古屋").unwrap().is_empty());
}

#[test]
fn an_invalid_pattern_is_an_error_of_every_bank_search() {
    let zengin = collection();
    let pattern = "(みずほ";
    assert_eq!(zengin.find_banks_by_name(pattern).err().unwrap().pattern, pattern);
    assert_eq!(zengin.find_banks_by_kana(pattern).err().unwrap().pattern, pattern);
    assert_eq!(zengin.find_banks_by_hira(pattern).err().unwrap().pattern, pattern);
    assert_eq!(zengin.find_banks_by_roma(pattern).err().unwrap().pattern, pattern);
    assert_eq!(zengin.find_banks_by(NameField::Name, "[a-").err().unwrap().pattern, "[a-");
}

#[test]
fn an_invalid_pattern_is_an_error_of_every_branch_search() {
    let bank = tokyo_bank();
    let pattern = "東京)";
    assert_eq!(bank.find_branches_by_name(pattern).err().unwrap().pattern, pattern);
    assert_eq!(bank.find_branches_by_kana(pattern).err().unwrap().pattern, pattern);
    assert_eq!(bank.find_branches_by_hira(pattern).err().unwrap().pattern, pattern);
    assert_eq!(bank.find_branches_by_roma(pattern).err().unwrap().pattern, pattern);
    assert_eq!(bank.find_branches_by(NameField::Roma, "a{2,1}").err().unwrap().pattern, "a{2,1}");
}

#[test]
fn the_error_carries_what_the_compiler_of_the_pattern_said() {
    let zengin = collection();
    let error = zengin.find_banks_by_name("(").err().unwrap();
    assert!(matches!(error.cause, regex::Error::Syntax(_)));
    assert!(!error.cause.to_string().is_empty());
}

#[test]
fn an_invalid_pattern_is_an_error_of_an_empty_table_too() {
    let bank = Bank {
        code: String::new(),
        name: String::new(),
        kana: String::new(),
        hira: String::new(),
        roma: String::new(),
        branches: CodeMap::new(),
    };
    assert!(bank.find_branches_by_name("(").is_err());
    assert!(bank.find_branches_by_name(".*").unwrap().is_empty());
}

#[test]
fn all_banks_and_all_branches_give_the_tables() {
    let zengin = collection();
    let banks = zengin.all_banks();
    assert_eq!(banks.len(), 3);
    assert_eq!(banks.code_at(1), "0005");
    assert_eq!(banks.value_at(1).name, "三菱ＵＦＪ");
    assert_eq!(banks.get("0009").unwrap().roma, "mitsuisumitomo");
    let bank = tokyo_bank();
    let branches = bank.all_branches();
    assert_eq!(branches.len(), 3);
    assert_eq!(branches.code_at(0), "001");
    assert_eq!(branches.value_at(2).name, "大阪支店");
}
