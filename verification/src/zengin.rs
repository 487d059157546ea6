//! The loaded collection of banks, and the queries on it.

use crate::bank::{
    bank_views, branch_views, Bank, BankEntries, BankMap, BankView, BranchEntries, BranchMap,
};
use crate::code_map::{distinct_codes, has_code, lookup, CodeMap};
use crate::data::{
    file_text, join_paths, joined, read_data_file, texts, DataDir, FileError, FileFault, Files,
};
use crate::pattern::{find_in, is_search_result, NameField, PatternError};
use crate::records::{
    banks_in, branches_in, parse_banks, parse_branches, ParseError, ParseFault,
};
use vstd::prelude::*;
use vstd::string::StringExecFns;

verus! {

/// Why a directory gives no collection.
#[derive(Debug)]
pub enum LoadError {
    /// A file is missing or is no text.
    File(FileError),
    /// The file under `path` describes no table.
    Parse { path: String, error: ParseError },
}

/// `LoadError` as texts.
pub enum LoadFault {
    File(FileFault),
    Parse { path: Seq<char>, fault: ParseFault },
}

impl View for LoadError {
    type V = LoadFault;

    open spec fn view(&self) -> LoadFault {
        match self {
            LoadError::File(error) => LoadFault::File(error@),
            LoadError::Parse { path, error } => LoadFault::Parse { path: path@, fault: error@ },
        }
    }
}

/// The path of the file that lists the banks.
pub open spec fn index_path() -> Seq<char> {
    "banks.json"@
}

/// The path of the file that lists the branches of the bank with the code `code`.
pub open spec fn branch_path(code: Seq<char>) -> Seq<char> {
    joined(seq!["branches"@, code + ".json"@])
}

/// The bank table in the file under `path`.
pub open spec fn banks_at(files: Files, path: Seq<char>) -> Result<BankEntries, LoadFault> {
    match file_text(files, path) {
        Err(fault) => Err(LoadFault::File(fault)),
        Ok(text) => match banks_in(text) {
            Err(fault) => Err(LoadFault::Parse { path, fault }),
            Ok(table) => Ok(table),
        },
    }
}

/// The branch table in the file under `path`.
pub open spec fn branches_at(files: Files, path: Seq<char>) -> Result<BranchEntries, LoadFault> {
    match file_text(files, path) {
        Err(fault) => Err(LoadFault::File(fault)),
        Ok(text) => match branches_in(text) {
            Err(fault) => Err(LoadFault::Parse { path, fault }),
            Ok(table) => Ok(table),
        },
    }
}

/// `bank` with the branch table `branches`.
pub open spec fn with_branches(bank: BankView, branches: BranchEntries) -> BankView {
    BankView {
        code: bank.code,
        name: bank.name,
        kana: bank.kana,
        hira: bank.hira,
        roma: bank.roma,
        branches,
    }
}

/// The banks, each with the branch table of the file that is named after the bank's code.
/// Of several banks whose file gives no table the first counts.
pub open spec fn filled(files: Files, banks: BankEntries) -> Result<BankEntries, LoadFault>
    decreases banks.len(),
{
    if banks.len() == 0 {
        Ok(Seq::empty())
    } else {
        match filled(files, banks.drop_last()) {
            Err(fault) => Err(fault),
            Ok(done) => match branches_at(files, branch_path(banks.last().1.code)) {
                Err(fault) => Err(fault),
                Ok(branches) => Ok(
                    done.push((banks.last().0, with_branches(banks.last().1, branches))),
                ),
            },
        }
    }
}

/// The collection that a directory holds: the banks of the index file, each with the
/// branches of its own file.
pub open spec fn loaded(files: Files) -> Result<BankEntries, LoadFault> {
    match banks_at(files, index_path()) {
        Err(fault) => Err(fault),
        Ok(banks) => filled(files, banks),
    }
}

/// A fault among the first `n` banks is the fault of all of them.
pub proof fn lemma_fault_stays(files: Files, banks: BankEntries, n: int)
    requires
        0 <= n <= banks.len(),
        filled(files, banks.take(n)) is Err,
    ensures
        filled(files, banks) == filled(files, banks.take(n)),
    decreases banks.len() - n,
{
    if n == banks.len() {
        assert(banks.take(n) =~= banks);
    } else {
        assert(banks.take(n + 1).drop_last() =~= banks.take(n));
        lemma_fault_stays(files, banks, n + 1);
    }
}

/// The bank table in the file under `file_path`.
pub fn load_banks_from_file(dir: &DataDir, file_path: &str) -> (r: Result<BankMap, LoadError>)
    ensures
        match r {
            Ok(table) => banks_at(dir@, file_path@) matches Ok(entries)
                && entries == bank_views(table@),
            Err(e) => banks_at(dir@, file_path@) matches Err(fault) && fault == e@,
        },
{
    let json_data = match read_data_file(dir, file_path) {
        Ok(text) => text,
        Err(error) => { return Err(LoadError::File(error)); },
    };
    match parse_banks(json_data.as_str()) {
        Ok(table) => Ok(table),
        Err(error) => Err(LoadError::Parse { path: file_path.to_owned(), error }),
    }
}

/// The branch table in the file under `file_path`.
pub fn load_branches_from_file(dir: &DataDir, file_path: &str) -> (r: Result<
    BranchMap,
    LoadError,
>)
    ensures
        match r {
            Ok(table) => branches_at(dir@, file_path@) matches Ok(entries)
                && entries == branch_views(table@),
            Err(e) => branches_at(dir@, file_path@) matches Err(fault) && fault == e@,
        },
{
    let json_data = match read_data_file(dir, file_path) {
        Ok(text) => text,
        Err(error) => { return Err(LoadError::File(error)); },
    };
    match parse_branches(json_data.as_str()) {
        Ok(table) => Ok(table),
        Err(error) => Err(LoadError::Parse { path: file_path.to_owned(), error }),
    }
}

/// The path of the file that lists the branches of the bank with the code `code`.
pub fn branch_file(code: &str) -> (path: String)
    ensures
        path@ == branch_path(code@),
{
    let mut name = code.to_owned();
    name.append(".json");
    let parts: [&str; 2] = ["branches", name.as_str()];
    let path = join_paths(parts.as_slice());
    proof {
        assert(texts(parts@) =~= seq!["branches"@, code@ + ".json"@]);
    }
    path
}

/// The banks of the Zengin code system with their branches.
pub struct Zengin {
    banks: BankMap,
}

impl View for Zengin {
    type V = Seq<(Seq<char>, Bank)>;

    /// The entries of the bank table: each a bank code and the bank under it.
    closed spec fn view(&self) -> Seq<(Seq<char>, Bank)> {
        self.banks@
    }
}

impl Zengin {
    /// Loads the collection from a directory: the banks from the file `banks.json`, and for
    /// each bank its branches from the file `branches/` + the bank's code + `.json`. Fails
    /// on the first file that is missing, is no text or describes no table.
    pub fn new(dir: &DataDir) -> (r: Result<Zengin, LoadError>)
        ensures
            match r {
                Ok(zengin) => loaded(dir@) matches Ok(entries) && entries == bank_views(zengin@),
                Err(e) => loaded(dir@) matches Err(fault) && fault == e@,
            },
    {
        let index = match load_banks_from_file(dir, "banks.json") {
            Ok(index) => index,
            Err(e) => { return Err(e); },
        };
        let ghost wanted = bank_views(index@);
        let mut banks: BankMap = CodeMap::new();
        let n = index.len();
        let mut i: usize = 0;
        proof {
            use_type_invariant(&index);
            index.lemma_distinct();
            assert(wanted.take(0) =~= Seq::empty());
            assert(bank_views(banks@) =~= Seq::empty());
        }
        while i < n
            invariant
                i <= n,
                n == index@.len(),
                wanted == bank_views(index@),
                banks_at(dir@, index_path()) matches Ok(entries) && entries == wanted,
                distinct_codes(index@),
                banks.wf(),
                banks@.len() == i,
                forall|j: int| 0 <= j < i ==> (#[trigger] banks@[j]).0 == index@[j].0,
                filled(dir@, wanted.take(i as int)) matches Ok(entries)
                    && entries == bank_views(banks@),
            decreases n - i,
        {
            let from = index.value_at(i);
            let path = branch_file(from.code.as_str());
            proof {
                assert(wanted.take(i + 1).drop_last() =~= wanted.take(i as int));
                assert(wanted.take(i + 1).last() == wanted[i as int]);
                assert(wanted[i as int].1.code == from.code@);
            }
            let branches = match load_branches_from_file(dir, path.as_str()) {
                Ok(branches) => branches,
                Err(e) => {
                    proof {
                        lemma_fault_stays(dir@, wanted, i + 1);
                    }
                    return Err(e);
                },
            };
            let bank = Bank {
                code: from.code.clone(),
                name: from.name.clone(),
                kana: from.kana.clone(),
                hira: from.hira.clone(),
                roma: from.roma.clone(),
                branches,
            };
            let code = index.code_at(i).clone();
            proof {
                if has_code(banks@, code@) {
                    let p = choose|p: int| 0 <= p < banks@.len() && #[trigger] banks@[p].0 == code@;
                    assert(index@[p].0 == index@[i as int].0);
                }
                assert(bank@ == with_branches(wanted[i as int].1, branch_views(bank.branches@)));
                assert(bank_views(banks@.push((code@, bank))) =~= bank_views(banks@).push(
                    (code@, bank@),
                ));
            }
            banks.insert(code, bank);
            i += 1;
        }
        proof {
            assert(wanted.take(i as int) =~= wanted);
        }
        Ok(Zengin { banks })
    }

    /// The bank under `code`, or `None` where the collection has no such bank. The code is
    /// taken as it is written.
    pub fn get_bank(&self, code: &str) -> (found: Option<&Bank>)
        ensures
            match found {
                Some(bank) => lookup(self@, code@) == Some(*bank),
                None => lookup(self@, code@) is None,
            },
    {
        self.banks.get(code)
    }

    /// The banks in whose field `key` the regular expression `pattern` finds a match
    /// anywhere, in the order of the bank table; or the error for a pattern that does not
    /// compile.
    pub fn find_banks_by(&self, key: NameField, pattern: &str) -> (r: Result<
        Vec<&Bank>,
        PatternError,
    >)
        ensures
            is_search_result(r, self@, key, pattern@),
    {
        find_in(&self.banks, key, pattern)
    }

    /// The banks whose name in kanji matches `pattern`.
    pub fn find_banks_by_name(&self, pattern: &str) -> (r: Result<Vec<&Bank>, PatternError>)
        ensures
            is_search_result(r, self@, NameField::Name, pattern@),
    {
        self.find_banks_by(NameField::Name, pattern)
    }

    /// The banks whose name in katakana matches `pattern`.
    pub fn find_banks_by_kana(&self, pattern: &str) -> (r: Result<Vec<&Bank>, PatternError>)
        ensures
            is_search_result(r, self@, NameField::Kana, pattern@),
    {
        self.find_banks_by(NameField::Kana, pattern)
    }

    /// The banks whose name in hiragana matches `pattern`.
    pub fn find_banks_by_hira(&self, pattern: &str) -> (r: Result<Vec<&Bank>, PatternError>)
        ensures
            is_search_result(r, self@, NameField::Hira, pattern@),
    {
        self.find_banks_by(NameField::Hira, pattern)
    }

    /// The banks whose romanized name matches `pattern`.
    pub fn find_banks_by_roma(&self, pattern: &str) -> (r: Result<Vec<&Bank>, PatternError>)
        ensures
            is_search_result(r, self@, NameField::Roma, pattern@),
    {
        self.find_banks_by(NameField::Roma, pattern)
    }

    /// The bank table. No two of its entries share a code.
    pub fn all_banks(&self) -> (banks: &BankMap)
        ensures
            banks@ == self@,
            distinct_codes(banks@),
    {
        proof {
            use_type_invariant(&self.banks);
            self.banks.lemma_distinct();
        }
        &self.banks
    }
}

} // verus!
