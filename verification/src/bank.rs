//! Banks and their branches.

use crate::code_map::{distinct_codes, lookup, mapped, CodeMap};
use crate::pattern::{find_in, is_search_result, NameField, Named, PatternError};
use vstd::prelude::*;

verus! {

/// The branches of one bank, by branch code.
pub type BranchMap = CodeMap<Branch>;

/// The banks, by bank code.
pub type BankMap = CodeMap<Bank>;

/// A branch of a bank.
#[derive(Debug)]
pub struct Branch {
    /// The branch code, three digits in the Zengin system.
    pub code: String,
    /// The name in kanji.
    pub name: String,
    /// The name in katakana.
    pub kana: String,
    /// The name in hiragana.
    pub hira: String,
    /// The romanized name.
    pub roma: String,
}

/// What a branch holds, as texts.
pub struct BranchView {
    pub code: Seq<char>,
    pub name: Seq<char>,
    pub kana: Seq<char>,
    pub hira: Seq<char>,
    pub roma: Seq<char>,
}

impl View for Branch {
    type V = BranchView;

    open spec fn view(&self) -> BranchView {
        BranchView {
            code: self.code@,
            name: self.name@,
            kana: self.kana@,
            hira: self.hira@,
            roma: self.roma@,
        }
    }
}

impl Named for Branch {
    open spec fn label(&self, key: NameField) -> Seq<char> {
        key.pick(self.name@, self.kana@, self.hira@, self.roma@)
    }

    fn field(&self, key: NameField) -> (text: &str) {
        match key {
            NameField::Name => self.name.as_str(),
            NameField::Kana => self.kana.as_str(),
            NameField::Hira => self.hira.as_str(),
            NameField::Roma => self.roma.as_str(),
        }
    }
}

/// The entries of a branch table as texts: each a branch code and what stands under it.
pub type BranchEntries = Seq<(Seq<char>, BranchView)>;

/// The entries of a bank table as texts: each a bank code and what stands under it.
pub type BankEntries = Seq<(Seq<char>, BankView)>;

/// The entries of a branch table, each branch by its view.
pub open spec fn branch_views(entries: Seq<(Seq<char>, Branch)>) -> BranchEntries {
    mapped(entries, |branch: Branch| branch@)
}

/// A bank with its branches.
pub struct Bank {
    /// The bank code, four digits in the Zengin system.
    pub code: String,
    /// The name in kanji.
    pub name: String,
    /// The name in katakana.
    pub kana: String,
    /// The name in hiragana.
    pub hira: String,
    /// The romanized name.
    pub roma: String,
    /// The branches, by branch code.
    pub branches: BranchMap,
}

/// What a bank holds, as texts, with the entries of its branch table in order.
pub struct BankView {
    pub code: Seq<char>,
    pub name: Seq<char>,
    pub kana: Seq<char>,
    pub hira: Seq<char>,
    pub roma: Seq<char>,
    pub branches: BranchEntries,
}

impl View for Bank {
    type V = BankView;

    open spec fn view(&self) -> BankView {
        BankView {
            code: self.code@,
            name: self.name@,
            kana: self.kana@,
            hira: self.hira@,
            roma: self.roma@,
            branches: branch_views(self.branches@),
        }
    }
}

impl Named for Bank {
    open spec fn label(&self, key: NameField) -> Seq<char> {
        key.pick(self.name@, self.kana@, self.hira@, self.roma@)
    }

    fn field(&self, key: NameField) -> (text: &str) {
        match key {
            NameField::Name => self.name.as_str(),
            NameField::Kana => self.kana.as_str(),
            NameField::Hira => self.hira.as_str(),
            NameField::Roma => self.roma.as_str(),
        }
    }
}

/// The entries of a bank table, each bank by its view.
pub open spec fn bank_views(entries: Seq<(Seq<char>, Bank)>) -> BankEntries {
    mapped(entries, |bank: Bank| bank@)
}

impl Bank {
    /// The branch under `code`, or `None` where the bank has no such branch. The code is
    /// taken as it is written.
    pub fn get_branch(&self, code: &str) -> (found: Option<&Branch>)
        ensures
            match found {
                Some(branch) => lookup(self.branches@, code@) == Some(*branch),
                None => lookup(self.branches@, code@) is None,
            },
    {
        self.branches.get(code)
    }

    /// The branches in whose field `key` the regular expression `pattern` finds a match
    /// anywhere, in the order of the branch table; or the error for a pattern that does not
    /// compile.
    pub fn find_branches_by(&self, key: NameField, pattern: &str) -> (r: Result<
        Vec<&Branch>,
        PatternError,
    >)
        ensures
            is_search_result(r, self.branches@, key, pattern@),
    {
        find_in(&self.branches, key, pattern)
    }

    /// The branches whose name in kanji matches `pattern`.
    pub fn find_branches_by_name(&self, pattern: &str) -> (r: Result<Vec<&Branch>, PatternError>)
        ensures
            is_search_result(r, self.branches@, NameField::Name, pattern@),
    {
        self.find_branches_by(NameField::Name, pattern)
    }

    /// The branches whose name in hiragana matches `pattern`.
    pub fn find_branches_by_hira(&self, pattern: &str) -> (r: Result<Vec<&Branch>, PatternError>)
        ensures
            is_search_result(r, self.branches@, NameField::Hira, pattern@),
    {
        self.find_branches_by(NameField::Hira, pattern)
    }

    /// The branches whose name in katakana matches `pattern`.
    pub fn find_branches_by_kana(&self, pattern: &str) -> (r: Result<Vec<&Branch>, PatternError>)
        ensures
            is_search_result(r, self.branches@, NameField::Kana, pattern@),
    {
        self.find_branches_by(NameField::Kana, pattern)
    }

    /// The branches whose romanized name matches `pattern`.
    pub fn find_branches_by_roma(&self, pattern: &str) -> (r: Result<Vec<&Branch>, PatternError>)
        ensures
            is_search_result(r, self.branches@, NameField::Roma, pattern@),
    {
        self.find_branches_by(NameField::Roma, pattern)
    }

    /// The branch table. No two of its entries share a code.
    pub fn all_branches(&self) -> (branches: &BranchMap)
        ensures
            branches@ == self.branches@,
            distinct_codes(branches@),
    {
        proof {
            use_type_invariant(&self.branches);
            self.branches.lemma_distinct();
        }
        &self.branches
    }
}

} // verus!
