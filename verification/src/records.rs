//! Reading bank and branch tables from JSON text. The text is parsed by the `serde_json`
//! crate; what a record must hold is decided here.

use crate::bank::{
    bank_views, branch_views, Bank, BankEntries, BankMap, BankView, Branch, BranchEntries,
    BranchMap, BranchView,
};
use crate::code_map::{distinct_codes, has_code, lemma_put_mapped, mapped, put, CodeMap};
use serde_json::Value;
use std::collections::BTreeMap;
use vstd::prelude::*;

verus! {

/// `serde_json::Error`, what the `serde_json` crate reports of a text that it refuses. It is
/// carried to the caller as it is.
#[verifier::external_type_specification]
#[verifier::external_body]
pub struct ExJsonError(serde_json::Error);

/// The members of one JSON object: each a name, and the text of its value where the value is
/// a string, `None` where it is anything else.
pub type Fields = Vec<(String, Option<String>)>;

/// The members of a JSON document whose values are objects: each a key and the members
/// under it.
pub type Records = Vec<(String, Fields)>;

/// `Fields` as texts.
pub type FieldsView = Seq<(Seq<char>, Option<Seq<char>>)>;

/// `Records` as texts.
pub type RecordsView = Seq<(Seq<char>, FieldsView)>;

/// What `serde_json::from_str` makes of a text that is read as an object of objects: the
/// members of the document, each with the members of its object, or `None` where the text is
/// refused: where it is no JSON, or no object, or has a member that is no object.
pub uninterp spec fn json_records(text: Seq<char>) -> Option<RecordsView>;

/// Calls `serde_json::from_str` for a `BTreeMap` of `BTreeMap`s of `serde_json::Value`s, and
/// hands each map out as its entries, each value as its text where it is a string. Believed
/// of it: the same text is always read alike, so that the result is `Ok` exactly for the
/// texts that have records, and holds those records. Which texts these are is not stated.
#[verifier::external_body]
fn read_records(text: &str) -> (r: Result<Records, serde_json::Error>)
    ensures
        match r {
            Ok(records) => json_records(text@) == Some(records.deep_view()),
            Err(_) => json_records(text@) is None,
        },
{
    let document: BTreeMap<String, BTreeMap<String, Value>> = serde_json::from_str(text)?;
    Ok(document.into_iter().map(|(key, members)| {
        (key, members.into_iter().map(|(name, value)| (name, match value {
            Value::String(text) => Some(text),
            Value::Null => None,
            Value::Bool(_) => None,
            Value::Number(_) => None,
            Value::Array(_) => None,
            Value::Object(_) => None,
        })).collect())
    }).collect())
}

/// The members that a record must have. Each must hold a string.
#[derive(Clone, Copy, Debug, PartialEq, Eq, Structural)]
pub enum RecordField {
    Code,
    Name,
    Kana,
    Hira,
    Roma,
}

impl RecordField {
    /// The member's name in the JSON object.
    pub open spec fn label(self) -> Seq<char> {
        match self {
            RecordField::Code => "code"@,
            RecordField::Name => "name"@,
            RecordField::Kana => "kana"@,
            RecordField::Hira => "hira"@,
            RecordField::Roma => "roma"@,
        }
    }

    /// The member's name in the JSON object.
    pub fn name(self) -> (s: &'static str)
        ensures
            s@ == self.label(),
    {
        match self {
            RecordField::Code => "code",
            RecordField::Name => "name",
            RecordField::Kana => "kana",
            RecordField::Hira => "hira",
            RecordField::Roma => "roma",
        }
    }
}

/// Why a text gives no table.
#[derive(Debug)]
pub enum ParseError {
    /// The text is no JSON object whose members are objects; with what `serde_json` reported.
    Malformed(serde_json::Error),
    /// The record under `key` lacks the member `field`.
    MissingField { key: String, field: RecordField },
    /// The record under `key` has the member `field`, and it holds no string.
    NotText { key: String, field: RecordField },
}

/// `ParseError` as texts.
pub enum ParseFault {
    Malformed,
    MissingField { key: Seq<char>, field: RecordField },
    NotText { key: Seq<char>, field: RecordField },
}

impl View for ParseError {
    type V = ParseFault;

    open spec fn view(&self) -> ParseFault {
        match self {
            ParseError::Malformed(_) => ParseFault::Malformed,
            ParseError::MissingField { key, field } => ParseFault::MissingField {
                key: key@,
                field: *field,
            },
            ParseError::NotText { key, field } => ParseFault::NotText { key: key@, field: *field },
        }
    }
}

/// What the last member called `name` holds, or `None` where no member has that name.
pub open spec fn member(fields: FieldsView, name: Seq<char>) -> Option<Option<Seq<char>>>
    decreases fields.len(),
{
    if fields.len() == 0 {
        None
    } else if fields.last().0 == name {
        Some(fields.last().1)
    } else {
        member(fields.drop_last(), name)
    }
}

/// The text of the member `field` of the record under `key`.
pub open spec fn field_text(key: Seq<char>, fields: FieldsView, field: RecordField) -> Result<
    Seq<char>,
    ParseFault,
> {
    match member(fields, field.label()) {
        None => Err(ParseFault::MissingField { key, field }),
        Some(None) => Err(ParseFault::NotText { key, field }),
        Some(Some(text)) => Ok(text),
    }
}

/// The branch that the record under `key` describes. Of several faults the one of the
/// earliest member counts, in the order code, name, kana, hira, roma.
pub open spec fn branch_of(key: Seq<char>, fields: FieldsView) -> Result<BranchView, ParseFault> {
    let code = field_text(key, fields, RecordField::Code);
    let name = field_text(key, fields, RecordField::Name);
    let kana = field_text(key, fields, RecordField::Kana);
    let hira = field_text(key, fields, RecordField::Hira);
    let roma = field_text(key, fields, RecordField::Roma);
    if code is Err {
        Err(code->Err_0)
    } else if name is Err {
        Err(name->Err_0)
    } else if kana is Err {
        Err(kana->Err_0)
    } else if hira is Err {
        Err(hira->Err_0)
    } else if roma is Err {
        Err(roma->Err_0)
    } else {
        Ok(
            BranchView {
                code: code->Ok_0,
                name: name->Ok_0,
                kana: kana->Ok_0,
                hira: hira->Ok_0,
                roma: roma->Ok_0,
            },
        )
    }
}

/// The branch table that the records describe: each record stored under its key, in order.
/// Of several faulty records the first counts.
pub open spec fn branch_table(records: RecordsView) -> Result<BranchEntries, ParseFault>
    decreases records.len(),
{
    if records.len() == 0 {
        Ok(Seq::empty())
    } else {
        match branch_table(records.drop_last()) {
            Err(fault) => Err(fault),
            Ok(table) => match branch_of(records.last().0, records.last().1) {
                Err(fault) => Err(fault),
                Ok(branch) => Ok(put(table, records.last().0, branch)),
            },
        }
    }
}

/// The bank of a record's five texts, with no branches yet.
pub open spec fn bank_of(names: BranchView) -> BankView {
    BankView {
        code: names.code,
        name: names.name,
        kana: names.kana,
        hira: names.hira,
        roma: names.roma,
        branches: Seq::empty(),
    }
}

/// The bank table that the records describe: as the branch table, each entry a bank without
/// branches.
pub open spec fn bank_table(records: RecordsView) -> Result<BankEntries, ParseFault> {
    match branch_table(records) {
        Err(fault) => Err(fault),
        Ok(table) => Ok(mapped(table, |names: BranchView| bank_of(names))),
    }
}

/// The text of the member `field` among `fields`, or the fault of the record under `key`.
pub fn read_field(key: &str, fields: &Fields, field: RecordField) -> (r: Result<String, ParseError>)
    ensures
        match r {
            Ok(text) => field_text(key@, fields.deep_view(), field) matches Ok(chars)
                && chars == text@,
            Err(e) => field_text(key@, fields.deep_view(), field) matches Err(fault) && fault == e@,
        },
{
    let ghost all = fields.deep_view();
    let wanted = field.name().to_owned();
    let mut found: Option<usize> = None;
    let mut i: usize = 0;
    while i < fields.len()
        invariant
            i <= fields.len(),
            all == fields.deep_view(),
            wanted@ == field.label(),
            match found {
                None => member(all.take(i as int), wanted@) is None,
                Some(j) => j < i && member(all.take(i as int), wanted@) == Some(all[j as int].1),
            },
        decreases fields.len() - i,
    {
        assert(all.take(i + 1).drop_last() =~= all.take(i as int));
        assert(all[i as int].0 == fields[i as int].0@);
        if fields[i].0 == wanted {
            found = Some(i);
        }
        i += 1;
    }
    assert(all.take(i as int) =~= all);
    match found {
        None => Err(ParseError::MissingField { key: key.to_owned(), field }),
        Some(j) => {
            assert(all[j as int].1 == fields[j as int].1.deep_view());
            match &fields[j].1 {
                Some(text) => Ok(text.clone()),
                None => Err(ParseError::NotText { key: key.to_owned(), field }),
            }
        },
    }
}

/// The branch that the record under `key` describes, or its first fault.
pub fn branch_from_fields(key: &str, fields: &Fields) -> (r: Result<Branch, ParseError>)
    ensures
        match r {
            Ok(branch) => branch_of(key@, fields.deep_view()) matches Ok(view) && view == branch@,
            Err(e) => branch_of(key@, fields.deep_view()) matches Err(fault) && fault == e@,
        },
{
    let code = match read_field(key, fields, RecordField::Code) {
        Ok(text) => text,
        Err(e) => { return Err(e); },
    };
    let name = match read_field(key, fields, RecordField::Name) {
        Ok(text) => text,
        Err(e) => { return Err(e); },
    };
    let kana = match read_field(key, fields, RecordField::Kana) {
        Ok(text) => text,
        Err(e) => { return Err(e); },
    };
    let hira = match read_field(key, fields, RecordField::Hira) {
        Ok(text) => text,
        Err(e) => { return Err(e); },
    };
    let roma = match read_field(key, fields, RecordField::Roma) {
        Ok(text) => text,
        Err(e) => { return Err(e); },
    };
    Ok(Branch { code, name, kana, hira, roma })
}

/// The branch table that the records describe, or the fault of the first faulty record.
pub fn branches_from_records(records: &Records) -> (r: Result<BranchMap, ParseError>)
    ensures
        match r {
            Ok(table) => branch_table(records.deep_view()) matches Ok(entries)
                && entries == branch_views(table@),
            Err(e) => branch_table(records.deep_view()) matches Err(fault) && fault == e@,
        },
{
    let ghost all = records.deep_view();
    let mut table: BranchMap = CodeMap::new();
    let mut i: usize = 0;
    assert(branch_views(table@) =~= Seq::empty());
    while i < records.len()
        invariant
            i <= records.len(),
            all == records.deep_view(),
            table.wf(),
            branch_table(all.take(i as int)) matches Ok(entries) && entries == branch_views(table@),
        decreases records.len() - i,
    {
        assert(all.take(i + 1).drop_last() =~= all.take(i as int));
        assert(all[i as int] == (records[i as int].0@, records[i as int].1.deep_view()));
        match branch_from_fields(records[i].0.as_str(), &records[i].1) {
            Ok(branch) => {
                proof {
                    table.lemma_distinct();
                    lemma_put_mapped(
                        table@,
                        |branch: Branch| branch@,
                        records[i as int].0@,
                        branch,
                    );
                }
                table.insert(records[i].0.clone(), branch);
            },
            Err(e) => {
                proof {
                    lemma_fault_stays(all, i + 1);
                }
                return Err(e);
            },
        }
        i += 1;
    }
    assert(all.take(i as int) =~= all);
    Ok(table)
}

/// A fault among the first `n` records is the fault of all of them.
proof fn lemma_fault_stays(records: RecordsView, n: int)
    requires
        0 <= n <= records.len(),
        branch_table(records.take(n)) is Err,
    ensures
        branch_table(records) == branch_table(records.take(n)),
    decreases records.len() - n,
{
    if n == records.len() {
        assert(records.take(n) =~= records);
    } else {
        assert(records.take(n + 1).drop_last() =~= records.take(n));
        lemma_fault_stays(records, n + 1);
    }
}

/// The bank table that the records describe, or the fault of the first faulty record.
pub fn banks_from_records(records: &Records) -> (r: Result<BankMap, ParseError>)
    ensures
        match r {
            Ok(table) => bank_table(records.deep_view()) matches Ok(entries)
                && entries == bank_views(table@),
            Err(e) => bank_table(records.deep_view()) matches Err(fault) && fault == e@,
        },
{
    let names = match branches_from_records(records) {
        Ok(names) => names,
        Err(e) => { return Err(e); },
    };
    let ghost wanted = bank_table(records.deep_view())->Ok_0;
    let mut table: BankMap = CodeMap::new();
    let n = names.len();
    let mut i: usize = 0;
    proof {
        use_type_invariant(&names);
        names.lemma_distinct();
    }
    assert(bank_views(table@) =~= wanted.take(0));
    while i < n
        invariant
            i <= n,
            n == names@.len(),
            distinct_codes(names@),
            wanted.len() == n,
            forall|j: int| 0 <= j < n ==> wanted[j] == (names@[j].0, bank_of(names@[j].1@)),
            table.wf(),
            bank_views(table@) == wanted.take(i as int),
        decreases n - i,
    {
        let from = names.value_at(i);
        let branches: BranchMap = CodeMap::new();
        let bank = Bank {
            code: from.code.clone(),
            name: from.name.clone(),
            kana: from.kana.clone(),
            hira: from.hira.clone(),
            roma: from.roma.clone(),
            branches,
        };
        let code = names.code_at(i).clone();
        proof {
            assert(branch_views(bank.branches@) =~= Seq::empty());
            assert(bank@ == bank_of(from@));
            assert(table@.len() == bank_views(table@).len());
            assert(wanted.take(i as int).len() == i);
            if has_code(table@, code@) {
                let p = choose|p: int| 0 <= p < table@.len() && #[trigger] table@[p].0 == code@;
                assert(bank_views(table@)[p].0 == code@);
                assert(wanted.take(i as int)[p] == wanted[p]);
                assert(names@[p].0 == names@[i as int].0);
            }
            assert(bank_views(put(table@, code@, bank)) =~= wanted.take(i + 1));
        }
        table.insert(code, bank);
        i += 1;
    }
    assert(wanted.take(i as int) =~= wanted);
    Ok(table)
}

/// The bank table that a JSON text describes, or why it describes none.
pub open spec fn banks_in(text: Seq<char>) -> Result<BankEntries, ParseFault> {
    match json_records(text) {
        Some(records) => bank_table(records),
        None => Err(ParseFault::Malformed),
    }
}

/// The branch table that a JSON text describes, or why it describes none.
pub open spec fn branches_in(text: Seq<char>) -> Result<BranchEntries, ParseFault> {
    match json_records(text) {
        Some(records) => branch_table(records),
        None => Err(ParseFault::Malformed),
    }
}

/// The bank table that a JSON text describes: an object whose members are the banks, each
/// under its code, each an object with the five texts. The banks have no branches yet.
pub fn parse_banks(json_data: &str) -> (r: Result<BankMap, ParseError>)
    ensures
        match r {
            Ok(table) => banks_in(json_data@) matches Ok(entries) && entries == bank_views(table@),
            Err(e) => banks_in(json_data@) matches Err(fault) && fault == e@,
        },
{
    match read_records(json_data) {
        Ok(records) => banks_from_records(&records),
        Err(cause) => Err(ParseError::Malformed(cause)),
    }
}

/// The branch table that a JSON text describes: an object whose members are the branches,
/// each under its code, each an object with the five texts.
pub fn parse_branches(json_data: &str) -> (r: Result<BranchMap, ParseError>)
    ensures
        match r {
            Ok(table) => branches_in(json_data@) matches Ok(entries)
                && entries == branch_views(table@),
            Err(e) => branches_in(json_data@) matches Err(fault) && fault == e@,
        },
{
    match read_records(json_data) {
        Ok(records) => branches_from_records(&records),
        Err(cause) => Err(ParseError::Malformed(cause)),
    }
}

} // verus!
