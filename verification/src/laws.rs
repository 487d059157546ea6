//! What holds of the tables, of the search and of loading, for every input.

use crate::bank::{bank_views, Bank, BankEntries, BranchView};
use crate::code_map::{
    distinct_codes, has_code, lemma_lookup_after_put, lemma_lookup_mapped,
    lemma_position_of_entry, lemma_put_keeps_distinct, lookup, position, selected, values_of,
};
use crate::data::{file_text, FileFault, Files};
use crate::pattern::{
    compiled_language, hits, is_valid_pattern, matches_of, pattern_matches, NameField, Named,
};
use crate::records::{
    bank_of, bank_table, banks_in, branch_of, branch_table, json_records, FieldsView, RecordsView,
};
use crate::zengin::{
    banks_at, branch_path, branches_at, filled, index_path, lemma_fault_stays, loaded,
    with_branches, LoadFault,
};
use vstd::prelude::*;

verus! {

/// The members of the last record under `key`, or `None` where no record has that key.
pub open spec fn record_under(records: RecordsView, key: Seq<char>) -> Option<FieldsView>
    decreases records.len(),
{
    if records.len() == 0 {
        None
    } else if records.last().0 == key {
        Some(records.last().1)
    } else {
        record_under(records.drop_last(), key)
    }
}

/// In the branch table of records no code occurs twice, and under each key stands the
/// branch of the last record with that key; under any other code stands nothing.
pub proof fn law_branch_table_lookup(records: RecordsView, key: Seq<char>)
    requires
        branch_table(records) is Ok,
    ensures
        distinct_codes(branch_table(records)->Ok_0),
        lookup(branch_table(records)->Ok_0, key) == match record_under(records, key) {
            Some(fields) => Some(branch_of(key, fields)->Ok_0),
            None => None,
        },
        record_under(records, key) matches Some(fields) ==> branch_of(key, fields) is Ok,
    decreases records.len(),
{
    if records.len() > 0 {
        let before = branch_table(records.drop_last())->Ok_0;
        let branch = branch_of(records.last().0, records.last().1)->Ok_0;
        law_branch_table_lookup(records.drop_last(), key);
        lemma_put_keeps_distinct(before, records.last().0, branch);
        lemma_lookup_after_put(before, records.last().0, branch, key);
    }
}

/// In the bank table of records no code occurs twice, and under each key stands the bank of
/// the last record with that key, without branches; under any other code stands nothing.
pub proof fn law_bank_table_lookup(records: RecordsView, key: Seq<char>)
    requires
        bank_table(records) is Ok,
    ensures
        distinct_codes(bank_table(records)->Ok_0),
        lookup(bank_table(records)->Ok_0, key) == match record_under(records, key) {
            Some(fields) => Some(bank_of(branch_of(key, fields)->Ok_0)),
            None => None,
        },
        record_under(records, key) matches Some(fields) ==> branch_of(key, fields) is Ok,
{
    law_branch_table_lookup(records, key);
    lemma_lookup_mapped(branch_table(records)->Ok_0, |names: BranchView| bank_of(names), key);
}

/// Parsing and then looking up: where a text gives a bank table, the bank found in the table
/// under a code is the bank of the record that the text holds under that code, with each of
/// the five texts as the record has it; and a code that the text does not hold is not found.
pub proof fn law_parse_then_lookup(text: Seq<char>, table: Seq<(Seq<char>, Bank)>, code: Seq<char>)
    requires
        banks_in(text) matches Ok(entries) && entries == bank_views(table),
        distinct_codes(table),
    ensures
        json_records(text) is Some,
        match lookup(table, code) {
            Some(bank) => record_under(json_records(text)->Some_0, code) matches Some(fields)
                && branch_of(code, fields) is Ok && bank@ == bank_of(
                branch_of(code, fields)->Ok_0,
            ),
            None => record_under(json_records(text)->Some_0, code) is None,
        },
{
    let records = json_records(text)->Some_0;
    law_bank_table_lookup(records, code);
    lemma_lookup_mapped(table, |bank: Bank| bank@, code);
}

/// A code that no entry has is not found.
pub proof fn law_absent_code_is_not_found<V>(entries: Seq<(Seq<char>, V)>, code: Seq<char>)
    ensures
        lookup(entries, code) is None <==> !has_code(entries, code),
{
}

/// What is selected: the items at the places that hold `true`, and no others.
pub proof fn law_selected_are_the_flagged<V>(items: Seq<V>, flags: Seq<bool>, item: V)
    ensures
        selected(items, flags).contains(item) <==> exists|i: int|
            0 <= i < items.len() && i < flags.len() && flags[i] && #[trigger] items[i] == item,
        selected(items, flags).len() <= items.len(),
    decreases items.len(),
{
    if items.len() > 0 {
        let last = items.len() - 1;
        let before = selected(items.drop_last(), flags);
        law_selected_are_the_flagged(items.drop_last(), flags, item);
        if selected(items, flags).contains(item) {
            let j = choose|j: int|
                0 <= j < selected(items, flags).len() && selected(items, flags)[j] == item;
            if j < before.len() {
                assert(before[j] == item);
                assert(before.contains(item));
                let i = choose|i: int|
                    0 <= i < items.drop_last().len() && i < flags.len() && flags[i]
                        && #[trigger] items.drop_last()[i] == item;
                assert(items[i] == item);
            } else {
                assert(items[last] == item);
            }
        }
        if exists|i: int|
            0 <= i < items.len() && i < flags.len() && flags[i] && #[trigger] items[i] == item {
            let i = choose|i: int|
                0 <= i < items.len() && i < flags.len() && flags[i] && #[trigger] items[i] == item;
            if i < last {
                assert(items.drop_last()[i] == item);
                assert(before.contains(item));
                let j = choose|j: int| 0 <= j < before.len() && before[j] == item;
                assert(selected(items, flags)[j] == item);
            } else {
                assert(selected(items, flags)[before.len() as int] == item);
            }
        }
    }
}

/// What a search finds: a value of the table is among the found exactly if the pattern
/// finds a match in its field.
pub proof fn law_found_are_the_matches<V: Named>(
    entries: Seq<(Seq<char>, V)>,
    key: NameField,
    pattern: Seq<char>,
    value: V,
)
    requires
        is_valid_pattern(pattern),
    ensures
        matches_of(entries, key, pattern).contains(value) <==> exists|i: int|
            0 <= i < entries.len() && #[trigger] entries[i].1 == value && pattern_matches(
                pattern,
                value.label(key),
            ),
{
    let language = compiled_language(pattern)->Some_0;
    let items = values_of(entries);
    let flags = hits(entries, key, language);
    law_selected_are_the_flagged(items, flags, value);
    if matches_of(entries, key, pattern).contains(value) {
        let i = choose|i: int|
            0 <= i < items.len() && i < flags.len() && flags[i] && #[trigger] items[i] == value;
        assert(entries[i].1 == value);
    }
    if exists|i: int|
        0 <= i < entries.len() && #[trigger] entries[i].1 == value && pattern_matches(
            pattern,
            value.label(key),
        ) {
        let i = choose|i: int|
            0 <= i < entries.len() && #[trigger] entries[i].1 == value && pattern_matches(
                pattern,
                value.label(key),
            );
        assert(items[i] == value && flags[i]);
    }
}

/// A pattern that does not compile finds nothing.
pub proof fn law_invalid_pattern_finds_nothing<V: Named>(
    entries: Seq<(Seq<char>, V)>,
    key: NameField,
    pattern: Seq<char>,
    text: Seq<char>,
)
    requires
        !is_valid_pattern(pattern),
    ensures
        !pattern_matches(pattern, text),
        matches_of(entries, key, pattern) == Seq::<V>::empty(),
{
}

/// What loading fills in: the banks of the index in their order, each with the branch table
/// of its own file; and loading succeeds exactly if each of those files gives a table.
pub proof fn law_filled_entries(files: Files, banks: BankEntries)
    ensures
        filled(files, banks) is Ok <==> forall|i: int|
            0 <= i < banks.len() ==> branches_at(files, branch_path(#[trigger] banks[i].1.code))
                is Ok,
        filled(files, banks) matches Ok(done) ==> done.len() == banks.len() && forall|i: int|
            0 <= i < banks.len() ==> #[trigger] done[i] == (
                banks[i].0,
                with_branches(
                    banks[i].1,
                    branches_at(files, branch_path(banks[i].1.code))->Ok_0,
                ),
            ),
    decreases banks.len(),
{
    if banks.len() > 0 {
        let last = banks.len() - 1;
        law_filled_entries(files, banks.drop_last());
        if filled(files, banks) is Ok {
            assert forall|i: int| 0 <= i < banks.len() implies branches_at(
                files,
                branch_path(#[trigger] banks[i].1.code),
            ) is Ok by {
                if i < last {
                    assert(banks.drop_last()[i] == banks[i]);
                }
            }
        }
        if forall|i: int|
            0 <= i < banks.len() ==> branches_at(files, branch_path(#[trigger] banks[i].1.code))
                is Ok {
            assert forall|i: int| 0 <= i < banks.drop_last().len() implies branches_at(
                files,
                branch_path(#[trigger] banks.drop_last()[i].1.code),
            ) is Ok by {
                assert(banks.drop_last()[i] == banks[i]);
            }
            assert(branches_at(files, branch_path(banks[last].1.code)) is Ok);
        }
        if filled(files, banks) is Ok {
            let done = filled(files, banks)->Ok_0;
            let before = filled(files, banks.drop_last())->Ok_0;
            assert forall|i: int| 0 <= i < banks.len() implies #[trigger] done[i] == (
                banks[i].0,
                with_branches(
                    banks[i].1,
                    branches_at(files, branch_path(banks[i].1.code))->Ok_0,
                ),
            ) by {
                if i < last {
                    assert(done[i] == before[i]);
                    assert(banks.drop_last()[i] == banks[i]);
                }
            }
        }
    }
}

/// Loading and then looking up: in a loaded collection no code occurs twice, and the bank
/// found under a code is the bank that the index holds under that code, with the branch
/// table of its own file; a code that the index does not hold is not found.
pub proof fn law_load_then_lookup(files: Files, code: Seq<char>)
    requires
        loaded(files) is Ok,
    ensures
        banks_at(files, index_path()) is Ok,
        distinct_codes(loaded(files)->Ok_0),
        lookup(loaded(files)->Ok_0, code) == match lookup(
            banks_at(files, index_path())->Ok_0,
            code,
        ) {
            Some(bank) => Some(
                with_branches(bank, branches_at(files, branch_path(bank.code))->Ok_0),
            ),
            None => None,
        },
{
    let banks = banks_at(files, index_path())->Ok_0;
    let done = loaded(files)->Ok_0;
    let text = file_text(files, index_path())->Ok_0;
    law_bank_table_lookup(json_records(text)->Some_0, code);
    law_filled_entries(files, banks);
    assert forall|i: int, j: int|
        0 <= i < done.len() && 0 <= j < done.len() && i != j implies #[trigger] done[i].0
        != #[trigger] done[j].0 by {
        assert(done[i].0 == banks[i].0);
        assert(done[j].0 == banks[j].0);
    }
    if has_code(banks, code) {
        let p = position(banks, code);
        assert(done[p].0 == code);
        lemma_position_of_entry(done, p);
    } else if has_code(done, code) {
        let p = position(done, code);
        assert(banks[p].0 == code);
    }
}

/// A bank without a branch file fails the load: where the index names a bank and the
/// directory has no file for its branches, nothing is loaded; and where the files of all
/// banks before it give their tables, the error is that this file was not found.
pub proof fn law_missing_branch_file(files: Files, banks: BankEntries, i: int)
    requires
        banks_at(files, index_path()) matches Ok(entries) && entries == banks,
        0 <= i < banks.len(),
        lookup(files, branch_path(banks[i].1.code)) is None,
    ensures
        loaded(files) is Err,
        (forall|j: int|
            0 <= j < i ==> branches_at(files, branch_path(#[trigger] banks[j].1.code)) is Ok)
            ==> loaded(files) == Err::<BankEntries, LoadFault>(
            LoadFault::File(FileFault::NotFound { path: branch_path(banks[i].1.code) }),
        ),
{
    law_filled_entries(files, banks);
    assert(branches_at(files, branch_path(banks[i].1.code)) is Err);
    if forall|j: int|
        0 <= j < i ==> branches_at(files, branch_path(#[trigger] banks[j].1.code)) is Ok {
        law_filled_entries(files, banks.take(i));
        assert forall|j: int| 0 <= j < banks.take(i).len() implies branches_at(
            files,
            branch_path(#[trigger] banks.take(i)[j].1.code),
        ) is Ok by {
            assert(banks.take(i)[j] == banks[j]);
        }
        assert(banks.take(i + 1).drop_last() =~= banks.take(i));
        assert(banks.take(i + 1).last() == banks[i]);
        lemma_fault_stays(files, banks, i + 1);
    }
}

} // verus!
