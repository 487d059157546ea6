//! A table from codes to values that keeps its entries in the order in which their codes
//! first came, with a hash index from each code to the place of its entry.

use vstd::hash_map::StringHashMap;
use vstd::prelude::*;

verus! {

/// Whether some entry of `entries` has the code `code`.
pub open spec fn has_code<V>(entries: Seq<(Seq<char>, V)>, code: Seq<char>) -> bool {
    exists|i: int| 0 <= i < entries.len() && #[trigger] entries[i].0 == code
}

/// The place of an entry with the code `code`, where there is one.
pub open spec fn position<V>(entries: Seq<(Seq<char>, V)>, code: Seq<char>) -> int {
    choose|i: int| 0 <= i < entries.len() && #[trigger] entries[i].0 == code
}

/// The value that `entries` holds under `code`.
pub open spec fn lookup<V>(entries: Seq<(Seq<char>, V)>, code: Seq<char>) -> Option<V> {
    if has_code(entries, code) {
        Some(entries[position(entries, code)].1)
    } else {
        None
    }
}

/// `entries` after `value` is stored under `code`: in the place of the entry that had the
/// code, or at the end where none had it.
pub open spec fn put<V>(entries: Seq<(Seq<char>, V)>, code: Seq<char>, value: V) -> Seq<
    (Seq<char>, V),
> {
    if has_code(entries, code) {
        entries.update(position(entries, code), (code, value))
    } else {
        entries.push((code, value))
    }
}

/// No two entries share a code.
pub open spec fn distinct_codes<V>(entries: Seq<(Seq<char>, V)>) -> bool {
    forall|i: int, j: int|
        0 <= i < entries.len() && 0 <= j < entries.len() && i != j ==> #[trigger] entries[i].0
            != #[trigger] entries[j].0
}

/// The values of `entries`, in order.
pub open spec fn values_of<V>(entries: Seq<(Seq<char>, V)>) -> Seq<V> {
    Seq::new(entries.len(), |i: int| entries[i].1)
}

/// The items whose place holds `true` in `flags`, in order. A place beyond the end of
/// `flags` counts as `false`.
pub open spec fn selected<V>(items: Seq<V>, flags: Seq<bool>) -> Seq<V>
    decreases items.len(),
{
    if items.len() == 0 {
        Seq::empty()
    } else {
        let last = items.len() - 1;
        let before = selected(items.drop_last(), flags);
        if last < flags.len() && flags[last] {
            before.push(items[last])
        } else {
            before
        }
    }
}

/// The entries with `f` applied to each value, codes and order kept.
pub open spec fn mapped<A, B>(entries: Seq<(Seq<char>, A)>, f: spec_fn(A) -> B) -> Seq<
    (Seq<char>, B),
> {
    Seq::new(entries.len(), |i: int| (entries[i].0, f(entries[i].1)))
}

/// The values that a sequence of references points to.
pub open spec fn referents<V>(found: Seq<&V>) -> Seq<V> {
    Seq::new(found.len(), |i: int| *found[i])
}

/// In entries with distinct codes, the entry at place `i` is the one found under its code.
pub proof fn lemma_position_of_entry<V>(entries: Seq<(Seq<char>, V)>, i: int)
    requires
        distinct_codes(entries),
        0 <= i < entries.len(),
    ensures
        has_code(entries, entries[i].0),
        position(entries, entries[i].0) == i,
        lookup(entries, entries[i].0) == Some(entries[i].1),
{
    assert(entries[i].0 == entries[i].0);
}

/// Storing a value keeps the codes distinct.
pub proof fn lemma_put_keeps_distinct<V>(entries: Seq<(Seq<char>, V)>, code: Seq<char>, value: V)
    requires
        distinct_codes(entries),
    ensures
        distinct_codes(put(entries, code, value)),
{
    let after = put(entries, code, value);
    if has_code(entries, code) {
        let p = position(entries, code);
        assert forall|i: int, j: int|
            0 <= i < after.len() && 0 <= j < after.len() && i != j implies #[trigger] after[i].0
            != #[trigger] after[j].0 by {
            assert(after[i].0 == entries[i].0);
            assert(after[j].0 == entries[j].0);
        }
    } else {
        assert forall|i: int, j: int|
            0 <= i < after.len() && 0 <= j < after.len() && i != j implies #[trigger] after[i].0
            != #[trigger] after[j].0 by {
            if i < entries.len() {
                assert(after[i].0 == entries[i].0);
            }
            if j < entries.len() {
                assert(after[j].0 == entries[j].0);
            }
        }
    }
}

/// What is found after storing a value: the new value under its code, and under every other
/// code what was there before.
pub proof fn lemma_lookup_after_put<V>(
    entries: Seq<(Seq<char>, V)>,
    code: Seq<char>,
    value: V,
    other: Seq<char>,
)
    requires
        distinct_codes(entries),
    ensures
        lookup(put(entries, code, value), other) == if other == code {
            Some(value)
        } else {
            lookup(entries, other)
        },
{
    let after = put(entries, code, value);
    lemma_put_keeps_distinct(entries, code, value);
    let p = if has_code(entries, code) {
        position(entries, code)
    } else {
        entries.len() as int
    };
    assert(after[p] == (code, value));
    assert(after[p].0 == code);
    if other == code {
        lemma_position_of_entry(after, p);
    } else if has_code(entries, other) {
        let q = position(entries, other);
        assert(q != p);
        assert(after[q] == entries[q]);
        lemma_position_of_entry(after, q);
    } else {
        if has_code(after, other) {
            let q = position(after, other);
            assert(q != p);
            assert(after[q] == entries[q]);
            assert(entries[q].0 == other);
        }
    }
}

/// Applying a function to the values changes neither which codes are there nor where: what
/// is found under a code is the function's value on what was found before.
pub proof fn lemma_lookup_mapped<A, B>(
    entries: Seq<(Seq<char>, A)>,
    f: spec_fn(A) -> B,
    code: Seq<char>,
)
    requires
        distinct_codes(entries),
    ensures
        distinct_codes(mapped(entries, f)),
        has_code(mapped(entries, f), code) == has_code(entries, code),
        has_code(entries, code) ==> position(mapped(entries, f), code) == position(entries, code),
        lookup(mapped(entries, f), code) == match lookup(entries, code) {
            Some(value) => Some(f(value)),
            None => None,
        },
{
    let after = mapped(entries, f);
    assert forall|i: int, j: int|
        0 <= i < after.len() && 0 <= j < after.len() && i != j implies #[trigger] after[i].0
        != #[trigger] after[j].0 by {
        assert(entries[i].0 != entries[j].0);
    }
    if has_code(entries, code) {
        let p = position(entries, code);
        assert(after[p].0 == code);
        lemma_position_of_entry(after, p);
    } else if has_code(after, code) {
        let p = position(after, code);
        assert(entries[p].0 == code);
    }
}

/// Storing a value and then applying a function to the values is storing the function's
/// value.
pub proof fn lemma_put_mapped<A, B>(
    entries: Seq<(Seq<char>, A)>,
    f: spec_fn(A) -> B,
    code: Seq<char>,
    value: A,
)
    requires
        distinct_codes(entries),
    ensures
        mapped(put(entries, code, value), f) == put(mapped(entries, f), code, f(value)),
{
    lemma_lookup_mapped(entries, f, code);
    assert(mapped(put(entries, code, value), f) =~= put(mapped(entries, f), code, f(value)));
}

/// An insertion-ordered table from codes to values.
pub struct CodeMap<V> {
    codes: Vec<String>,
    values: Vec<V>,
    index: StringHashMap<usize>,
}

/// Whether `index` sends each code of `codes` to its place, and nothing else anywhere.
spec fn indexed(codes: Seq<String>, index: Map<Seq<char>, usize>) -> bool {
    &&& forall|i: int|
        0 <= i < codes.len() ==> index.contains_key(#[trigger] codes[i]@) && index[codes[i]@] == i
    &&& forall|code: Seq<char>| #[trigger]
        index.contains_key(code) ==> index[code] < codes.len() && codes[index[code] as int]@
            == code
}

/// The entries that two vectors of equal length hold.
spec fn paired<V>(codes: Seq<String>, values: Seq<V>) -> Seq<(Seq<char>, V)> {
    Seq::new(codes.len(), |i: int| (codes[i]@, values[i]))
}

proof fn lemma_indexed_distinct<V>(codes: Seq<String>, values: Seq<V>, index: Map<Seq<char>, usize>)
    requires
        indexed(codes, index),
    ensures
        distinct_codes(paired(codes, values)),
        forall|code: Seq<char>| has_code(paired(codes, values), code) == index.contains_key(code),
        forall|code: Seq<char>| #[trigger]
            index.contains_key(code) ==> position(paired(codes, values), code) == index[code],
{
    let entries = paired(codes, values);
    assert forall|i: int, j: int|
        0 <= i < entries.len() && 0 <= j < entries.len() && i != j implies #[trigger] entries[i].0
        != #[trigger] entries[j].0 by {
        assert(index[codes[i]@] == i);
        assert(index[codes[j]@] == j);
    }
    assert forall|code: Seq<char>| has_code(entries, code) == index.contains_key(code) by {
        if index.contains_key(code) {
            assert(entries[index[code] as int].0 == code);
        }
        if has_code(entries, code) {
            let i = position(entries, code);
            assert(index.contains_key(codes[i]@));
        }
    }
    assert forall|code: Seq<char>| #[trigger] index.contains_key(code) implies position(
        entries,
        code,
    ) == index[code] by {
        assert(entries[index[code] as int].0 == code);
        lemma_position_of_entry(entries, index[code] as int);
    }
}

/// Stores `value` under `code` in the three parts of a table.
fn store<V>(
    codes: &mut Vec<String>,
    values: &mut Vec<V>,
    index: &mut StringHashMap<usize>,
    code: String,
    value: V,
)
    requires
        old(codes)@.len() == old(values)@.len(),
        indexed(old(codes)@, old(index)@),
    ensures
        final(codes)@.len() == final(values)@.len(),
        indexed(final(codes)@, final(index)@),
        paired(final(codes)@, final(values)@) == put(
            paired(old(codes)@, old(values)@),
            code@,
            value,
        ),
{
    proof {
        lemma_indexed_distinct(codes@, values@, index@);
    }
    let ghost before = paired(codes@, values@);
    let found = match index.get(code.as_str()) {
        Some(place) => Some(*place),
        None => None,
    };
    match found {
        Some(place) => {
            values[place] = value;
            assert(paired(codes@, values@) =~= put(before, code@, value));
        },
        None => {
            let place = codes.len();
            let key = code.clone();
            codes.push(code);
            values.push(value);
            index.insert(key, place);
            assert(paired(codes@, values@) =~= put(before, code@, value));
            assert forall|i: int| 0 <= i < codes@.len() implies index@.contains_key(
                #[trigger] codes@[i]@,
            ) && index@[codes@[i]@] == i by {
                if i < place {
                    assert(codes@[i] == old(codes)@[i]);
                    assert(old(index)@.contains_key(old(codes)@[i]@));
                }
            }
            assert forall|c: Seq<char>| #[trigger] index@.contains_key(c) implies index@[c]
                < codes@.len() && codes@[index@[c] as int]@ == c by {
                if c != code@ {
                    assert(old(index)@.contains_key(c));
                    assert(codes@[old(index)@[c] as int] == old(codes)@[old(index)@[c] as int]);
                }
            }
        },
    }
}

impl<V> View for CodeMap<V> {
    type V = Seq<(Seq<char>, V)>;

    /// The entries, each a code and the value under it, in the order in which the codes came.
    closed spec fn view(&self) -> Seq<(Seq<char>, V)> {
        paired(self.codes@, self.values@)
    }
}

impl<V> CodeMap<V> {
    /// The codes are distinct, and the index knows the place of each.
    #[verifier::type_invariant]
    pub closed spec fn wf(&self) -> bool {
        &&& self.codes@.len() == self.values@.len()
        &&& indexed(self.codes@, self.index@)
    }

    /// A well-formed table has distinct codes.
    pub proof fn lemma_distinct(&self)
        requires
            self.wf(),
        ensures
            distinct_codes(self@),
    {
        lemma_indexed_distinct(self.codes@, self.values@, self.index@);
    }

    /// The empty table.
    pub fn new() -> (table: Self)
        ensures
            table@ == Seq::<(Seq<char>, V)>::empty(),
            table.wf(),
    {
        let table = CodeMap { codes: Vec::new(), values: Vec::new(), index: StringHashMap::new() };
        assert(table@ =~= Seq::<(Seq<char>, V)>::empty());
        table
    }

    /// The number of entries.
    pub fn len(&self) -> (n: usize)
        ensures
            n == self@.len(),
    {
        proof {
            use_type_invariant(self);
        }
        self.codes.len()
    }

    /// Stores `value` under `code`. A code that is already there keeps its place and gets the
    /// new value; a new code goes to the end.
    pub fn insert(&mut self, code: String, value: V)
        ensures
            final(self)@ == put(old(self)@, code@, value),
            final(self).wf(),
    {
        proof {
            use_type_invariant(&*self);
        }
        let mut taken = CodeMap::new();
        core::mem::swap(self, &mut taken);
        let CodeMap { mut codes, mut values, mut index } = taken;
        store(&mut codes, &mut values, &mut index, code, value);
        *self = CodeMap { codes, values, index };
    }

    /// The value under `code`, or `None` where the table has no such code. The code is taken
    /// as it is written.
    pub fn get(&self, code: &str) -> (found: Option<&V>)
        ensures
            match found {
                Some(value) => lookup(self@, code@) == Some(*value),
                None => lookup(self@, code@) is None,
            },
    {
        proof {
            use_type_invariant(self);
            lemma_indexed_distinct(self.codes@, self.values@, self.index@);
        }
        match self.index.get(code) {
            Some(place) => Some(&self.values[*place]),
            None => None,
        }
    }

    /// The code of the entry at place `i`.
    pub fn code_at(&self, i: usize) -> (code: &String)
        requires
            i < self@.len(),
        ensures
            code@ == self@[i as int].0,
    {
        proof {
            use_type_invariant(self);
        }
        &self.codes[i]
    }

    /// The value of the entry at place `i`.
    pub fn value_at(&self, i: usize) -> (value: &V)
        requires
            i < self@.len(),
        ensures
            *value == self@[i as int].1,
    {
        proof {
            use_type_invariant(self);
        }
        &self.values[i]
    }

    /// The values whose place holds `true` in `flags`, in the order of the table.
    pub fn select(&self, flags: &Vec<bool>) -> (chosen: Vec<&V>)
        ensures
            referents(chosen@) == selected(values_of(self@), flags@),
            chosen@.len() == selected(values_of(self@), flags@).len(),
    {
        proof {
            use_type_invariant(self);
        }
        let ghost items = values_of(self@);
        let mut chosen: Vec<&V> = Vec::new();
        let mut i: usize = 0;
        assert(items.take(0) =~= Seq::<V>::empty());
        assert(referents(chosen@) =~= Seq::<V>::empty());
        while i < self.values.len()
            invariant
                self.wf(),
                items == values_of(self@),
                i <= self.values@.len(),
                self.values@.len() == items.len(),
                referents(chosen@) == selected(items.take(i as int), flags@),
            decreases self.values@.len() - i,
        {
            assert(items.take(i + 1).drop_last() =~= items.take(i as int));
            let ghost before = chosen@;
            if i < flags.len() && flags[i] {
                chosen.push(&self.values[i]);
                assert(referents(chosen@) =~= referents(before).push(items[i as int]));
            }
            i += 1;
        }
        assert(items.take(i as int) =~= items);
        assert(referents(chosen@).len() == chosen@.len());
        chosen
    }
}

} // verus!
