//! Search by regular expression over the name fields of the records in a table. The
//! expressions are compiled and run by the `regex` crate.

use crate::code_map::{referents, selected, values_of, CodeMap};
use vstd::prelude::*;

verus! {

/// `regex::Regex`, a compiled regular expression. Nothing is seen of what it holds; what it
/// matches is called `regex_language`.
#[verifier::external_type_specification]
#[verifier::external_body]
pub struct ExRegex(regex::Regex);

/// `regex::Error`, what the `regex` crate reports of a pattern that it refuses. It is carried
/// to the caller as it is.
#[verifier::external_type_specification]
#[verifier::external_body]
pub struct ExRegexError(regex::Error);

/// What a compiled expression holds: the texts in which `regex::Regex::is_match` finds a
/// match somewhere.
pub uninterp spec fn regex_language(re: regex::Regex) -> Set<Seq<char>>;

/// What `regex::Regex::new` makes of a pattern: the language of the compiled expression,
/// or `None` where the pattern is refused, as bad syntax or as too large once compiled.
pub uninterp spec fn compiled_language(pattern: Seq<char>) -> Option<Set<Seq<char>>>;

/// Calls `regex::Regex::new`. Believed of it: the same pattern is always treated alike, so
/// that the result is `Ok` exactly for the patterns that have a compiled language, and the
/// expression returned then has that language. Which patterns these are is not stated.
#[verifier::external_body]
fn compile(pattern: &str) -> (r: Result<regex::Regex, regex::Error>)
    ensures
        match r {
            Ok(re) => compiled_language(pattern@) == Some(regex_language(re)),
            Err(_) => compiled_language(pattern@) is None,
        },
{
    regex::Regex::new(pattern)
}

/// Calls `regex::Regex::is_match`. Believed of it: the result is `true` exactly for the
/// texts of the expression's language, that is, where a match is found anywhere in `text`.
#[verifier::external_body]
fn is_match(re: &regex::Regex, text: &str) -> (b: bool)
    ensures
        b == regex_language(*re).contains(text@),
{
    re.is_match(text)
}

/// Whether `pattern` compiles.
pub open spec fn is_valid_pattern(pattern: Seq<char>) -> bool {
    compiled_language(pattern) is Some
}

/// Whether `pattern` compiles and finds a match somewhere in `text`.
pub open spec fn pattern_matches(pattern: Seq<char>, text: Seq<char>) -> bool {
    compiled_language(pattern) matches Some(language) && language.contains(text)
}

/// A pattern that is no valid regular expression.
#[derive(Debug)]
pub struct PatternError {
    /// The pattern as it was given.
    pub pattern: String,
    /// What the `regex` crate reported.
    pub cause: regex::Error,
}

/// The name fields by which records are searched.
#[derive(Clone, Copy, Debug, PartialEq, Eq, Structural)]
pub enum NameField {
    /// The name in kanji.
    Name,
    /// The name in katakana.
    Kana,
    /// The name in hiragana.
    Hira,
    /// The romanized name.
    Roma,
}

impl NameField {
    /// The one of four texts that this field stands for.
    pub open spec fn pick(self, name: Seq<char>, kana: Seq<char>, hira: Seq<char>, roma: Seq<char>)
        -> Seq<char> {
        match self {
            NameField::Name => name,
            NameField::Kana => kana,
            NameField::Hira => hira,
            NameField::Roma => roma,
        }
    }
}

/// A record that has the four name fields.
pub trait Named {
    /// The text of the field `key`.
    spec fn label(&self, key: NameField) -> Seq<char>;

    /// The text of the field `key`.
    fn field(&self, key: NameField) -> (text: &str)
        ensures
            text@ == self.label(key),
    ;
}

/// For each entry, whether `language` holds the text of its field `key`.
pub open spec fn hits<V: Named>(
    entries: Seq<(Seq<char>, V)>,
    key: NameField,
    language: Set<Seq<char>>,
) -> Seq<bool> {
    Seq::new(entries.len(), |i: int| language.contains(entries[i].1.label(key)))
}

/// The values of `entries` in whose field `key` the pattern finds a match, in the order of
/// the entries. Empty where the pattern does not compile.
pub open spec fn matches_of<V: Named>(
    entries: Seq<(Seq<char>, V)>,
    key: NameField,
    pattern: Seq<char>,
) -> Seq<V> {
    match compiled_language(pattern) {
        Some(language) => selected(values_of(entries), hits(entries, key, language)),
        None => Seq::empty(),
    }
}

/// Whether `r` is what a search of `entries` gives: the matches, where the pattern compiles,
/// and else an error that carries the pattern.
pub open spec fn is_search_result<V: Named>(
    r: Result<Vec<&V>, PatternError>,
    entries: Seq<(Seq<char>, V)>,
    key: NameField,
    pattern: Seq<char>,
) -> bool {
    match r {
        Ok(found) => {
            &&& is_valid_pattern(pattern)
            &&& referents(found@) == matches_of(entries, key, pattern)
            &&& found@.len() == matches_of(entries, key, pattern).len()
        },
        Err(e) => !is_valid_pattern(pattern) && e.pattern@ == pattern,
    }
}

/// For each entry of the table, whether `re` finds a match in its field `key`.
fn match_flags<V: Named>(table: &CodeMap<V>, key: NameField, re: &regex::Regex) -> (flags: Vec<
    bool,
>)
    ensures
        flags@ == hits(table@, key, regex_language(*re)),
{
    let mut flags: Vec<bool> = Vec::new();
    let mut i: usize = 0;
    let n = table.len();
    while i < n
        invariant
            n == table@.len(),
            i <= n,
            flags@ == hits(table@, key, regex_language(*re)).take(i as int),
        decreases n - i,
    {
        let hit = is_match(re, table.value_at(i).field(key));
        flags.push(hit);
        assert(flags@ =~= hits(table@, key, regex_language(*re)).take(i + 1));
        i += 1;
    }
    assert(flags@ =~= hits(table@, key, regex_language(*re)));
    flags
}

/// The values of the table in whose field `key` the regular expression `pattern` finds a
/// match anywhere, in the order of the table; or the error for a pattern that does not
/// compile.
pub fn find_in<'a, V: Named>(table: &'a CodeMap<V>, key: NameField, pattern: &str) -> (r: Result<
    Vec<&'a V>,
    PatternError,
>)
    ensures
        is_search_result(r, table@, key, pattern@),
{
    match compile(pattern) {
        Ok(re) => {
            let flags = match_flags(table, key, &re);
            Ok(table.select(&flags))
        },
        Err(cause) => Err(PatternError { pattern: pattern.to_owned(), cause }),
    }
}

} // verus!
