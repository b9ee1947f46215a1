//! The configuration of a scanner, checked once when it is assembled.

use crate::interfaces::lexer::token::Symbol;
use crate::intern::{intern_string, interned_text, same_handle};
use crate::utils::chars::{decimal_digit, is_digit, to_chars};
use internment::Intern;
use vstd::prelude::*;
use vstd::string::*;

verus! {

/// The numeric types that a suffix can tag a literal with.
#[derive(Debug, Clone, Copy, PartialEq, Eq, Structural, Hash)]
pub enum NumericType {
    I8,
    I16,
    I32,
    I64,
    I128,
    U8,
    U16,
    U32,
    U64,
    U128,
    F32,
    F64,
}

/// Maps one character to a symbol.
#[derive(Debug, Clone, Copy, PartialEq, Eq, Structural)]
pub struct SingleSymbol {
    /// The character that is read.
    pub key: char,
    /// The symbol it stands for.
    pub symbol: Symbol,
}

/// Maps a character to one of two symbols, by the character that follows it.
#[derive(Debug, Clone, Copy, PartialEq, Eq, Structural)]
pub struct EitherSymbol {
    /// The character that is read.
    pub first: char,
    /// The character that may follow it.
    pub second: char,
    /// The symbol for both characters together.
    pub combined: Symbol,
    /// The symbol for the first character alone.
    pub fallback: Symbol,
}

/// Maps a suffix of a numeric literal to the type it tags the literal with.
#[derive(Debug, Clone, PartialEq, Eq)]
pub struct NumericSuffix {
    /// The text that follows the digits.
    pub suffix: Vec<char>,
    /// The type that the literal is read as.
    pub ty: NumericType,
}

/// What a [`NumericSuffix`] stands for.
pub struct SuffixView {
    pub suffix: Seq<char>,
    pub ty: NumericType,
}

impl View for NumericSuffix {
    type V = SuffixView;

    open spec fn view(&self) -> SuffixView {
        SuffixView { suffix: self.suffix@, ty: self.ty }
    }
}

impl NumericSuffix {
    /// The rule that reads a literal followed by `suffix` as a `ty`.
    pub fn new(suffix: &str, ty: NumericType) -> (rule: NumericSuffix)
        ensures
            rule@ == (SuffixView { suffix: suffix@, ty }),
    {
        NumericSuffix { suffix: to_chars(suffix), ty }
    }
}

/// Why a configuration was turned down.
#[derive(Debug, Clone, Copy, PartialEq, Eq, Structural)]
pub enum ConfigError {
    /// The character keys more than one symbol rule.
    DuplicateSymbol(char),
    /// The suffix at this index is empty or starts with a digit.
    MalformedSuffix(usize),
    /// The suffix at this index repeats an earlier one.
    DuplicateSuffix(usize),
}

/// Whether the item at `j` occurs before `j` as well.
pub open spec fn repeats_at<T>(items: Seq<T>, j: int) -> bool {
    exists|i: int| 0 <= i < j && items[i] == items[j]
}

/// The least index whose item occurs earlier in `items`, if any item occurs twice.
#[verifier::opaque]
pub open spec fn first_repeat<T>(items: Seq<T>) -> Option<int> {
    if exists|j: int| 0 <= j < items.len() && #[trigger] repeats_at(items, j) {
        Some(
            choose|j: int|
                0 <= j < items.len() && #[trigger] repeats_at(items, j) && forall|k: int|
                    0 <= k < j ==> !#[trigger] repeats_at(items, k),
        )
    } else {
        None
    }
}

/// An index whose item occurs earlier, with no such index before it, is the first.
pub proof fn lemma_first_repeat_found<T>(items: Seq<T>, j: int)
    requires
        0 <= j < items.len(),
        repeats_at(items, j),
        forall|k: int| 0 <= k < j ==> !#[trigger] repeats_at(items, k),
    ensures
        first_repeat(items) == Some(j),
{
    reveal(first_repeat);
    let found = choose|i: int|
        0 <= i < items.len() && #[trigger] repeats_at(items, i) && forall|k: int|
            0 <= k < i ==> !#[trigger] repeats_at(items, k);
    if found < j {
        assert(!repeats_at(items, found));
    }
    if j < found {
        assert(!repeats_at(items, j));
    }
}

/// Where no item occurs twice, there is no first repeat.
pub proof fn lemma_first_repeat_none<T>(items: Seq<T>)
    requires
        forall|k: int| 0 <= k < items.len() ==> !#[trigger] repeats_at(items, k),
    ensures
        first_repeat(items) is None,
{
    reveal(first_repeat);
}

/// A suffix must have a first character, and that character cannot be a digit: the
/// digits before it would have swallowed it.
pub open spec fn malformed(suffix: Seq<char>) -> bool {
    suffix.len() == 0 || is_digit(suffix[0])
}

/// The least index whose text is malformed, if any is.
#[verifier::opaque]
pub open spec fn first_malformed(texts: Seq<Seq<char>>) -> Option<int> {
    if exists|j: int| 0 <= j < texts.len() && malformed(#[trigger] texts[j]) {
        Some(
            choose|j: int|
                0 <= j < texts.len() && malformed(#[trigger] texts[j]) && forall|k: int|
                    0 <= k < j ==> !malformed(#[trigger] texts[k]),
        )
    } else {
        None
    }
}

/// A malformed text with none before it is the first.
pub proof fn lemma_first_malformed_found(texts: Seq<Seq<char>>, j: int)
    requires
        0 <= j < texts.len(),
        malformed(texts[j]),
        forall|k: int| 0 <= k < j ==> !malformed(#[trigger] texts[k]),
    ensures
        first_malformed(texts) == Some(j),
{
    reveal(first_malformed);
    let found = choose|i: int|
        0 <= i < texts.len() && malformed(#[trigger] texts[i]) && forall|k: int|
            0 <= k < i ==> !malformed(#[trigger] texts[k]);
    if found < j {
        assert(!malformed(texts[found]));
    }
    if j < found {
        assert(!malformed(texts[j]));
    }
}

/// Where no text is malformed, there is no first one.
pub proof fn lemma_first_malformed_none(texts: Seq<Seq<char>>)
    requires
        forall|k: int| 0 <= k < texts.len() ==> !malformed(#[trigger] texts[k]),
    ensures
        first_malformed(texts) is None,
{
    reveal(first_malformed);
}

/// The characters that key a symbol rule: those of the single table, then the first
/// characters of the pairs.
pub open spec fn symbol_keys(single: Seq<SingleSymbol>, either: Seq<EitherSymbol>) -> Seq<char> {
    single.map_values(|rule: SingleSymbol| rule.key) + either.map_values(
        |rule: EitherSymbol| rule.first,
    )
}

/// What each of `rules` stands for.
pub open spec fn suffix_views(rules: Seq<NumericSuffix>) -> Seq<SuffixView> {
    rules.map_values(|rule: NumericSuffix| rule@)
}

/// The texts of the suffixes.
pub open spec fn suffix_texts(suffixes: Seq<SuffixView>) -> Seq<Seq<char>> {
    suffixes.map_values(|rule: SuffixView| rule.suffix)
}

/// The first thing wrong with the tables, if anything is: a character that keys two
/// symbol rules, else a malformed suffix, else a suffix given twice.
pub open spec fn config_fault(
    single: Seq<SingleSymbol>,
    either: Seq<EitherSymbol>,
    suffixes: Seq<SuffixView>,
) -> Option<ConfigError> {
    let keys = symbol_keys(single, either);
    let texts = suffix_texts(suffixes);
    if let Some(j) = first_repeat(keys) {
        Some(ConfigError::DuplicateSymbol(keys[j]))
    } else if let Some(k) = first_malformed(texts) {
        Some(ConfigError::MalformedSuffix(k as usize))
    } else if let Some(k) = first_repeat(texts) {
        Some(ConfigError::DuplicateSuffix(k as usize))
    } else {
        None
    }
}

/// The first repeat is a repeat and the first of them; where there is none, no item
/// occurs twice.
pub proof fn lemma_first_repeat<T>(items: Seq<T>)
    ensures
        match first_repeat(items) {
            Some(j) => {
                &&& 0 <= j < items.len()
                &&& repeats_at(items, j)
                &&& forall|k: int| 0 <= k < j ==> !#[trigger] repeats_at(items, k)
            },
            None => items.no_duplicates(),
        },
{
    reveal(first_repeat);
    if first_repeat(items) is None {
        assert forall|i: int, j: int|
            0 <= i < items.len() && 0 <= j < items.len() && i != j implies items[i]
            != items[j] by {
            if i < j {
                assert(!repeats_at(items, j));
            } else {
                assert(!repeats_at(items, i));
            }
        }
    } else {
        assert(exists|j: int| 0 <= j < items.len() && #[trigger] repeats_at(items, j));
        let witness = choose|j: int| 0 <= j < items.len() && #[trigger] repeats_at(items, j);
        lemma_least_repeat(items, witness);
    }
}

/// Where an item repeats at `j`, there is a least index at which an item repeats.
proof fn lemma_least_repeat<T>(items: Seq<T>, j: int)
    requires
        0 <= j < items.len(),
        repeats_at(items, j),
    ensures
        exists|i: int|
            0 <= i < items.len() && #[trigger] repeats_at(items, i) && forall|k: int|
                0 <= k < i ==> !#[trigger] repeats_at(items, k),
    decreases j,
{
    if exists|k: int| 0 <= k < j && #[trigger] repeats_at(items, k) {
        let k = choose|k: int| 0 <= k < j && #[trigger] repeats_at(items, k);
        lemma_least_repeat(items, k);
    }
}

/// The first malformed text is malformed and the first of them; where there is none,
/// no text is malformed.
pub proof fn lemma_first_malformed(texts: Seq<Seq<char>>)
    ensures
        match first_malformed(texts) {
            Some(j) => {
                &&& 0 <= j < texts.len()
                &&& malformed(texts[j])
                &&& forall|k: int| 0 <= k < j ==> !malformed(#[trigger] texts[k])
            },
            None => forall|k: int| 0 <= k < texts.len() ==> !malformed(#[trigger] texts[k]),
        },
{
    reveal(first_malformed);
    if first_malformed(texts) is Some {
        let witness = choose|j: int| 0 <= j < texts.len() && malformed(#[trigger] texts[j]);
        lemma_least_malformed(texts, witness);
    }
}

/// Where the text at `j` is malformed, there is a least index of a malformed text.
proof fn lemma_least_malformed(texts: Seq<Seq<char>>, j: int)
    requires
        0 <= j < texts.len(),
        malformed(texts[j]),
    ensures
        exists|i: int|
            0 <= i < texts.len() && malformed(#[trigger] texts[i]) && forall|k: int|
                0 <= k < i ==> !malformed(#[trigger] texts[k]),
    decreases j,
{
    if exists|k: int| 0 <= k < j && malformed(#[trigger] texts[k]) {
        let k = choose|k: int| 0 <= k < j && malformed(#[trigger] texts[k]);
        lemma_least_malformed(texts, k);
    }
}

/// Tables are without fault exactly when no character keys two symbol rules, no
/// suffix is empty or starts with a digit, and no suffix is given twice.
pub proof fn lemma_config_fault(
    single: Seq<SingleSymbol>,
    either: Seq<EitherSymbol>,
    suffixes: Seq<SuffixView>,
)
    ensures
        config_fault(single, either, suffixes) is None <==> {
            &&& symbol_keys(single, either).no_duplicates()
            &&& forall|k: int|
                0 <= k < suffixes.len() ==> !malformed((#[trigger] suffixes[k]).suffix)
            &&& suffix_texts(suffixes).no_duplicates()
        },
{
    let keys = symbol_keys(single, either);
    let texts = suffix_texts(suffixes);
    lemma_first_repeat(keys);
    lemma_first_malformed(texts);
    lemma_first_repeat(texts);
    assert forall|k: int| 0 <= k < suffixes.len() implies texts[k] == suffixes[k].suffix by {}
    if let Some(j) = first_repeat(keys) {
        let i = choose|i: int| 0 <= i < j && keys[i] == keys[j];
        assert(keys[i] == keys[j]);
    } else if let Some(k) = first_malformed(texts) {
        assert(malformed(suffixes[k].suffix));
    } else if let Some(j) = first_repeat(texts) {
        let i = choose|i: int| 0 <= i < j && texts[i] == texts[j];
        assert(texts[i] == texts[j]);
    } else {
        assert forall|k: int| 0 <= k < suffixes.len() implies !malformed(
            (#[trigger] suffixes[k]).suffix,
        ) by {
            assert(!malformed(texts[k]));
        }
    }
}

/// Whether two slices hold the same characters.
pub fn same_chars(a: &[char], b: &[char]) -> (same: bool)
    ensures
        same == (a@ == b@),
{
    if a.len() != b.len() {
        return false;
    }
    let mut i: usize = 0;
    while i < a.len()
        invariant
            a.len() == b.len(),
            i <= a.len(),
            forall|k: int| 0 <= k < i ==> a@[k] == b@[k],
        decreases a.len() - i,
    {
        if a[i] != b[i] {
            return false;
        }
        i = i + 1;
    }
    assert(a@ =~= b@);
    true
}

/// The least index whose character occurs earlier in `keys`.
pub fn find_repeated_key(keys: &Vec<char>) -> (found: Option<usize>)
    ensures
        found matches Some(j) ==> j < keys.len() && first_repeat(keys@) == Some(j as int),
        found is None ==> first_repeat(keys@) is None,
{
    let mut j: usize = 0;
    while j < keys.len()
        invariant
            j <= keys.len(),
            forall|k: int| 0 <= k < j ==> !#[trigger] repeats_at(keys@, k),
        decreases keys.len() - j,
    {
        let mut i: usize = 0;
        while i < j
            invariant
                i <= j < keys.len(),
                forall|k: int| 0 <= k < j ==> !#[trigger] repeats_at(keys@, k),
                forall|k: int| 0 <= k < i ==> keys@[k] != keys@[j as int],
            decreases j - i,
        {
            if keys[i] == keys[j] {
                proof {
                    assert(repeats_at(keys@, j as int));
                    lemma_first_repeat_found(keys@, j as int);
                }
                return Some(j);
            }
            i = i + 1;
        }
        assert(!repeats_at(keys@, j as int));
        j = j + 1;
    }
    proof {
        lemma_first_repeat_none(keys@);
    }
    None
}

/// The least index whose suffix occurs earlier in `rules`.
pub fn find_repeated_suffix(rules: &Vec<NumericSuffix>) -> (found: Option<usize>)
    ensures
        found matches Some(j) ==> j < rules.len() && first_repeat(
            suffix_texts(suffix_views(rules@)),
        ) == Some(j as int),
        found is None ==> first_repeat(suffix_texts(suffix_views(rules@))) is None,
{
    let ghost texts = suffix_texts(suffix_views(rules@));
    assert(texts.len() == rules.len());
    assert(forall|k: int| 0 <= k < rules.len() ==> #[trigger] texts[k] == rules@[k].suffix@);
    let mut j: usize = 0;
    while j < rules.len()
        invariant
            j <= rules.len(),
            texts == suffix_texts(suffix_views(rules@)),
            texts.len() == rules.len(),
            forall|k: int| 0 <= k < rules.len() ==> #[trigger] texts[k] == rules@[k].suffix@,
            forall|k: int| 0 <= k < j ==> !#[trigger] repeats_at(texts, k),
        decreases rules.len() - j,
    {
        let mut i: usize = 0;
        while i < j
            invariant
                i <= j < rules.len(),
                texts == suffix_texts(suffix_views(rules@)),
                texts.len() == rules.len(),
                forall|k: int| 0 <= k < rules.len() ==> #[trigger] texts[k] == rules@[k].suffix@,
                forall|k: int| 0 <= k < j ==> !#[trigger] repeats_at(texts, k),
                forall|k: int| 0 <= k < i ==> texts[k] != texts[j as int],
            decreases j - i,
        {
            if same_chars(rules[i].suffix.as_slice(), rules[j].suffix.as_slice()) {
                proof {
                    assert(texts[i as int] == texts[j as int]);
                    assert(repeats_at(texts, j as int));
                    lemma_first_repeat_found(texts, j as int);
                }
                return Some(j);
            }
            i = i + 1;
        }
        assert(!repeats_at(texts, j as int));
        j = j + 1;
    }
    proof {
        lemma_first_repeat_none(texts);
    }
    None
}

/// The least index whose suffix is malformed.
pub fn find_malformed_suffix(rules: &Vec<NumericSuffix>) -> (found: Option<usize>)
    ensures
        found matches Some(j) ==> j < rules.len() && first_malformed(
            suffix_texts(suffix_views(rules@)),
        ) == Some(j as int),
        found is None ==> first_malformed(suffix_texts(suffix_views(rules@))) is None,
{
    let ghost texts = suffix_texts(suffix_views(rules@));
    assert(texts.len() == rules.len());
    assert(forall|k: int| 0 <= k < rules.len() ==> #[trigger] texts[k] == rules@[k].suffix@);
    let mut j: usize = 0;
    while j < rules.len()
        invariant
            j <= rules.len(),
            texts == suffix_texts(suffix_views(rules@)),
            texts.len() == rules.len(),
            forall|k: int| 0 <= k < rules.len() ==> #[trigger] texts[k] == rules@[k].suffix@,
            forall|k: int| 0 <= k < j ==> !malformed(#[trigger] texts[k]),
        decreases rules.len() - j,
    {
        let suffix = &rules[j].suffix;
        if suffix.len() == 0 || decimal_digit(suffix[0]) {
            proof {
                assert(malformed(texts[j as int]));
                lemma_first_malformed_found(texts, j as int);
            }
            return Some(j);
        }
        assert(!malformed(texts[j as int]));
        j = j + 1;
    }
    proof {
        lemma_first_malformed_none(texts);
    }
    None
}

/// The symbol that the first rule keyed by `c` gives.
pub open spec fn single_lookup(rules: Seq<SingleSymbol>, c: char) -> Option<Symbol>
    decreases rules.len(),
{
    if rules.len() == 0 {
        None
    } else if rules[0].key == c {
        Some(rules[0].symbol)
    } else {
        single_lookup(rules.drop_first(), c)
    }
}

/// The first pair whose first character is `c`.
pub open spec fn either_lookup(rules: Seq<EitherSymbol>, c: char) -> Option<EitherSymbol>
    decreases rules.len(),
{
    if rules.len() == 0 {
        None
    } else if rules[0].first == c {
        Some(rules[0])
    } else {
        either_lookup(rules.drop_first(), c)
    }
}

/// The first rule whose suffix `text` starts with.
pub open spec fn suffix_lookup(rules: Seq<SuffixView>, text: Seq<char>) -> Option<SuffixView>
    decreases rules.len(),
{
    if rules.len() == 0 {
        None
    } else if rules[0].suffix.is_prefix_of(text) {
        Some(rules[0])
    } else {
        suffix_lookup(rules.drop_first(), text)
    }
}

/// The rule found is one of the rules, and `text` starts with its suffix; where none
/// is found, `text` starts with no suffix.
pub proof fn lemma_suffix_lookup(rules: Seq<SuffixView>, text: Seq<char>)
    ensures
        match suffix_lookup(rules, text) {
            Some(rule) => rules.contains(rule) && rule.suffix.is_prefix_of(text),
            None => forall|i: int|
                0 <= i < rules.len() ==> !(#[trigger] rules[i]).suffix.is_prefix_of(text),
        },
    decreases rules.len(),
{
    if rules.len() > 0 {
        if rules[0].suffix.is_prefix_of(text) {
            assert(rules.contains(rules[0]));
        } else {
            let tail = rules.drop_first();
            lemma_suffix_lookup(tail, text);
            match suffix_lookup(tail, text) {
                Some(rule) => {
                    let i = choose|i: int| 0 <= i < tail.len() && tail[i] == rule;
                    assert(rules[i + 1] == rule);
                },
                None => {
                    assert forall|i: int| 0 <= i < rules.len() implies !(
                    #[trigger] rules[i]).suffix.is_prefix_of(text) by {
                        if i > 0 {
                            assert(rules[i] == tail[i - 1]);
                        }
                    }
                },
            }
        }
    }
}

/// The texts of the words.
pub open spec fn word_texts(words: Seq<&str>) -> Seq<Seq<char>> {
    words.map_values(|word: &str| word@)
}

/// The texts behind the handles.
pub open spec fn handle_texts(handles: Seq<Intern<String>>) -> Seq<Seq<char>> {
    handles.map_values(|handle: Intern<String>| interned_text(handle))
}

/// The characters that key a symbol rule.
fn collect_keys(single: &Vec<SingleSymbol>, either: &Vec<EitherSymbol>) -> (keys: Vec<char>)
    ensures
        keys@ == symbol_keys(single@, either@),
{
    let mut keys: Vec<char> = Vec::new();
    let mut i: usize = 0;
    while i < single.len()
        invariant
            i <= single.len(),
            keys@ == single@.take(i as int).map_values(|rule: SingleSymbol| rule.key),
        decreases single.len() - i,
    {
        keys.push(single[i].key);
        proof {
            assert(single@.take(i + 1).map_values(|rule: SingleSymbol| rule.key)
                =~= single@.take(i as int).map_values(|rule: SingleSymbol| rule.key).push(
                single@[i as int].key,
            ));
        }
        i = i + 1;
    }
    assert(single@.take(single.len() as int) =~= single@);
    let ghost single_keys = keys@;
    let mut i: usize = 0;
    while i < either.len()
        invariant
            i <= either.len(),
            keys@ == single_keys + either@.take(i as int).map_values(
                |rule: EitherSymbol| rule.first,
            ),
        decreases either.len() - i,
    {
        keys.push(either[i].first);
        proof {
            assert(either@.take(i + 1).map_values(|rule: EitherSymbol| rule.first)
                =~= either@.take(i as int).map_values(|rule: EitherSymbol| rule.first).push(
                either@[i as int].first,
            ));
        }
        i = i + 1;
    }
    assert(either@.take(either.len() as int) =~= either@);
    keys
}

/// The first thing wrong with the tables, if anything is.
pub fn find_fault(
    single: &Vec<SingleSymbol>,
    either: &Vec<EitherSymbol>,
    suffixes: &Vec<NumericSuffix>,
) -> (fault: Option<ConfigError>)
    ensures
        fault == config_fault(single@, either@, suffix_views(suffixes@)),
{
    let keys = collect_keys(single, either);
    if let Some(j) = find_repeated_key(&keys) {
        return Some(ConfigError::DuplicateSymbol(keys[j]));
    }
    if let Some(k) = find_malformed_suffix(suffixes) {
        return Some(ConfigError::MalformedSuffix(k));
    }
    if let Some(k) = find_repeated_suffix(suffixes) {
        return Some(ConfigError::DuplicateSuffix(k));
    }
    None
}

/// Interns each of `words`.
fn intern_words(words: &[&str]) -> (handles: Vec<Intern<String>>)
    ensures
        handle_texts(handles@) == word_texts(words@),
{
    let mut handles: Vec<Intern<String>> = Vec::new();
    let mut i: usize = 0;
    while i < words.len()
        invariant
            i <= words.len(),
            handle_texts(handles@) == word_texts(words@.take(i as int)),
        decreases words.len() - i,
    {
        let handle = intern_string(String::from_str(words[i]));
        proof {
            assert(handle_texts(handles@.push(handle)) =~= handle_texts(handles@).push(
                interned_text(handle),
            ));
            assert(word_texts(words@.take(i + 1)) =~= word_texts(words@.take(i as int)).push(
                words@[i as int]@,
            ));
        }
        handles.push(handle);
        i = i + 1;
    }
    assert(words@.take(words.len() as int) =~= words@);
    handles
}

/// The rules that a scanner consults. It is checked when it is built, and never
/// changes afterwards.
#[derive(Debug, Clone)]
pub struct LexerConfig {
    single: Vec<SingleSymbol>,
    either: Vec<EitherSymbol>,
    keywords: Vec<Intern<String>>,
    suffixes: Vec<NumericSuffix>,
    allow_whitespace: bool,
    quote: char,
    strict_suffixes: bool,
}

/// What a [`LexerConfig`] stands for.
pub struct ConfigView {
    /// The one-character symbols, in the order they are tried.
    pub single: Seq<SingleSymbol>,
    /// The two-character symbols, in the order they are tried.
    pub either: Seq<EitherSymbol>,
    /// The reserved words.
    pub keywords: Seq<Seq<char>>,
    /// The suffixes of numeric literals, in the order they are tried.
    pub suffixes: Seq<SuffixView>,
    /// Whether blanks are kept in the output.
    pub allow_whitespace: bool,
    /// The character that opens and closes a string.
    pub quote: char,
    /// Whether a word that follows a number and is no suffix is an error. Where it
    /// is not, the word is left for the rules that come after.
    pub strict_suffixes: bool,
}

impl ConfigView {
    /// No character keys two symbol rules; every suffix has a first character that
    /// is not a digit, and is given once.
    pub open spec fn valid(self) -> bool {
        config_fault(self.single, self.either, self.suffixes) is None
    }
}

impl View for LexerConfig {
    type V = ConfigView;

    closed spec fn view(&self) -> ConfigView {
        ConfigView {
            single: self.single@,
            either: self.either@,
            keywords: handle_texts(self.keywords@),
            suffixes: suffix_views(self.suffixes@),
            allow_whitespace: self.allow_whitespace,
            quote: self.quote,
            strict_suffixes: self.strict_suffixes,
        }
    }
}

impl LexerConfig {
    /// Assembles a configuration, or says what is wrong with the tables. A word that
    /// follows a number and is no suffix is left for the rules that come after,
    /// unless [`LexerConfig::strict_suffixes`] says otherwise.
    pub fn new(
        single: Vec<SingleSymbol>,
        either: Vec<EitherSymbol>,
        keywords: &[&str],
        suffixes: Vec<NumericSuffix>,
        allow_whitespace: bool,
        quote: char,
    ) -> (built: Result<LexerConfig, ConfigError>)
        ensures
            match config_fault(single@, either@, suffix_views(suffixes@)) {
                Some(fault) => built == Err::<LexerConfig, ConfigError>(fault),
                None => {
                    &&& built matches Ok(config)
                    &&& config@.valid()
                    &&& config@ == (ConfigView {
                        single: single@,
                        either: either@,
                        keywords: word_texts(keywords@),
                        suffixes: suffix_views(suffixes@),
                        allow_whitespace,
                        quote,
                        strict_suffixes: false,
                    })
                },
            },
    {
        match find_fault(&single, &either, &suffixes) {
            Some(fault) => Err(fault),
            None => {
                let keywords = intern_words(keywords);
                Ok(
                    LexerConfig {
                        single,
                        either,
                        keywords,
                        suffixes,
                        allow_whitespace,
                        quote,
                        strict_suffixes: false,
                    },
                )
            },
        }
    }

    /// The same configuration, with the choice of what a word that follows a number
    /// and is no suffix comes to: an error where `strict` holds, a token of its own
    /// otherwise.
    pub fn strict_suffixes(self, strict: bool) -> (config: LexerConfig)
        ensures
            config@ == (ConfigView { strict_suffixes: strict, ..self@ }),
    {
        LexerConfig {
            single: self.single,
            either: self.either,
            keywords: self.keywords,
            suffixes: self.suffixes,
            allow_whitespace: self.allow_whitespace,
            quote: self.quote,
            strict_suffixes: strict,
        }
    }

    /// The symbol that `c` stands for by itself.
    pub fn single_symbol(&self, c: char) -> (found: Option<Symbol>)
        ensures
            found == single_lookup(self@.single, c),
    {
        let mut i: usize = 0;
        assert(self.single@.skip(0) =~= self.single@);
        while i < self.single.len()
            invariant
                i <= self.single.len(),
                single_lookup(self.single@, c) == single_lookup(self.single@.skip(i as int), c),
            decreases self.single.len() - i,
        {
            if self.single[i].key == c {
                return Some(self.single[i].symbol);
            }
            proof {
                assert(self.single@.skip(i as int).drop_first() =~= self.single@.skip(i + 1));
            }
            i = i + 1;
        }
        None
    }

    /// The pair that `c` opens.
    pub fn either_symbol(&self, c: char) -> (found: Option<EitherSymbol>)
        ensures
            found == either_lookup(self@.either, c),
    {
        let mut i: usize = 0;
        assert(self.either@.skip(0) =~= self.either@);
        while i < self.either.len()
            invariant
                i <= self.either.len(),
                either_lookup(self.either@, c) == either_lookup(self.either@.skip(i as int), c),
            decreases self.either.len() - i,
        {
            if self.either[i].first == c {
                return Some(self.either[i]);
            }
            proof {
                assert(self.either@.skip(i as int).drop_first() =~= self.either@.skip(i + 1));
            }
            i = i + 1;
        }
        None
    }

    /// Whether the text behind `word` is a reserved word.
    pub fn is_keyword(&self, word: Intern<String>) -> (reserved: bool)
        ensures
            reserved == self@.keywords.contains(interned_text(word)),
    {
        let ghost texts = handle_texts(self.keywords@);
        let mut i: usize = 0;
        while i < self.keywords.len()
            invariant
                i <= self.keywords.len(),
                texts == handle_texts(self.keywords@),
                forall|k: int| 0 <= k < i ==> texts[k] != interned_text(word),
            decreases self.keywords.len() - i,
        {
            if same_handle(self.keywords[i], word) {
                assert(texts[i as int] == interned_text(word));
                return true;
            }
            i = i + 1;
        }
        false
    }

    /// The suffixes of numeric literals, in the order they are tried.
    pub fn suffixes(&self) -> (rules: &Vec<NumericSuffix>)
        ensures
            suffix_views(rules@) == self@.suffixes,
    {
        &self.suffixes
    }

    /// Whether blanks are kept in the output.
    pub fn allow_whitespace(&self) -> (allow: bool)
        ensures
            allow == self@.allow_whitespace,
    {
        self.allow_whitespace
    }

    /// Whether a word that follows a number and is no suffix is an error.
    pub fn has_strict_suffixes(&self) -> (strict: bool)
        ensures
            strict == self@.strict_suffixes,
    {
        self.strict_suffixes
    }

    /// The character that opens and closes a string.
    pub fn quote(&self) -> (quote: char)
        ensures
            quote == self@.quote,
    {
        self.quote
    }
}

} // verus!
