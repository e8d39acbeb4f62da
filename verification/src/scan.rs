//! Recovering the next rollover index from the names of the files already
//! in the log directory.
//!
//! Every file name is searched for its first run of digits (the pattern
//! `\d+`, through the `regex` crate); a run that reads as an index counts.
//! Rolling continues after the largest index found.

use vstd::prelude::*;
use crate::naming::parsed_index;

verus! {

#[verifier::external_type_specification]
#[verifier::external_body]
pub struct ExRegex(regex::Regex);

#[verifier::external_type_specification]
#[verifier::external_body]
pub struct ExRegexError(regex::Error);

#[verifier::external_type_specification]
#[verifier::external_body]
pub struct ExIoError(std::io::Error);

/// Errors when starting a rolling file appender.
#[derive(Debug)]
pub enum RollingFileError {
    IOError(std::io::Error),
    RegexError(regex::Error),
}

/// Whether `regex::Regex::new` compiles `pattern` (with the crate's default
/// configuration).
pub uninterp spec fn regex_accepts(pattern: Seq<char>) -> bool;

/// The text of the leftmost-first match of the regular expression `pattern`
/// in `haystack`, as `regex::Regex::captures` reports it in group 0; `None`
/// when there is no match.
pub uninterp spec fn regex_first_match(pattern: Seq<char>, haystack: Seq<char>) -> Option<Seq<char>>;

/// A compiled regular expression together with the pattern it was compiled
/// from.  Both fields are set together, by `compile_regex` only, and never
/// changed afterwards.
pub struct CompiledRegex {
    pattern: String,
    regex: regex::Regex,
}

impl View for CompiledRegex {
    type V = Seq<char>;

    /// The pattern the expression was compiled from.
    closed spec fn view(&self) -> Seq<char> {
        self.pattern@
    }
}

/// Compiles `pattern` with `regex::Regex::new`.  Trusted: the call succeeds
/// exactly when the crate accepts the pattern, and the compiled expression
/// remembers the pattern it came from.
#[verifier::external_body]
fn compile_regex(pattern: &str) -> (r: Result<CompiledRegex, regex::Error>)
    ensures
        r is Ok <==> regex_accepts(pattern@),
        r matches Ok(c) ==> c@ == pattern@,
{
    match regex::Regex::new(pattern) {
        Ok(regex) => Ok(CompiledRegex { pattern: pattern.to_string(), regex }),
        Err(e) => Err(e),
    }
}

/// The text matched by `regex::Regex::captures` (group 0) in `haystack`.
/// Trusted: the result is the crate's leftmost-first match of the pattern.
#[verifier::external_body]
fn first_match(re: &CompiledRegex, haystack: &str) -> (m: Option<String>)
    ensures
        match m {
            Some(text) => regex_first_match(re@, haystack@) == Some(text@),
            None => regex_first_match(re@, haystack@) is None,
        },
{
    re.regex.captures(haystack).map(|caps| caps[0].to_string())
}

/// The pattern that finds the index in a file name: a run of digits.
pub open spec fn index_pattern() -> Seq<char> {
    seq!['\\', 'd', '+']
}

fn index_pattern_text() -> (p: &'static str)
    ensures
        p@ == index_pattern(),
{
    proof {
        reveal_strlit("\\d+");
    }
    "\\d+"
}

/// The index that the file name `name` carries, if any: its first match of
/// `pattern`, read as an index.
pub open spec fn index_in_name(pattern: Seq<char>, name: Seq<char>) -> Option<usize> {
    match regex_first_match(pattern, name) {
        Some(text) => parsed_index(text),
        None => None,
    }
}

/// The indices carried by `names`, in order, skipping names that carry none.
pub open spec fn indices_in_names(pattern: Seq<char>, names: Seq<Seq<char>>) -> Seq<usize>
    decreases names.len(),
{
    if names.len() == 0 {
        Seq::empty()
    } else {
        let earlier = indices_in_names(pattern, names.drop_last());
        match index_in_name(pattern, names.last()) {
            Some(i) => earlier.push(i),
            None => earlier,
        }
    }
}

/// Every name whose first match of `pattern` reads as an index contributes
/// that index, whatever the match: no index carried by a name is dropped.
pub proof fn lemma_every_carried_index_found(pattern: Seq<char>, names: Seq<Seq<char>>, k: int, text: Seq<char>, index: usize)
    requires
        0 <= k < names.len(),
        regex_first_match(pattern, names[k]) == Some(text),
        parsed_index(text) == Some(index),
    ensures
        indices_in_names(pattern, names).contains(index),
    decreases names.len(),
{
    let p = names.drop_last();
    let found = indices_in_names(pattern, names);
    if k == names.len() - 1 {
        assert(found.last() == index);
        assert(found[found.len() - 1] == index);
    } else {
        assert(p[k] == names[k]);
        lemma_every_carried_index_found(pattern, p, k, text, index);
        let earlier = indices_in_names(pattern, p);
        let a = choose|a: int| 0 <= a < earlier.len() && earlier[a] == index;
        assert(found[a] == index);
    }
}

/// Every index found is carried by some name: it is what the first match of
/// `pattern` in that name reads as.
pub proof fn lemma_every_found_index_carried(pattern: Seq<char>, names: Seq<Seq<char>>, index: usize)
    requires
        indices_in_names(pattern, names).contains(index),
    ensures
        exists|k: int|
            0 <= k < names.len() && (#[trigger] regex_first_match(pattern, names[k])) is Some
                && parsed_index(regex_first_match(pattern, names[k])->0) == Some(index),
    decreases names.len(),
{
    let p = names.drop_last();
    let found = indices_in_names(pattern, names);
    let earlier = indices_in_names(pattern, p);
    let a = choose|a: int| 0 <= a < found.len() && found[a] == index;
    let last = names[names.len() - 1];
    if a < earlier.len() {
        assert(earlier[a] == index);
        lemma_every_found_index_carried(pattern, p, index);
        let k = choose|k: int|
            0 <= k < p.len() && (#[trigger] regex_first_match(pattern, p[k])) is Some
                && parsed_index(regex_first_match(pattern, p[k])->0) == Some(index);
        assert(names[k] == p[k]);
        assert(regex_first_match(pattern, names[k]) is Some);
    } else {
        assert(names[names.len() - 1] == last);
        assert(regex_first_match(pattern, names[names.len() - 1]) is Some);
    }
}

/// The views of a list of names.
pub open spec fn name_views(names: Seq<String>) -> Seq<Seq<char>> {
    names.map_values(|s: String| s@)
}

/// Collects the indices carried by the names of the files in the log
/// directory.  Fails only if the index pattern does not compile.
pub fn collect_indices(file_names: &Vec<String>) -> (r: Result<Vec<usize>, RollingFileError>)
    ensures
        r is Ok <==> regex_accepts(index_pattern()),
        r matches Ok(v) ==> v@ == indices_in_names(index_pattern(), name_views(file_names@)),
        r matches Err(e) ==> e is RegexError,
{
    let re = match compile_regex(index_pattern_text()) {
        Ok(re) => re,
        Err(e) => {
            return Err(RollingFileError::RegexError(e));
        },
    };
    let ghost names = name_views(file_names@);
    let mut indices: Vec<usize> = Vec::new();
    let n: usize = file_names.len();
    for i in 0..n
        invariant
            n == file_names@.len(),
            names == name_views(file_names@),
            re@ == index_pattern(),
            indices@ == indices_in_names(index_pattern(), names.take(i as int)),
    {
        proof {
            assert(names.take(i + 1).drop_last() =~= names.take(i as int));
            assert(names.take(i + 1).last() == file_names@[i as int]@);
        }
        if let Some(text) = first_match(&re, file_names[i].as_str()) {
            if let Some(index) = crate::naming::parse_index(text.as_str()) {
                indices.push(index);
            }
        }
    }
    proof {
        assert(names.take(n as int) =~= names);
    }
    Ok(indices)
}

/// The index the next rollover uses, given the indices already present: one
/// past the largest, or 1 when there are none.
pub fn next_file_index(indices: &Vec<usize>) -> (next: usize)
    requires
        forall|i: int| 0 <= i < indices@.len() ==> indices@[i] < usize::MAX,
    ensures
        indices@.len() == 0 ==> next == 1,
        indices@.len() > 0 ==> exists|i: int| 0 <= i < indices@.len() && next == indices@[i] + 1,
        forall|i: int| 0 <= i < indices@.len() ==> indices@[i] < next,
{
    if indices.len() == 0 {
        return 1;
    }
    let mut largest: usize = indices[0];
    let mut k: usize = 0;
    for i in 1..indices.len()
        invariant
            0 <= k < indices@.len(),
            largest == indices@[k as int],
            forall|j: int| 0 <= j < i ==> indices@[j] <= largest,
    {
        if indices[i] > largest {
            largest = indices[i];
            k = i;
        }
    }
    largest + 1
}

} // verus!
