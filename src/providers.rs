//! Filters that a remote source applies to repository names.
use crate::error::WorkspaceError;
use crate::repository::string_views;
use crate::text::concat;
use vstd::prelude::*;

verus! {

#[verifier::external_type_specification]
#[verifier::external_body]
pub struct ExRegexSet(regex::RegexSet);

#[verifier::external_type_specification]
#[verifier::external_body]
pub struct ExRegexError(regex::Error);

/// Whether `regex::RegexSet::new` accepts these patterns, which depends on
/// the patterns alone.
pub uninterp spec fn regex_set_builds(patterns: Seq<Seq<char>>) -> bool;

/// Relies on `regex::RegexSet::new`: a set matching any of the patterns, or
/// an error for a pattern it cannot compile.
#[verifier::external_body]
fn compile_set(patterns: &Vec<String>) -> (r: Result<regex::RegexSet, regex::Error>)
    ensures
        r is Ok <==> regex_set_builds(string_views(patterns@)),
{
    regex::RegexSet::new(patterns)
}

/// Relies on `regex::RegexSet::empty`: a set that matches nothing.
#[verifier::external_body]
fn empty_set() -> (r: regex::RegexSet) {
    regex::RegexSet::empty()
}

/// Relies on the `Display` of `regex::Error`: its message.
#[verifier::external_body]
fn regex_error_message(e: &regex::Error) -> (r: String) {
    e.to_string()
}

/// The patterns that select repositories: those given, or, when none is
/// given, one that matches every name.
pub open spec fn include_patterns_of(items: Seq<Seq<char>>) -> Seq<Seq<char>> {
    if items.len() == 0 {
        seq![".*"@]
    } else {
        items
    }
}

pub fn include_patterns(items: &Vec<String>) -> (r: Vec<String>)
    ensures
        string_views(r@) == include_patterns_of(string_views(items@)),
{
    if items.len() == 0 {
        let r = vec![".*".to_string()];
        proof {
            assert(string_views(r@) =~= seq![".*"@]);
        }
        r
    } else {
        let r = items.clone();
        proof {
            assert(string_views(r@) =~= string_views(items@));
        }
        r
    }
}

/// The set of patterns that a repository name must match to be kept; with
/// no pattern given, every name matches.
pub fn create_include_regex_set(items: &Vec<String>) -> (r: Result<regex::RegexSet, WorkspaceError>)
    ensures
        r is Ok <==> regex_set_builds(include_patterns_of(string_views(items@))),
        r is Err ==> r->Err_0 is Config,
{
    let patterns = include_patterns(items);
    match compile_set(&patterns) {
        Ok(set) => Ok(set),
        Err(e) => Err(
            WorkspaceError::Config(
                concat(
                    "Error parsing include regular expressions: ",
                    regex_error_message(&e).as_str(),
                ),
            ),
        ),
    }
}

/// The set of patterns that excludes a repository name; with no pattern
/// given, no name is excluded.
pub fn create_exclude_regex_set(items: &Vec<String>) -> (r: Result<regex::RegexSet, WorkspaceError>)
    ensures
        items@.len() == 0 ==> r is Ok,
        items@.len() > 0 ==> (r is Ok <==> regex_set_builds(string_views(items@))),
        r is Err ==> r->Err_0 is Config,
{
    if items.len() == 0 {
        return Ok(empty_set());
    }
    match compile_set(items) {
        Ok(set) => Ok(set),
        Err(e) => Err(
            WorkspaceError::Config(
                concat(
                    "Error parsing exclude regular expressions: ",
                    regex_error_message(&e).as_str(),
                ),
            ),
        ),
    }
}

} // verus!
