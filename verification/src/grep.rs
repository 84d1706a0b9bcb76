//! A small line searcher: given a query and the text of a file, it returns
//! the lines that contain the query, either exactly or ignoring case.

use vstd::prelude::*;

use crate::text::{
    is_prefix, lines_of, lower_of, seq_contains, spec_lines, str_contains, str_starts_with,
    to_lowercase_of,
};

verus! {

/// The lines among `ls` that contain `q`, in order.
pub open spec fn matching_lines_of(ls: Seq<Seq<char>>, q: Seq<char>) -> Seq<Seq<char>>
    decreases ls.len(),
{
    if ls.len() == 0 {
        Seq::empty()
    } else {
        let rest = matching_lines_of(ls.drop_last(), q);
        if seq_contains(ls.last(), q) {
            rest.push(ls.last())
        } else {
            rest
        }
    }
}

/// The lines of `contents` that contain `q`, in order.
pub open spec fn matching_lines(contents: Seq<char>, q: Seq<char>) -> Seq<Seq<char>> {
    matching_lines_of(spec_lines(contents), q)
}

/// The lines among `ls` whose lowercase form contains the lowercase form of
/// `q`, in order.
pub open spec fn ci_matching_lines_of(ls: Seq<Seq<char>>, q: Seq<char>) -> Seq<Seq<char>>
    decreases ls.len(),
{
    if ls.len() == 0 {
        Seq::empty()
    } else {
        let rest = ci_matching_lines_of(ls.drop_last(), q);
        if seq_contains(lower_of(ls.last()), lower_of(q)) {
            rest.push(ls.last())
        } else {
            rest
        }
    }
}

/// The lines of `contents` whose lowercase form contains the lowercase form
/// of `q`, in order.
pub open spec fn ci_matching_lines(contents: Seq<char>, q: Seq<char>) -> Seq<Seq<char>> {
    ci_matching_lines_of(spec_lines(contents), q)
}

/// Returns the lines of `contents` that contain `query`.
pub fn search<'a>(query: &str, contents: &'a str) -> (results: Vec<&'a str>)
    ensures
        results.deep_view() == matching_lines(contents@, query@),
{
    let lines = lines_of(contents);
    let mut results: Vec<&'a str> = Vec::new();
    let mut i: usize = 0;
    proof {
        assert(lines.deep_view().take(0) =~= Seq::<Seq<char>>::empty());
    }
    while i < lines.len()
        invariant
            i <= lines.len(),
            lines.deep_view() == spec_lines(contents@),
            results.deep_view() == matching_lines_of(lines.deep_view().take(i as int), query@),
        decreases lines.len() - i,
    {
        let ghost before = results.deep_view();
        let ghost prefix = lines.deep_view().take(i as int);
        let line = lines[i];
        proof {
            assert(lines.deep_view()[i as int] == lines@[i as int]@);
            assert(lines.deep_view().take(i + 1).drop_last() =~= prefix);
            assert(lines.deep_view().take(i + 1).last() == line@);
        }
        if str_contains(line, query) {
            results.push(line);
            proof {
                assert(results.deep_view() =~= before.push(line@));
            }
        }
        i += 1;
    }
    proof {
        assert(lines.deep_view().take(lines@.len() as int) =~= lines.deep_view());
    }
    results
}

/// Returns the lines of `contents` that contain `query` when both are
/// compared in lowercase.
pub fn search_case_insensitive<'a>(query: &str, contents: &'a str) -> (results: Vec<&'a str>)
    ensures
        results.deep_view() == ci_matching_lines(contents@, query@),
{
    let query_lower = to_lowercase_of(query);
    let lines = lines_of(contents);
    let mut results: Vec<&'a str> = Vec::new();
    let mut i: usize = 0;
    proof {
        assert(lines.deep_view().take(0) =~= Seq::<Seq<char>>::empty());
    }
    while i < lines.len()
        invariant
            i <= lines.len(),
            lines.deep_view() == spec_lines(contents@),
            query_lower@ == lower_of(query@),
            results.deep_view() == ci_matching_lines_of(lines.deep_view().take(i as int), query@),
        decreases lines.len() - i,
    {
        let ghost before = results.deep_view();
        let ghost prefix = lines.deep_view().take(i as int);
        let line = lines[i];
        proof {
            assert(lines.deep_view()[i as int] == lines@[i as int]@);
            assert(lines.deep_view().take(i + 1).drop_last() =~= prefix);
            assert(lines.deep_view().take(i + 1).last() == line@);
        }
        let line_lower = to_lowercase_of(line);
        if str_contains(line_lower.as_str(), query_lower.as_str()) {
            results.push(line);
            proof {
                assert(results.deep_view() =~= before.push(line@));
            }
        }
        i += 1;
    }
    proof {
        assert(lines.deep_view().take(lines@.len() as int) =~= lines.deep_view());
    }
    results
}

/// The settings of one search run: what to look for, where, and whether case
/// is ignored.
pub struct Config {
    pub query: String,
    pub file_path: String,
    pub ignore_case: bool,
}

impl Config {
    /// Builds the settings from the command-line words.  Case is ignored when
    /// the first word after the program name asks for it, or failing that
    /// when the caller's environment does (`ignore_case_env`); reading the
    /// environment itself is the caller's business.
    pub fn build(args: &[String], ignore_case_env: bool) -> (r: Result<Self, &'static str>)
        ensures
            args@.len() < 3 ==> (r matches Err(e) && e@ == "not enough arguments"@),
            args@.len() >= 3 ==> (r matches Ok(c) && c.ignore_case == (is_prefix("-i"@, args@[1]@)
                || is_prefix("--ignore-case"@, args@[1]@) || ignore_case_env)),
            args@.len() >= 4 ==> (r matches Ok(c) && c.query@ == args@[2]@ && c.file_path@ == args@[
                3]@),
            3 == args@.len() ==> (r matches Ok(c) && c.query@ == args@[1]@ && c.file_path@ == args@[
                2]@),
    {
        if args.len() < 3 {
            return Err("not enough arguments");
        }

        let ignore_case = if str_starts_with(args[1].as_str(), "-i") || str_starts_with(
            args[1].as_str(),
            "--ignore-case",
        ) {
            true
        } else {
            ignore_case_env
        };

        let (query, file_path) = if args.len() >= 4 {
            (args[2].clone(), args[3].clone())
        } else {
            (args[1].clone(), args[2].clone())
        };

        Ok(Config { query, file_path, ignore_case })
    }
}

} // verus!
