//! The configuration resolver: from the invocation tokens and the presence
//! of one environment variable to a query, a file path and a matching mode.
//!
//! The resolution order matters and is kept exactly: when the default mode
//! is case-sensitive, the token list is scanned from the start for the
//! first flag token, which flips the mode and is removed; the query and the
//! file path are then the tokens at positions one and two of the possibly
//! shortened list.  A flag token at or before position two therefore
//! shifts the later tokens left.

use vstd::prelude::*;
use vstd::slice::slice_index_get;

verus! {

/// A resolved invocation: what to search for, in which file, and whether
/// comparison is exact.
pub struct Config {
    pub query: String,
    pub filename: String,
    pub case_sensitive: bool,
}

/// Why an invocation could not be resolved.
#[derive(Clone, Copy, Debug, PartialEq, Eq, Structural)]
pub enum ConfigError {
    /// Fewer than three invocation tokens were supplied.
    InsufficientArguments,
}

/// Is the token one of the two spellings of the case-insensitivity flag?
pub open spec fn is_flag(tok: Seq<char>) -> bool {
    tok == "-i"@ || tok == "--ignore-case"@
}

/// The position of the first flag token at or after `from`, or the length
/// of `args` when there is none.
pub open spec fn first_flag_from(args: Seq<Seq<char>>, from: int) -> int
    recommends
        0 <= from <= args.len(),
    decreases args.len() - from,
{
    if from < 0 || from >= args.len() {
        args.len() as int
    } else if is_flag(args[from]) {
        from
    } else {
        first_flag_from(args, from + 1)
    }
}

proof fn lemma_first_flag_from(args: Seq<Seq<char>>, from: int)
    requires
        0 <= from <= args.len(),
    ensures
        from <= first_flag_from(args, from) <= args.len(),
        first_flag_from(args, from) < args.len() ==> is_flag(args[first_flag_from(args, from)]),
        forall|k: int| from <= k < first_flag_from(args, from) ==> !is_flag(args[k]),
    decreases args.len() - from,
{
    if from < args.len() && !is_flag(args[from]) {
        lemma_first_flag_from(args, from + 1);
    }
}

/// The token sequence after flag handling: when the environment already
/// asks for case-insensitive matching, nothing is scanned and nothing is
/// removed; otherwise the first flag token, if there is one, is removed.
pub open spec fn effective_args(args: Seq<Seq<char>>, env_case_insensitive: bool) -> Seq<
    Seq<char>,
> {
    if env_case_insensitive {
        args
    } else {
        let i = first_flag_from(args, 0);
        if i < args.len() {
            args.remove(i)
        } else {
            args
        }
    }
}

/// Flag handling removes at most one token: with four or more tokens, at
/// least three are always left for the positional extraction.
pub proof fn lemma_effective_args_len(args: Seq<Seq<char>>, env_case_insensitive: bool)
    ensures
        args.len() - 1 <= effective_args(args, env_case_insensitive).len() <= args.len(),
{
    lemma_first_flag_from(args, 0);
    let i = first_flag_from(args, 0);
    if !env_case_insensitive && i < args.len() {
        args.remove_ensures(i);
    }
}

/// The resolved matching mode: case-sensitive unless the environment
/// variable is set or a flag token occurs among the tokens.
pub open spec fn resolved_case_sensitive(
    args: Seq<Seq<char>>,
    env_case_insensitive: bool,
) -> bool {
    !env_case_insensitive && first_flag_from(args, 0) >= args.len()
}

/// The position of the first flag token, or the token count when there is
/// none.
#[verifier::loop_isolation(false)]
fn find_flag(args: &[String]) -> (i: usize)
    ensures
        i == first_flag_from(args.deep_view(), 0),
{
    let ghost da = args.deep_view();
    let n = args.len();
    let mut i: usize = 0;
    while i < n
        invariant
            i <= n,
            first_flag_from(da, 0) == first_flag_from(da, i as int),
        decreases n - i,
    {
        let tok = slice_index_get(args, i);
        if crate::text::str_eq(tok.as_str(), "-i") || crate::text::str_eq(
            tok.as_str(),
            "--ignore-case",
        ) {
            proof {
                assert(is_flag(da[i as int]));
            }
            return i;
        }
        i = i + 1;
    }
    i
}

impl Config {
    /// Resolve a configuration from the invocation tokens (the program
    /// name first) and the presence of the environment variable that asks
    /// for case-insensitive matching.  Fails, exactly when fewer than
    /// three tokens are given, with `InsufficientArguments`.  A removed
    /// flag token must leave at least three tokens behind; on a shorter
    /// list the positional extraction would reach past the end.
    pub fn new(args: &[String], env_case_insensitive: bool) -> (r: Result<Config, ConfigError>)
        requires
            args@.len() >= 3 ==> effective_args(args.deep_view(), env_case_insensitive).len()
                >= 3,
        ensures
            r is Err <==> args@.len() < 3,
            r is Err ==> r == Err::<Config, ConfigError>(ConfigError::InsufficientArguments),
            r matches Ok(c) ==> {
                &&& c.case_sensitive == resolved_case_sensitive(
                    args.deep_view(),
                    env_case_insensitive,
                )
                &&& c.query@ == effective_args(args.deep_view(), env_case_insensitive)[1]
                &&& c.filename@ == effective_args(args.deep_view(), env_case_insensitive)[2]
            },
    {
        let ghost da = args.deep_view();
        let n = args.len();
        if n < 3 {
            return Err(ConfigError::InsufficientArguments);
        }
        if env_case_insensitive {
            let query = slice_index_get(args, 1).clone();
            let filename = slice_index_get(args, 2).clone();
            return Ok(Config { query, filename, case_sensitive: false });
        }
        let flag_at = find_flag(args);
        if flag_at == n {
            let query = slice_index_get(args, 1).clone();
            let filename = slice_index_get(args, 2).clone();
            return Ok(Config { query, filename, case_sensitive: true });
        }
        // The flag token is removed before the positional extraction, so
        // the tokens after it shift left by one.
        let query_at: usize = if flag_at <= 1 {
            2
        } else {
            1
        };
        let file_at: usize = if flag_at <= 2 {
            3
        } else {
            2
        };
        proof {
            lemma_first_flag_from(da, 0);
            da.remove_ensures(flag_at as int);
            assert(effective_args(da, false) == da.remove(flag_at as int));
        }
        let query = slice_index_get(args, query_at).clone();
        let filename = slice_index_get(args, file_at).clone();
        Ok(Config { query, filename, case_sensitive: false })
    }
}

} // verus!
