//! The run configuration: query, file path, and matching mode.

use vstd::prelude::*;

verus! {

/// What one run of the search needs: the query string, the path of the
/// file to search, and whether matching is case-sensitive. Immutable
/// once built.
pub struct Config {
    pub query: String,
    pub filename: String,
    pub case_sensitive: bool,
}

impl Config {
    /// Builds a `Config` from the raw argument tokens, program name
    /// first, and from whether the case-insensitivity flag is present
    /// in the environment. The first token is skipped; the next two
    /// are the query and the file name, and each missing one is its
    /// own error. The flag's presence makes matching case-insensitive;
    /// its absence makes it case-sensitive.
    pub fn new(args: Vec<String>, case_insensitive: bool) -> (r: Result<Config, &'static str>)
        ensures
            args@.len() >= 3 ==> (r matches Ok(c) && c.query@ == args@[1]@ && c.filename@
                == args@[2]@ && c.case_sensitive == !case_insensitive),
            args@.len() < 2 ==> (r matches Err(e) && e@ == "Didn't get a query string"@),
            args@.len() == 2 ==> (r matches Err(e) && e@ == "Didn't get a file name"@),
    {
        if args.len() < 2 {
            return Err("Didn't get a query string");
        }
        if args.len() < 3 {
            return Err("Didn't get a file name");
        }
        let query = args[1].clone();
        let filename = args[2].clone();
        Ok(Config { query, filename, case_sensitive: !case_insensitive })
    }
}

} // verus!
