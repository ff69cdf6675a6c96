//! Validation of a raw argument list into a run configuration.
//!
//! A well-formed argument list is `[program, query, file_path]`, optionally
//! followed by the single flag token `-i`. Anything shorter, longer, or with
//! another token in the flag position is rejected with the matching error.

use vstd::prelude::*;

verus! {

/// A search-mode modifier. The only recognized modifier turns on
/// case-insensitive matching; its absence means case-sensitive matching.
#[derive(Clone, Copy, Debug, PartialEq, Eq, Structural)]
pub enum Flag {
    CaseInsensitive,
}

/// Why an argument list was rejected.
#[derive(Clone, Copy, Debug, PartialEq, Eq, Structural)]
pub enum ConfigError {
    /// No token after the program name.
    MissingQuery,
    /// A query but no file path.
    MissingFilePath,
    /// A token in the flag position other than `-i`.
    UnsupportedFlag,
    /// A token after a valid flag.
    TooManyArguments,
}

/// A validated run configuration: what to search for, in which file, and
/// whether matching is case-insensitive.
#[derive(Debug)]
pub struct Config {
    pub query: String,
    pub file_path: String,
    pub flag: Option<Flag>,
}

/// True when the token is exactly the case-insensitivity flag `-i`.
fn is_flag_token(s: &String) -> (r: bool)
    ensures
        r == (s@ == "-i"@),
{
    proof {
        reveal_strlit("-i");
    }
    let t = s.as_str();
    if t.unicode_len() != 2 {
        return false;
    }
    let r = t.get_char(0) == '-' && t.get_char(1) == 'i';
    proof {
        if r {
            assert(s@ =~= "-i"@);
        }
    }
    r
}

impl Config {
    /// Validates the raw argument list `args`. Token 0 is the program name
    /// and is discarded; token 1 is the query, token 2 the file path, and an
    /// optional token 3 must be the literal `-i`. Each way an argument list
    /// can be malformed maps to exactly one error.
    pub fn build(args: Vec<String>) -> (r: Result<Config, ConfigError>)
        ensures
            match r {
                Ok(c) => {
                    &&& args@.len() == 3 || (args@.len() == 4 && args@[3]@ == "-i"@)
                    &&& c.query@ == args@[1]@
                    &&& c.file_path@ == args@[2]@
                    &&& c.flag == (if args@.len() == 4 {
                        Some(Flag::CaseInsensitive)
                    } else {
                        None::<Flag>
                    })
                },
                Err(e) => match e {
                    ConfigError::MissingQuery => args@.len() <= 1,
                    ConfigError::MissingFilePath => args@.len() == 2,
                    ConfigError::UnsupportedFlag => args@.len() >= 4 && args@[3]@ != "-i"@,
                    ConfigError::TooManyArguments => args@.len() >= 5 && args@[3]@ == "-i"@,
                },
            },
    {
        if args.len() < 2 {
            return Err(ConfigError::MissingQuery);
        }
        if args.len() < 3 {
            return Err(ConfigError::MissingFilePath);
        }
        let flag = if args.len() >= 4 {
            if is_flag_token(&args[3]) {
                Some(Flag::CaseInsensitive)
            } else {
                return Err(ConfigError::UnsupportedFlag);
            }
        } else {
            None
        };
        if args.len() >= 5 {
            return Err(ConfigError::TooManyArguments);
        }
        Ok(Config { query: args[1].clone(), file_path: args[2].clone(), flag })
    }
}

} // verus!
