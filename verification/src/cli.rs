//! The command-line surface, as plain data: the parsed arguments and
//! what they ask for.

use vstd::prelude::*;

use crate::errors::EzzError;
use crate::errors::EzzResult;

verus! {

/// A subcommand: extract an archive, or add a password to the vault.
#[allow(inconsistent_fields)]
pub enum Action {
    /// Extract `archive`, with an optional explicit password and an
    /// optional vault location.
    Extract { archive: String, pwd: Option<String>, db: Option<String> },
    /// Add `pwd` to the vault at the optional location.
    Add { pwd: String, db: Option<String> },
}

/// The parsed invocation: an optional subcommand, or a bare archive
/// path that means "extract it".
pub struct Args {
    pub action: Option<Action>,
    pub archive: Option<String>,
}

impl Args {
    /// The extraction request these arguments make: the archive path
    /// with the optional password and vault location. An invocation
    /// without a subcommand extracts its bare path argument; one with
    /// neither subcommand nor path is a path error. An add-password
    /// invocation makes no extraction request.
    pub fn extract_request(self) -> (r: Option<EzzResult<(String, Option<String>, Option<String>)>>)
        ensures
            (match self.action {
                Some(Action::Add { .. }) => r is None,
                Some(Action::Extract { archive, pwd, db }) => r == Some(
                    EzzResult::<(String, Option<String>, Option<String>)>::Ok((archive, pwd, db)),
                ),
                None => (match self.archive {
                    Some(p) => r == Some(
                        EzzResult::<(String, Option<String>, Option<String>)>::Ok(
                            (p, None::<String>, None::<String>),
                        ),
                    ),
                    None => r == Some(
                        EzzResult::<(String, Option<String>, Option<String>)>::Err(
                            EzzError::PathError,
                        ),
                    ),
                }),
            }),
    {
        match self.action {
            Some(Action::Add { .. }) => None,
            Some(Action::Extract { archive, pwd, db }) => Some(Ok((archive, pwd, db))),
            None => match self.archive {
                Some(p) => Some(Ok((p, None, None))),
                None => Some(Err(EzzError::PathError)),
            },
        }
    }
}

} // verus!
