//! The sink: where the rendered text goes, and what is written there.

use crate::text::{replace_all, replace_all_in};
use vstd::prelude::*;

verus! {

/// Where the rendered text goes. `P` is the type of a file path; it is
/// carried through unread.
#[derive(Debug, PartialEq, Eq)]
pub enum Sink<P> {
    /// Every occurrence of `token` in the file at `path` is replaced by the
    /// rendered text.
    ReplaceInFile { path: P, token: String },
    /// The rendered text becomes the whole content of the file at `path`.
    WriteFile { path: P },
    /// The rendered text is printed on standard output.
    Stdout,
}

/// An invalid combination of options.
#[derive(Clone, Copy, Debug, PartialEq, Eq)]
pub enum ConfigError {
    /// A replacement token was given without an output file.
    ReplaceWithoutOut,
}

impl ConfigError {
    /// The diagnostic for this error.
    pub open spec fn message_text(self) -> Seq<char> {
        "--replace can only be used with --out"@
    }

    /// The diagnostic for this error.
    pub fn message(&self) -> (text: &'static str)
        ensures
            text@ == self.message_text(),
    {
        "--replace can only be used with --out"
    }
}

/// Decides the sink from the optional output path and the optional
/// replacement token. A token without a path is rejected.
pub fn resolve_sink<P>(
    out: Option<P>,
    replace: Option<String>,
) -> (sink: Result<Sink<P>, ConfigError>)
    ensures
        match (out, replace) {
            (Some(path), Some(token)) => sink == Ok::<Sink<P>, ConfigError>(
                Sink::ReplaceInFile { path, token },
            ),
            (Some(path), None) => sink == Ok::<Sink<P>, ConfigError>(Sink::WriteFile { path }),
            (None, Some(_)) => sink == Err::<Sink<P>, ConfigError>(ConfigError::ReplaceWithoutOut),
            (None, None) => sink == Ok::<Sink<P>, ConfigError>(Sink::Stdout),
        },
{
    match out {
        Some(path) => match replace {
            Some(token) => Ok(Sink::ReplaceInFile { path, token }),
            None => Ok(Sink::WriteFile { path }),
        },
        None => match replace {
            Some(_) => Err(ConfigError::ReplaceWithoutOut),
            None => Ok(Sink::Stdout),
        },
    }
}

/// The new content of a file in replace mode: `content` with every
/// occurrence of `token` replaced by `rendered`.
pub fn replace_in_content(content: &str, token: &str, rendered: &str) -> (out: String)
    ensures
        out@ == replace_all(content@, token@, rendered@),
{
    replace_all_in(content, token, rendered)
}

/// The text printed on standard output: `rendered` followed by a newline.
pub fn stdout_text(rendered: &str) -> (out: String)
    ensures
        out@ == rendered@.push('\n'),
{
    let mut out = rendered.to_owned();
    out.push('\n');
    out
}

} // verus!
