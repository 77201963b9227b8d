//! The resolved configuration of one run, and the parsing of counts.

use vstd::prelude::*;

use crate::error::HeadError;
use crate::size::{parse_size, size_error_subject, size_error_text, size_outcome, SizeError};
use crate::text::debug_repr;

verus! {

/// How many lines or bytes to output.
#[derive(Debug, Clone, Copy, PartialEq, Eq, Structural)]
pub enum Count {
    /// Output the first `n` lines/bytes.
    First(u64),
    /// Output everything except the last `n` lines/bytes.
    AllButLast(u64),
}

/// What to measure when limiting output.
#[derive(Debug, Clone, Copy, PartialEq, Eq, Structural)]
pub enum OutputMode {
    Lines(Count),
    Bytes(Count),
}

/// Controls whether file-name headers are emitted.
#[derive(Debug, Clone, Copy, PartialEq, Eq, Structural)]
pub enum HeaderMode {
    /// Emit headers only when more than one input source is present (default).
    Auto,
    /// Always emit headers (`-v` / `--verbose`).
    Always,
    /// Never emit headers (`-q` / `--quiet` / `--silent`).
    Never,
}

/// A single input source passed on the command line.
#[derive(Debug, Clone, PartialEq, Eq)]
pub enum InputSource {
    /// Standard input (the literal `-` argument or an empty file list).
    Stdin,
    /// A regular file identified by its path.
    File(String),
}

impl InputSource {
    /// The name shown in the header line (`==> name <==`).
    pub open spec fn name_of(self) -> Seq<char> {
        match self {
            InputSource::Stdin => "standard input"@,
            InputSource::File(p) => p@,
        }
    }

    /// The name shown in the header line (`==> name <==`).
    pub fn display_name(&self) -> (r: &str)
        ensures
            r@ == self.name_of(),
    {
        match self {
            InputSource::Stdin => "standard input",
            InputSource::File(p) => p.as_str(),
        }
    }
}

/// Fully resolved configuration for a single `head` invocation.
#[derive(Debug)]
pub struct HeadConfig {
    pub mode: OutputMode,
    pub header_mode: HeaderMode,
    /// When `true` the line delimiter is NUL (`\0`) instead of newline.
    pub zero_terminated: bool,
    pub sources: Vec<InputSource>,
}

/// Whether headers are printed under `mode` for `num_sources` inputs.
pub open spec fn prints_header(mode: HeaderMode, num_sources: int) -> bool {
    match mode {
        HeaderMode::Auto => num_sources > 1,
        HeaderMode::Always => true,
        HeaderMode::Never => false,
    }
}

/// Headers by mode: by default exactly when there are two or more inputs
/// (so adding inputs never removes them), always with `-v`, never with `-q`.
pub proof fn lemma_header_rule(n: int, m: int)
    ensures
        prints_header(HeaderMode::Auto, n) <==> n >= 2,
        n <= m && prints_header(HeaderMode::Auto, n) ==> prints_header(HeaderMode::Auto, m),
        prints_header(HeaderMode::Always, n),
        !prints_header(HeaderMode::Never, n),
{
}

impl HeadConfig {
    /// Returns `true` when headers should be printed for the given number of
    /// input sources: always, never, or (by default) when there is more than
    /// one.
    pub fn should_print_header(&self, num_sources: usize) -> (r: bool)
        ensures
            r == prints_header(self.header_mode, num_sources as int),
    {
        match self.header_mode {
            HeaderMode::Auto => num_sources > 1,
            HeaderMode::Always => true,
            HeaderMode::Never => false,
        }
    }
}

/// Whether a count string asks for "all but the last N" (a leading `-`).
pub open spec fn is_all_but_last(s: Seq<char>) -> bool {
    s.len() > 0 && s[0] == '-'
}

/// The size part of a count string: what follows the optional leading `-`.
pub open spec fn count_size_part(s: Seq<char>) -> Seq<char> {
    if is_all_but_last(s) {
        s.drop_first()
    } else {
        s
    }
}

/// What a `[-]NUM[SUFFIX]` string means.
pub open spec fn count_outcome(s: Seq<char>) -> Result<Count, SizeError> {
    match size_outcome(count_size_part(s)) {
        Ok(n) => Ok(
            if is_all_but_last(s) {
                Count::AllButLast(n)
            } else {
                Count::First(n)
            },
        ),
        Err(e) => Err(e),
    }
}

/// Parse a `[-]NUM[SUFFIX]` string into a [`Count`].
///
/// A leading `-` means "all but the last N"; without it we take the first N.
/// A refused size becomes `InvalidCount`, naming `kind` and carrying the
/// size parser's message.
pub fn parse_count(s: &str, kind: &str) -> (r: Result<Count, HeadError>)
    ensures
        r is Ok <==> count_outcome(s@) is Ok,
        r matches Ok(c) ==> count_outcome(s@) == Ok::<Count, SizeError>(c),
        r matches Err(err) ==> {
            &&& count_outcome(s@) matches Err(e)
            &&& err matches HeadError::InvalidCount { kind: k, reason }
            &&& k@ == kind@
            &&& reason@ == size_error_text(
                e,
                debug_repr(size_error_subject(count_size_part(s@), e)),
            )
        },
{
    let len: usize = s.unicode_len();
    let all_but_last = len > 0 && s.get_char(0) == '-';
    let num_str = if all_but_last {
        s.substring_char(1, len)
    } else {
        s
    };
    assert(num_str@ == count_size_part(s@));
    match parse_size(num_str) {
        Ok(n) => {
            if all_but_last {
                Ok(Count::AllButLast(n))
            } else {
                Ok(Count::First(n))
            }
        },
        Err(reason) => Err(HeadError::InvalidCount { kind: kind.to_owned(), reason }),
    }
}

} // verus!
