//! A `head` utility: the first (or all but the last) lines or bytes of
//! each input, with GNU-style size suffixes and file-name headers.
//!
//! The verified part lives here: argument rewriting, count parsing,
//! configuration, header and message text, and the streaming state machine
//! that decides which input bytes are written.

pub mod cli;
pub mod config;
pub mod error;
pub mod processor;
pub mod size;
pub mod text;

use vstd::prelude::*;

use crate::cli::Cli;
use crate::config::{
    count_outcome, count_size_part, parse_count, prints_header, Count, HeadConfig, HeaderMode,
    InputSource, OutputMode,
};
use crate::error::HeadError;
use crate::processor::{ByteProcessor, LineProcessor, Processor};
use crate::size::{size_error_subject, size_error_text, size_outcome, SizeError};
use crate::text::{debug_repr, str_eq};

verus! {

// ── Configuration from the command line ─────────────────────────────────────

/// The count option given on a command line, as (kind, text): `-c` wins,
/// then `-n`; `None` where neither is given.
pub open spec fn cli_count(cli: Cli) -> Option<(Seq<char>, Seq<char>)> {
    match cli.bytes {
        Some(s) => Some(("bytes"@, s@)),
        None => match cli.lines {
            Some(s) => Some(("lines"@, s@)),
            None => None,
        },
    }
}

/// The output mode a command line asks for: the first 10 lines by default.
pub open spec fn cli_mode(cli: Cli) -> Result<OutputMode, SizeError> {
    match cli.bytes {
        Some(s) => match count_outcome(s@) {
            Ok(c) => Ok(OutputMode::Bytes(c)),
            Err(e) => Err(e),
        },
        None => match cli.lines {
            Some(s) => match count_outcome(s@) {
                Ok(c) => Ok(OutputMode::Lines(c)),
                Err(e) => Err(e),
            },
            None => Ok(OutputMode::Lines(Count::First(10))),
        },
    }
}

/// `-q` never prints headers and wins over `-v`, which always does.
pub open spec fn header_mode_for(quiet: bool, verbose: bool) -> HeaderMode {
    if quiet {
        HeaderMode::Never
    } else if verbose {
        HeaderMode::Always
    } else {
        HeaderMode::Auto
    }
}

/// The input that a file argument names: `-` is standard input.
pub open spec fn source_for(f: Seq<char>, src: InputSource) -> bool {
    if f == "-"@ {
        src is Stdin
    } else {
        src matches InputSource::File(p) && p@ == f
    }
}

/// The inputs for a list of file arguments: standard input where there is
/// none, else one per argument in order.
pub open spec fn sources_for(files: Seq<String>, srcs: Seq<InputSource>) -> bool {
    if files.len() == 0 {
        srcs.len() == 1 && srcs[0] is Stdin
    } else {
        &&& srcs.len() == files.len()
        &&& forall|i: int| 0 <= i < files.len() ==> source_for(files[i]@, #[trigger] srcs[i])
    }
}

/// Convert the parsed command-line arguments into a [`HeadConfig`].
///
/// A count that does not parse is refused as `InvalidCount`, naming the
/// option (`bytes` or `lines`).
pub fn config_from_cli(cli: Cli) -> (r: Result<HeadConfig, HeadError>)
    requires
        !(cli.bytes is Some && cli.lines is Some),
    ensures
        r is Ok <==> cli_mode(cli) is Ok,
        r matches Ok(cfg) ==> {
            &&& cli_mode(cli) == Ok::<OutputMode, SizeError>(cfg.mode)
            &&& cfg.header_mode == header_mode_for(cli.quiet, cli.verbose)
            &&& cfg.zero_terminated == cli.zero_terminated
            &&& sources_for(cli.files@, cfg.sources@)
        },
        r matches Err(err) ==> {
            &&& cli_mode(cli) matches Err(e)
            &&& cli_count(cli) matches Some((kind_text, count_text))
            &&& err matches HeadError::InvalidCount { kind, reason }
            &&& kind@ == kind_text
            &&& reason@ == size_error_text(
                e,
                debug_repr(size_error_subject(count_size_part(count_text), e)),
            )
        },
{
    let ghost c = cli;
    let mode = match cli.bytes {
        Some(s) => match parse_count(s.as_str(), "bytes") {
            Ok(count) => OutputMode::Bytes(count),
            Err(e) => {
                return Err(e);
            },
        },
        None => match cli.lines {
            Some(s) => match parse_count(s.as_str(), "lines") {
                Ok(count) => OutputMode::Lines(count),
                Err(e) => {
                    return Err(e);
                },
            },
            None => OutputMode::Lines(Count::First(10)),
        },
    };

    let header_mode = if cli.quiet {
        HeaderMode::Never
    } else if cli.verbose {
        HeaderMode::Always
    } else {
        HeaderMode::Auto
    };

    let files = cli.files;
    let mut sources: Vec<InputSource> = Vec::new();
    if files.len() == 0 {
        sources.push(InputSource::Stdin);
    } else {
        let mut i: usize = 0;
        while i < files.len()
            invariant
                i <= files@.len(),
                files@ == c.files@,
                sources@.len() == i,
                forall|j: int| 0 <= j < i ==> source_for(files@[j]@, #[trigger] sources@[j]),
            decreases files@.len() - i,
        {
            let f = &files[i];
            if str_eq(f.as_str(), "-") {
                sources.push(InputSource::Stdin);
            } else {
                sources.push(InputSource::File(f.clone()));
            }
            i += 1;
        }
    }

    Ok(HeadConfig { mode, header_mode, zero_terminated: cli.zero_terminated, sources })
}

/// Build the processor for a fully resolved configuration: lines end at NUL
/// under `-z`, at newline otherwise.
pub fn build_processor(config: &HeadConfig) -> (p: Processor)
    ensures
        p.mode_of() == config.mode,
        p matches Processor::Lines(lp) ==> lp.delimiter_of() == if config.zero_terminated {
            0u8
        } else {
            10u8
        },
{
    let delimiter: u8 = if config.zero_terminated {
        0
    } else {
        10
    };
    match config.mode {
        OutputMode::Lines(count) => Processor::Lines(LineProcessor::new(count, delimiter)),
        OutputMode::Bytes(count) => Processor::Bytes(ByteProcessor::new(count)),
    }
}

// ── Text written around the output ──────────────────────────────────────────

/// The header before the input at position `index`: `==> name <==` on a
/// line of its own, preceded by a blank line for every input but the first.
pub open spec fn header_for(index: int, name: Seq<char>) -> Seq<char> {
    (if index > 0 {
        "\n"@
    } else {
        ""@
    }) + "==> "@ + name + " <==\n"@
}

/// The header text written before the input at position `index`.
pub fn header_text(index: usize, name: &str) -> (r: String)
    ensures
        r@ == header_for(index as int, name@),
{
    let mut h = if index > 0 {
        String::from_str("\n")
    } else {
        String::from_str("")
    };
    h.append("==> ");
    h.append(name);
    h.append(" <==\n");
    h
}

/// Whether `pat` occurs in `s` starting at index `i`.
pub open spec fn occurs_at(s: Seq<char>, pat: Seq<char>, i: int) -> bool {
    0 <= i && i + pat.len() <= s.len() && s.subrange(i, i + pat.len()) == pat
}

fn matches_at(s: &str, pat: &str, i: usize) -> (r: bool)
    requires
        i + pat@.len() <= s@.len(),
        s@.len() <= usize::MAX,
    ensures
        r == occurs_at(s@, pat@, i as int),
{
    let m: usize = pat.unicode_len();
    let mut k: usize = 0;
    while k < m
        invariant
            m == pat@.len(),
            i + m <= s@.len(),
            s@.len() <= usize::MAX,
            k <= m,
            forall|j: int| 0 <= j < k ==> s@[i + j] == pat@[j],
        decreases m - k,
    {
        if s.get_char(i + k) != pat.get_char(k) {
            assert(s@.subrange(i as int, i + m)[k as int] != pat@[k as int]);
            return false;
        }
        k += 1;
    }
    assert(s@.subrange(i as int, i + m) =~= pat@);
    true
}

/// An I/O error message the way GNU coreutils prints it: without the
/// ` (os error N)` annotation, that is, cut at the last occurrence of
/// ` (os error ` where there is one.
pub fn fmt_io_err(msg: &str) -> (r: String)
    ensures
        (forall|j: int| !occurs_at(msg@, " (os error "@, j)) ==> r@ == msg@,
        (exists|j: int| occurs_at(msg@, " (os error "@, j)) ==> exists|i: int|
            {
                &&& occurs_at(msg@, " (os error "@, i)
                &&& forall|j: int| i < j ==> !occurs_at(msg@, " (os error "@, j)
                &&& r@ == msg@.take(i)
            },
{
    let pat = " (os error ";
    proof {
        reveal_strlit(" (os error ");
    }
    let n: usize = msg.unicode_len();
    let m: usize = pat.unicode_len();
    if n < m {
        return msg.to_owned();
    }
    let mut k: usize = n - m + 1;
    while k > 0
        invariant
            n == msg@.len(),
            m == pat@.len(),
            pat@ == " (os error "@,
            m <= n,
            k <= n - m + 1,
            forall|j: int| k <= j ==> !occurs_at(msg@, pat@, j),
        decreases k,
    {
        let i: usize = k - 1;
        if matches_at(msg, pat, i) {
            let r = msg.substring_char(0, i).to_owned();
            assert(r@ =~= msg@.take(i as int));
            assert(occurs_at(msg@, " (os error "@, i as int));
            assert(forall|j: int| i < j ==> !occurs_at(msg@, " (os error "@, j));
            return r;
        }
        k = i;
    }
    msg.to_owned()
}

// ── Laws ─────────────────────────────────────────────────────────────────────

/// The header of every input but the first is the first input's form of
/// it preceded by one newline; the first input's header starts `==> `
/// right away.
pub proof fn lemma_header_blank_line(index: int, name: Seq<char>)
    requires
        index >= 0,
    ensures
        header_for(0, name) == seq!['=', '=', '>', ' '] + name + seq![' ', '<', '=', '=', '\n'],
        index > 0 ==> header_for(index, name) == seq!['\n'] + header_for(0, name),
        header_for(index, name)[0] == '\n' <==> index > 0,
{
    reveal_strlit("\n");
    reveal_strlit("");
    reveal_strlit("==> ");
    reveal_strlit(" <==\n");
    assert(header_for(0, name) =~= seq!['=', '=', '>', ' '] + name + seq![' ', '<', '=', '=', '\n']);
    if index > 0 {
        assert(header_for(index, name) =~= seq!['\n'] + header_for(0, name));
    }
}

/// Header control: with `-q` no header is printed for any number of
/// inputs, whatever `-v` says; with `-v` alone one is printed for every
/// input; with neither, exactly when there are two or more inputs.
pub proof fn lemma_quiet_verbose(verbose: bool, n: int)
    ensures
        header_mode_for(true, verbose) == HeaderMode::Never,
        !prints_header(header_mode_for(true, verbose), n),
        header_mode_for(false, true) == HeaderMode::Always,
        prints_header(header_mode_for(false, true), n),
        header_mode_for(false, false) == HeaderMode::Auto,
        prints_header(header_mode_for(false, false), n) <==> n >= 2,
{
}

/// The count options: `-n S` selects lines and `-c S` bytes, with the
/// count that `S` means on its own — a leading `-` gives all but the last
/// `N`, none gives the first `N` — and the first 10 lines without either.
pub proof fn lemma_count_option(cli: Cli, v: u64)
    requires
        !(cli.bytes is Some && cli.lines is Some),
    ensures
        cli.bytes is None && cli.lines is None ==> cli_mode(cli) == Ok::<OutputMode, SizeError>(
            OutputMode::Lines(Count::First(10)),
        ),
        cli.lines matches Some(s) ==> cli_mode(cli) == match count_outcome(s@) {
            Ok(c) => Ok::<OutputMode, SizeError>(OutputMode::Lines(c)),
            Err(e) => Err(e),
        },
        cli.bytes matches Some(s) ==> cli_mode(cli) == match count_outcome(s@) {
            Ok(c) => Ok::<OutputMode, SizeError>(OutputMode::Bytes(c)),
            Err(e) => Err(e),
        },
        cli.lines matches Some(s) && s@.len() > 0 && s@[0] == '-' && size_outcome(s@.drop_first())
            == Ok::<u64, SizeError>(v) ==> cli_mode(cli) == Ok::<OutputMode, SizeError>(
            OutputMode::Lines(Count::AllButLast(v)),
        ),
        cli.lines matches Some(s) && !(s@.len() > 0 && s@[0] == '-') && size_outcome(s@) == Ok::<
            u64,
            SizeError,
        >(v) ==> cli_mode(cli) == Ok::<OutputMode, SizeError>(OutputMode::Lines(Count::First(v))),
        cli.bytes matches Some(s) && s@.len() > 0 && s@[0] == '-' && size_outcome(s@.drop_first())
            == Ok::<u64, SizeError>(v) ==> cli_mode(cli) == Ok::<OutputMode, SizeError>(
            OutputMode::Bytes(Count::AllButLast(v)),
        ),
        cli.bytes matches Some(s) && !(s@.len() > 0 && s@[0] == '-') && size_outcome(s@) == Ok::<
            u64,
            SizeError,
        >(v) ==> cli_mode(cli) == Ok::<OutputMode, SizeError>(OutputMode::Bytes(Count::First(v))),
{
}

} // verus!
