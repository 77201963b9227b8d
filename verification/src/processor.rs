//! Which bytes of an input `head` writes, as a streaming state machine.
//!
//! The whole-input meaning is `head_output`; a `HeadStream` is fed the
//! input chunk by chunk and hands back, after each chunk, exactly the bytes
//! by which `head_output` of everything consumed so far has grown.

use std::collections::VecDeque;

use vstd::prelude::*;

use crate::config::{Count, OutputMode};

verus! {

// ── The meaning of each mode on a whole input ───────────────────────────────

/// Number of occurrences of `delim` in `d`.
pub open spec fn delim_count(d: Seq<u8>, delim: u8) -> nat
    decreases d.len(),
{
    if d.len() == 0 {
        0
    } else {
        delim_count(d.drop_last(), delim) + if d.last() == delim {
            1nat
        } else {
            0nat
        }
    }
}

/// Whether `d` ends on a record boundary: it is empty or ends with `delim`.
pub open spec fn at_record_boundary(d: Seq<u8>, delim: u8) -> bool {
    d.len() == 0 || d.last() == delim
}

/// Number of records in `d`: each delimiter ends one, and a non-empty tail
/// after the last delimiter is one more (an unterminated last line).
pub open spec fn record_count(d: Seq<u8>, delim: u8) -> nat {
    delim_count(d, delim) + if at_record_boundary(d, delim) {
        0nat
    } else {
        1nat
    }
}

/// The first `n` records of `d`: the shortest prefix holding `n`
/// delimiters, or all of `d` where it holds fewer. A byte of `d` belongs to
/// the output exactly when fewer than `n` delimiters come before it.
pub open spec fn first_lines(d: Seq<u8>, n: nat, delim: u8) -> Seq<u8>
    decreases d.len(),
{
    if d.len() == 0 {
        d
    } else if delim_count(d.drop_last(), delim) >= n {
        first_lines(d.drop_last(), n, delim)
    } else {
        d
    }
}

/// `a - b`, or 0 where `b` is larger.
pub open spec fn sat_sub(a: nat, b: nat) -> nat {
    if a > b {
        (a - b) as nat
    } else {
        0
    }
}

/// All records of `d` but the last `n`.
pub open spec fn all_but_last_lines(d: Seq<u8>, n: nat, delim: u8) -> Seq<u8> {
    first_lines(d, sat_sub(record_count(d, delim), n), delim)
}

/// The first `n` bytes of `d` (all of `d` where it is shorter).
pub open spec fn first_bytes(d: Seq<u8>, n: nat) -> Seq<u8> {
    if n < d.len() {
        d.take(n as int)
    } else {
        d
    }
}

/// All bytes of `d` but the last `n`.
pub open spec fn all_but_last_bytes(d: Seq<u8>, n: nat) -> Seq<u8> {
    d.take(sat_sub(d.len(), n) as int)
}

/// What `head` writes for the whole input `d` in `mode`; `delim` ends lines.
pub open spec fn head_output(mode: OutputMode, delim: u8, d: Seq<u8>) -> Seq<u8> {
    match mode {
        OutputMode::Lines(Count::First(n)) => first_lines(d, n as nat, delim),
        OutputMode::Lines(Count::AllButLast(n)) => all_but_last_lines(d, n as nat, delim),
        OutputMode::Bytes(Count::First(n)) => first_bytes(d, n as nat),
        OutputMode::Bytes(Count::AllButLast(n)) => all_but_last_bytes(d, n as nat),
    }
}

// ── Lemmas ───────────────────────────────────────────────────────────────────

proof fn lemma_delim_count_append(a: Seq<u8>, b: Seq<u8>, delim: u8)
    ensures
        delim_count(a + b, delim) == delim_count(a, delim) + delim_count(b, delim),
    decreases b.len(),
{
    if b.len() == 0 {
        assert(a + b =~= a);
    } else {
        lemma_delim_count_append(a, b.drop_last(), delim);
        assert((a + b).drop_last() =~= a + b.drop_last());
    }
}

proof fn lemma_delim_count_push(d: Seq<u8>, b: u8, delim: u8)
    ensures
        delim_count(d.push(b), delim) == delim_count(d, delim) + if b == delim {
            1nat
        } else {
            0nat
        },
        record_count(d.push(b), delim) == record_count(d, delim) + if at_record_boundary(
            d,
            delim,
        ) {
            1nat
        } else {
            0nat
        },
{
    assert(d.push(b).drop_last() =~= d);
}

proof fn lemma_first_lines_is_prefix(d: Seq<u8>, n: nat, delim: u8)
    ensures
        first_lines(d, n, delim).len() <= d.len(),
        first_lines(d, n, delim) =~= d.take(first_lines(d, n, delim).len() as int),
    decreases d.len(),
{
    if d.len() > 0 && delim_count(d.drop_last(), delim) >= n {
        lemma_first_lines_is_prefix(d.drop_last(), n, delim);
        let k = first_lines(d.drop_last(), n, delim).len() as int;
        assert(d.drop_last().take(k) =~= d.take(k));
    }
}

proof fn lemma_first_lines_zero(d: Seq<u8>, delim: u8)
    ensures
        first_lines(d, 0, delim) =~= Seq::<u8>::empty(),
    decreases d.len(),
{
    if d.len() > 0 {
        lemma_first_lines_zero(d.drop_last(), delim);
    }
}

/// Fewer than `n` delimiters: all of `d` is output.
proof fn lemma_first_lines_short(d: Seq<u8>, n: nat, delim: u8)
    requires
        delim_count(d, delim) < n,
    ensures
        first_lines(d, n, delim) == d,
{
    if d.len() > 0 {
        lemma_delim_count_push(d.drop_last(), d.last(), delim);
        assert(d.drop_last().push(d.last()) =~= d);
    }
}

/// At least `n` delimiters: appending more input changes nothing.
proof fn lemma_first_lines_saturated(d: Seq<u8>, e: Seq<u8>, n: nat, delim: u8)
    requires
        delim_count(d, delim) >= n,
    ensures
        first_lines(d + e, n, delim) == first_lines(d, n, delim),
    decreases e.len(),
{
    if e.len() == 0 {
        assert(d + e =~= d);
    } else {
        let e1 = e.drop_last();
        assert((d + e).drop_last() =~= d + e1);
        lemma_delim_count_append(d, e1, delim);
        lemma_first_lines_saturated(d, e1, n, delim);
    }
}

/// One more byte: it is output exactly when fewer than `n` delimiters
/// precede it.
proof fn lemma_first_lines_push(d: Seq<u8>, b: u8, n: nat, delim: u8)
    ensures
        first_lines(d.push(b), n, delim) == if delim_count(d, delim) >= n {
            first_lines(d, n, delim)
        } else {
            d.push(b)
        },
{
    assert(d.push(b).drop_last() =~= d);
}

/// A prefix that ends on a record boundary is the output for its own
/// number of delimiters.
proof fn lemma_first_lines_boundary(e: Seq<u8>, p: Seq<u8>, delim: u8)
    requires
        at_record_boundary(e, delim),
    ensures
        first_lines(e + p, delim_count(e, delim), delim) == e,
    decreases p.len(),
{
    let k = delim_count(e, delim);
    if p.len() == 0 {
        assert(e + p =~= e);
        if e.len() > 0 {
            lemma_delim_count_push(e.drop_last(), e.last(), delim);
            assert(e.drop_last().push(e.last()) =~= e);
        }
    } else {
        let p1 = p.drop_last();
        assert((e + p).drop_last() =~= e + p1);
        lemma_delim_count_append(e, p1, delim);
        lemma_first_lines_boundary(e, p1, delim);
    }
}

/// Records of `e + p` where `e` ends on a boundary.
proof fn lemma_record_count_split(e: Seq<u8>, p: Seq<u8>, delim: u8)
    requires
        at_record_boundary(e, delim),
    ensures
        record_count(e + p, delim) == delim_count(e, delim) + record_count(p, delim),
    decreases p.len(),
{
    if p.len() == 0 {
        assert(e + p =~= e);
    } else {
        let p1 = p.drop_last();
        lemma_record_count_split(e, p1, delim);
        lemma_delim_count_push(e + p1, p.last(), delim);
        lemma_delim_count_push(p1, p.last(), delim);
        assert((e + p1).push(p.last()) =~= e + p);
        assert(p1.push(p.last()) =~= p);
        if p1.len() == 0 {
            assert(e + p1 =~= e);
        } else {
            assert((e + p1).last() == p1.last());
        }
    }
}

/// More input only extends the first-`n`-records output.
proof fn lemma_first_lines_grows(d: Seq<u8>, e: Seq<u8>, n: nat, delim: u8)
    ensures
        first_lines(d, n, delim).is_prefix_of(first_lines(d + e, n, delim)),
    decreases e.len(),
{
    if e.len() == 0 {
        assert(d + e =~= d);
    } else {
        let e1 = e.drop_last();
        lemma_first_lines_grows(d, e1, n, delim);
        assert((d + e1).push(e.last()) =~= d + e);
        lemma_first_lines_push(d + e1, e.last(), n, delim);
        if delim_count(d + e1, delim) < n {
            lemma_first_lines_short(d + e1, n, delim);
        }
    }
}

/// Asking for more records only extends the output.
proof fn lemma_first_lines_monotone(d: Seq<u8>, k1: nat, k2: nat, delim: u8)
    requires
        k1 <= k2,
    ensures
        first_lines(d, k1, delim).is_prefix_of(first_lines(d, k2, delim)),
    decreases d.len(),
{
    if d.len() > 0 {
        let d1 = d.drop_last();
        lemma_first_lines_monotone(d1, k1, k2, delim);
        if delim_count(d1, delim) < k2 && delim_count(d1, delim) >= k1 {
            lemma_first_lines_is_prefix(d1, k1, delim);
        }
    }
}

proof fn lemma_record_count_grows(d: Seq<u8>, e: Seq<u8>, delim: u8)
    ensures
        record_count(d, delim) <= record_count(d + e, delim),
    decreases e.len(),
{
    if e.len() == 0 {
        assert(d + e =~= d);
    } else {
        let e1 = e.drop_last();
        lemma_record_count_grows(d, e1, delim);
        lemma_delim_count_push(d + e1, e.last(), delim);
        assert((d + e1).push(e.last()) =~= d + e);
    }
}

/// Where the held-back part `p` holds `min(n, records)` records and `e`
/// ends on a boundary, `e` is all but the last `n` records of `e + p`.
proof fn lemma_held_back_lines(e: Seq<u8>, p: Seq<u8>, n: nat, delim: u8)
    requires
        at_record_boundary(e, delim),
        record_count(p, delim) == if n < record_count(e + p, delim) {
            n
        } else {
            record_count(e + p, delim)
        },
    ensures
        all_but_last_lines(e + p, n, delim) == e,
{
    lemma_record_count_split(e, p, delim);
    lemma_first_lines_boundary(e, p, delim);
}

// ── Laws ─────────────────────────────────────────────────────────────────────

/// Streaming law: the output for an input is a prefix of the output for any
/// longer input, so what has been written never has to be taken back, and
/// writing output chunk by chunk gives the same bytes as writing it at once.
pub proof fn lemma_head_output_grows(mode: OutputMode, delim: u8, d: Seq<u8>, e: Seq<u8>)
    ensures
        head_output(mode, delim, d).is_prefix_of(head_output(mode, delim, d + e)),
{
    match mode {
        OutputMode::Lines(Count::First(n)) => {
            lemma_first_lines_grows(d, e, n as nat, delim);
        },
        OutputMode::Lines(Count::AllButLast(n)) => {
            let k1 = sat_sub(record_count(d, delim), n as nat);
            let k2 = sat_sub(record_count(d + e, delim), n as nat);
            lemma_record_count_grows(d, e, delim);
            lemma_first_lines_grows(d, e, k1, delim);
            lemma_first_lines_monotone(d + e, k1, k2, delim);
        },
        OutputMode::Bytes(Count::First(n)) => {},
        OutputMode::Bytes(Count::AllButLast(n)) => {},
    }
}

/// `-n N` outputs the first `N` lines: a prefix of the input holding
/// `min(N, delimiters)` delimiters, which ends right after a delimiter
/// unless it is the whole input and that holds fewer than `N` delimiters
/// (an unterminated last line counts as a line).
pub proof fn lemma_first_lines_meaning(d: Seq<u8>, n: nat, delim: u8)
    ensures
        first_lines(d, n, delim).is_prefix_of(d),
        delim_count(first_lines(d, n, delim), delim) == if n < delim_count(d, delim) {
            n
        } else {
            delim_count(d, delim)
        },
        at_record_boundary(first_lines(d, n, delim), delim) || (first_lines(d, n, delim) == d
            && n > delim_count(d, delim)),
    decreases d.len(),
{
    lemma_first_lines_is_prefix(d, n, delim);
    if d.len() > 0 {
        let d1 = d.drop_last();
        lemma_delim_count_push(d1, d.last(), delim);
        assert(d1.push(d.last()) =~= d);
        if delim_count(d1, delim) >= n {
            lemma_first_lines_meaning(d1, n, delim);
            lemma_first_lines_is_prefix(d1, n, delim);
        }
    }
}

/// `-n -N` removes exactly the last `N` records: the output is a prefix of
/// the input holding all records but the last `N` (none where there are no
/// more than `N`), and what is left out holds `min(N, records)` records.
pub proof fn lemma_all_but_last_lines_meaning(d: Seq<u8>, n: nat, delim: u8)
    ensures
        all_but_last_lines(d, n, delim).is_prefix_of(d),
        record_count(all_but_last_lines(d, n, delim), delim) == sat_sub(
            record_count(d, delim),
            n,
        ),
        n > 0 ==> at_record_boundary(all_but_last_lines(d, n, delim), delim),
        n > 0 ==> record_count(d.skip(all_but_last_lines(d, n, delim).len() as int), delim) == if n
            < record_count(d, delim) {
            n
        } else {
            record_count(d, delim)
        },
{
    let k = sat_sub(record_count(d, delim), n);
    let out = first_lines(d, k, delim);
    lemma_first_lines_meaning(d, k, delim);
    if k <= delim_count(d, delim) {
        assert(at_record_boundary(out, delim));
    } else {
        lemma_first_lines_short(d, k, delim);
    }
    if n > 0 {
        let rest = d.skip(out.len() as int);
        assert(out + rest =~= d);
        lemma_record_count_split(out, rest, delim);
    }
}

/// Counts of zero: the first 0 lines or bytes are nothing, and all but the
/// last 0 lines or bytes are the whole input.
pub proof fn lemma_zero_counts(d: Seq<u8>, delim: u8)
    ensures
        head_output(OutputMode::Lines(Count::First(0)), delim, d) == Seq::<u8>::empty(),
        head_output(OutputMode::Bytes(Count::First(0)), delim, d) == Seq::<u8>::empty(),
        head_output(OutputMode::Lines(Count::AllButLast(0)), delim, d) == d,
        head_output(OutputMode::Bytes(Count::AllButLast(0)), delim, d) == d,
{
    lemma_first_lines_zero(d, delim);
    lemma_all_lines(d, delim);
    assert(d.take(d.len() as int) =~= d);
}

/// Asking for all records gives back the whole input.
proof fn lemma_all_lines(d: Seq<u8>, delim: u8)
    ensures
        first_lines(d, record_count(d, delim), delim) == d,
{
    if at_record_boundary(d, delim) {
        lemma_first_lines_boundary(d, Seq::<u8>::empty(), delim);
        assert(d + Seq::<u8>::empty() =~= d);
    } else {
        lemma_first_lines_short(d, record_count(d, delim), delim);
    }
}

/// Counts beyond the input: asking for at least as many lines or bytes as
/// there are gives the whole input, and leaving out at least as many gives
/// nothing.
pub proof fn lemma_counts_beyond_input(d: Seq<u8>, n: u64, delim: u8)
    ensures
        n >= record_count(d, delim) ==> head_output(OutputMode::Lines(Count::First(n)), delim, d)
            == d,
        n >= record_count(d, delim) ==> head_output(
            OutputMode::Lines(Count::AllButLast(n)),
            delim,
            d,
        ) == Seq::<u8>::empty(),
        n >= d.len() ==> head_output(OutputMode::Bytes(Count::First(n)), delim, d) == d,
        n >= d.len() ==> head_output(OutputMode::Bytes(Count::AllButLast(n)), delim, d)
            == Seq::<u8>::empty(),
{
    if n >= record_count(d, delim) {
        if delim_count(d, delim) < n {
            lemma_first_lines_short(d, n as nat, delim);
        } else {
            lemma_all_lines(d, delim);
        }
        lemma_first_lines_zero(d, delim);
    }
}

// ── The streaming state machine ─────────────────────────────────────────────

/// The state of one `head` pass over one input, fed chunk by chunk.
///
/// After every chunk the bytes handed back so far are exactly
/// `head_output` of everything consumed so far. For "all but the last N"
/// the last `N` records (or bytes) are held back in `pending`; at most that
/// much is ever held.
pub struct HeadStream {
    mode: OutputMode,
    delimiter: u8,
    /// First-N modes: delimiters (or bytes) that may still be output.
    remaining: u64,
    /// All-but-last modes: consumed bytes not yet output.
    pending: VecDeque<u8>,
    /// All-but-last lines: records begun in `pending`.
    held: u64,
    /// All-but-last lines: whether the input so far ends on a boundary.
    at_boundary: bool,
    consumed: Ghost<Seq<u8>>,
}

impl HeadStream {
    /// What is being counted and how.
    pub closed spec fn mode(self) -> OutputMode {
        self.mode
    }

    /// The byte that ends a line.
    pub closed spec fn delimiter(self) -> u8 {
        self.delimiter
    }

    /// All input fed so far.
    pub closed spec fn consumed(self) -> Seq<u8> {
        self.consumed@
    }

    /// All output handed back so far.
    pub open spec fn output(self) -> Seq<u8> {
        head_output(self.mode(), self.delimiter(), self.consumed())
    }

    /// Whether no further input can change the output.
    pub open spec fn finished(self) -> bool {
        match self.mode() {
            OutputMode::Lines(Count::First(n)) => delim_count(self.consumed(), self.delimiter())
                >= n,
            OutputMode::Bytes(Count::First(n)) => self.consumed().len() >= n,
            _ => false,
        }
    }

    /// The input read but not yet released: in the all-but-last modes, the
    /// tail of the input that may still turn out to be among the last `N`
    /// records or bytes; nothing in the other modes.
    pub closed spec fn held_back(self) -> Seq<u8> {
        self.pending@
    }

    /// What is held back is exactly the input not yet output, and never
    /// more than `N` records (or bytes) in the all-but-last modes; nothing
    /// is held in the first-N modes.
    pub open spec fn holds_at_most_n(self) -> bool {
        match self.mode() {
            OutputMode::Lines(Count::AllButLast(n)) => {
                &&& self.output() + self.held_back() == self.consumed()
                &&& record_count(self.held_back(), self.delimiter()) <= n
            },
            OutputMode::Bytes(Count::AllButLast(n)) => {
                &&& self.output() + self.held_back() == self.consumed()
                &&& self.held_back().len() <= n
            },
            _ => self.held_back().len() == 0,
        }
    }

    proof fn lemma_wf_bounds(self)
        requires
            self.wf(),
        ensures
            self.holds_at_most_n(),
    {
        if let OutputMode::Lines(Count::AllButLast(n)) = self.mode {
            if n == 0 {
                lemma_all_lines(self.consumed@, self.delimiter);
                assert(self.consumed@ + self.pending@ =~= self.consumed@);
            }
        }
    }

    /// The internal state agrees with the input consumed.
    pub closed spec fn wf(self) -> bool {
        let d = self.consumed@;
        let delim = self.delimiter;
        match self.mode {
            OutputMode::Lines(Count::First(n)) => self.remaining == sat_sub(
                n as nat,
                delim_count(d, delim),
            ) && self.pending@.len() == 0,
            OutputMode::Bytes(Count::First(n)) => self.remaining == sat_sub(n as nat, d.len())
                && self.pending@.len() == 0,
            OutputMode::Bytes(Count::AllButLast(n)) => {
                &&& all_but_last_bytes(d, n as nat) + self.pending@ == d
                &&& self.pending@.len() == if n < d.len() {
                    n as nat
                } else {
                    d.len()
                }
            },
            OutputMode::Lines(Count::AllButLast(n)) => (n == 0 && self.pending@.len() == 0) || {
                &&& n > 0
                &&& all_but_last_lines(d, n as nat, delim) + self.pending@ == d
                &&& at_record_boundary(all_but_last_lines(d, n as nat, delim), delim)
                &&& self.at_boundary == at_record_boundary(d, delim)
                &&& self.held == record_count(self.pending@, delim)
                &&& self.held == if n < record_count(d, delim) {
                    n as nat
                } else {
                    record_count(d, delim)
                }
            },
        }
    }

    /// A pass that has consumed nothing yet.
    pub fn new(mode: OutputMode, delimiter: u8) -> (s: Self)
        ensures
            s.wf(),
            s.mode() == mode,
            s.delimiter() == delimiter,
            s.consumed() == Seq::<u8>::empty(),
            s.holds_at_most_n(),
    {
        let remaining: u64 = match mode {
            OutputMode::Lines(Count::First(n)) => n,
            OutputMode::Bytes(Count::First(n)) => n,
            _ => 0,
        };
        let s = HeadStream {
            mode,
            delimiter,
            remaining,
            pending: VecDeque::new(),
            held: 0,
            at_boundary: true,
            consumed: Ghost(Seq::empty()),
        };
        proof {
            lemma_first_lines_zero(Seq::<u8>::empty(), delimiter);
            assert(Seq::<u8>::empty().take(0) =~= Seq::<u8>::empty());
            assert(Seq::<u8>::empty() + Seq::<u8>::empty() =~= Seq::<u8>::empty());
            s.lemma_wf_bounds();
        }
        s
    }

    /// Whether no further input can change the output; then the caller may
    /// stop reading.
    pub fn is_done(&self) -> (r: bool)
        requires
            self.wf(),
        ensures
            r == self.finished(),
            r ==> forall|e: Seq<u8>|
                #[trigger] head_output(self.mode(), self.delimiter(), self.consumed() + e)
                    == self.output(),
    {
        let r = match self.mode {
            OutputMode::Lines(Count::First(_)) => self.remaining == 0,
            OutputMode::Bytes(Count::First(_)) => self.remaining == 0,
            _ => false,
        };
        proof {
            if r {
                let d = self.consumed@;
                assert forall|e: Seq<u8>|
                    #[trigger] head_output(self.mode(), self.delimiter(), d + e)
                        == self.output() by {
                    match self.mode {
                        OutputMode::Lines(Count::First(n)) => {
                            lemma_first_lines_saturated(d, e, n as nat, self.delimiter);
                        },
                        OutputMode::Bytes(Count::First(n)) => {
                            assert((d + e).take(n as int) =~= d.take(n as int));
                        },
                        _ => {},
                    }
                }
            }
        }
        r
    }

    /// How many bytes to read next, at most `max`: only as many as can
    /// still be output in the first-N-bytes mode.
    pub fn read_limit(&self, max: usize) -> (r: usize)
        requires
            self.wf(),
        ensures
            r == match self.mode() {
                OutputMode::Bytes(Count::First(n)) => {
                    let left = sat_sub(n as nat, self.consumed().len());
                    if left < max {
                        left
                    } else {
                        max as nat
                    }
                },
                _ => max as nat,
            },
    {
        match self.mode {
            OutputMode::Bytes(Count::First(_)) => {
                if self.remaining < max as u64 {
                    self.remaining as usize
                } else {
                    max
                }
            },
            _ => max,
        }
    }

    /// Consume `chunk`; returns the bytes to write now, by which the output
    /// for everything consumed has grown.
    pub fn feed(&mut self, chunk: &[u8]) -> (out: Vec<u8>)
        requires
            old(self).wf(),
        ensures
            final(self).wf(),
            final(self).mode() == old(self).mode(),
            final(self).delimiter() == old(self).delimiter(),
            final(self).consumed() == old(self).consumed() + chunk@,
            old(self).output() + out@ == final(self).output(),
            final(self).holds_at_most_n(),
    {
        let out = match self.mode {
            OutputMode::Lines(Count::First(n)) => self.feed_first_lines(chunk, n),
            OutputMode::Bytes(Count::First(n)) => self.feed_first_bytes(chunk, n),
            OutputMode::Bytes(Count::AllButLast(n)) => self.feed_last_bytes(chunk, n),
            OutputMode::Lines(Count::AllButLast(n)) => {
                if n == 0 {
                    self.feed_everything(chunk)
                } else {
                    self.feed_last_lines(chunk, n)
                }
            },
        };
        proof {
            self.lemma_wf_bounds();
        }
        out
    }

    fn feed_first_lines(&mut self, chunk: &[u8], n: u64) -> (out: Vec<u8>)
        requires
            old(self).wf(),
            old(self).mode == OutputMode::Lines(Count::First(n)),
        ensures
            final(self).wf(),
            final(self).mode == old(self).mode,
            final(self).delimiter == old(self).delimiter,
            final(self).consumed@ == old(self).consumed@ + chunk@,
            old(self).output() + out@ == final(self).output(),
    {
        let ghost d0 = self.consumed@;
        let delim = self.delimiter;
        let mut out: Vec<u8> = Vec::new();
        let mut i: usize = 0;
        assert(d0 + chunk@.take(0) =~= d0);
        while i < chunk.len() && self.remaining > 0
            invariant
                i <= chunk.len(),
                self.mode == OutputMode::Lines(Count::First(n)),
                self.delimiter == delim,
                self.consumed@ == d0 + chunk@.take(i as int),
                self.wf(),
                first_lines(d0, n as nat, delim) + out@ == first_lines(
                    self.consumed@,
                    n as nat,
                    delim,
                ),
            decreases chunk.len() - i,
        {
            let b: u8 = chunk[i];
            let ghost d = self.consumed@;
            proof {
                lemma_first_lines_push(d, b, n as nat, delim);
                lemma_first_lines_short(d, n as nat, delim);
                lemma_delim_count_push(d, b, delim);
                assert(d0 + chunk@.take(i + 1) =~= d.push(b));
            }
            out.push(b);
            if b == delim {
                self.remaining = self.remaining - 1;
            }
            self.consumed = Ghost(d.push(b));
            i += 1;
        }
        let ghost d = self.consumed@;
        proof {
            let rest = chunk@.skip(i as int);
            assert(d + rest =~= d0 + chunk@);
            if i < chunk.len() {
                lemma_first_lines_saturated(d, rest, n as nat, delim);
                lemma_delim_count_append(d, rest, delim);
            }
        }
        self.consumed = Ghost(d0 + chunk@);
        out
    }

    fn feed_first_bytes(&mut self, chunk: &[u8], n: u64) -> (out: Vec<u8>)
        requires
            old(self).wf(),
            old(self).mode == OutputMode::Bytes(Count::First(n)),
        ensures
            final(self).wf(),
            final(self).mode == old(self).mode,
            final(self).delimiter == old(self).delimiter,
            final(self).consumed@ == old(self).consumed@ + chunk@,
            old(self).output() + out@ == final(self).output(),
    {
        let ghost d0 = self.consumed@;
        let k: usize = if self.remaining < chunk.len() as u64 {
            self.remaining as usize
        } else {
            chunk.len()
        };
        let mut out: Vec<u8> = Vec::new();
        let mut i: usize = 0;
        while i < k
            invariant
                i <= k,
                k <= chunk.len(),
                out@ == chunk@.take(i as int),
            decreases k - i,
        {
            out.push(chunk[i]);
            i += 1;
            assert(out@ =~= chunk@.take(i as int));
        }
        self.remaining = self.remaining - k as u64;
        self.consumed = Ghost(d0 + chunk@);
        proof {
            let d = d0 + chunk@;
            if n < d0.len() {
                assert(d.take(n as int) =~= d0.take(n as int));
            } else if n < d.len() {
                assert(d.take(n as int) =~= d0 + chunk@.take(k as int));
            } else {
                assert(d =~= d0 + chunk@.take(k as int));
            }
        }
        out
    }

    fn feed_last_bytes(&mut self, chunk: &[u8], n: u64) -> (out: Vec<u8>)
        requires
            old(self).wf(),
            old(self).mode == OutputMode::Bytes(Count::AllButLast(n)),
        ensures
            final(self).wf(),
            final(self).mode == old(self).mode,
            final(self).delimiter == old(self).delimiter,
            final(self).consumed@ == old(self).consumed@ + chunk@,
            old(self).output() + out@ == final(self).output(),
    {
        let ghost d0 = self.consumed@;
        let mut out: Vec<u8> = Vec::new();
        let mut i: usize = 0;
        assert(d0 + chunk@.take(0) =~= d0);
        while i < chunk.len()
            invariant
                i <= chunk.len(),
                self.mode == OutputMode::Bytes(Count::AllButLast(n)),
                self.delimiter == old(self).delimiter,
                self.consumed@ == d0 + chunk@.take(i as int),
                self.wf(),
                all_but_last_bytes(d0, n as nat) + out@ == all_but_last_bytes(
                    self.consumed@,
                    n as nat,
                ),
            decreases chunk.len() - i,
        {
            let b: u8 = chunk[i];
            let ghost d = self.consumed@;
            let ghost kept = all_but_last_bytes(d, n as nat);
            assert(d0 + chunk@.take(i + 1) =~= d.push(b));
            self.pending.push_back(b);
            if self.pending.len() as u64 > n {
                let x: u8 = self.pending.pop_front().unwrap();
                out.push(x);
                proof {
                    assert(d.push(b).take(sat_sub(d.len() + 1, n as nat) as int) =~= kept.push(x));
                }
            } else {
                proof {
                    assert(d.push(b).take(sat_sub(d.len() + 1, n as nat) as int) =~= kept);
                }
            }
            self.consumed = Ghost(d.push(b));
            proof {
                assert(all_but_last_bytes(d.push(b), n as nat) + self.pending@ =~= d.push(b));
            }
            i += 1;
        }
        assert(chunk@.take(chunk.len() as int) =~= chunk@);
        out
    }

    fn feed_everything(&mut self, chunk: &[u8]) -> (out: Vec<u8>)
        requires
            old(self).wf(),
            old(self).mode == OutputMode::Lines(Count::AllButLast(0)),
        ensures
            final(self).wf(),
            final(self).mode == old(self).mode,
            final(self).delimiter == old(self).delimiter,
            final(self).consumed@ == old(self).consumed@ + chunk@,
            old(self).output() + out@ == final(self).output(),
    {
        let ghost d0 = self.consumed@;
        let mut out: Vec<u8> = Vec::new();
        let mut i: usize = 0;
        while i < chunk.len()
            invariant
                i <= chunk.len(),
                out@ == chunk@.take(i as int),
            decreases chunk.len() - i,
        {
            out.push(chunk[i]);
            i += 1;
            assert(out@ =~= chunk@.take(i as int));
        }
        assert(out@ =~= chunk@);
        self.consumed = Ghost(d0 + chunk@);
        proof {
            lemma_all_lines(d0, self.delimiter);
            lemma_all_lines(d0 + chunk@, self.delimiter);
        }
        out
    }

    fn feed_last_lines(&mut self, chunk: &[u8], n: u64) -> (out: Vec<u8>)
        requires
            old(self).wf(),
            old(self).mode == OutputMode::Lines(Count::AllButLast(n)),
            n > 0,
        ensures
            final(self).wf(),
            final(self).mode == old(self).mode,
            final(self).delimiter == old(self).delimiter,
            final(self).consumed@ == old(self).consumed@ + chunk@,
            old(self).output() + out@ == final(self).output(),
    {
        let ghost d0 = self.consumed@;
        let delim = self.delimiter;
        let mut out: Vec<u8> = Vec::new();
        let mut i: usize = 0;
        assert(d0 + chunk@.take(0) =~= d0);
        while i < chunk.len()
            invariant
                i <= chunk.len(),
                n > 0,
                self.mode == OutputMode::Lines(Count::AllButLast(n)),
                self.delimiter == delim,
                self.consumed@ == d0 + chunk@.take(i as int),
                self.wf(),
                all_but_last_lines(d0, n as nat, delim) + out@ == all_but_last_lines(
                    self.consumed@,
                    n as nat,
                    delim,
                ),
            decreases chunk.len() - i,
        {
            let b: u8 = chunk[i];
            let ghost before = self.consumed@;
            let mut seg = self.step_last_lines(b, n);
            out.append(&mut seg);
            assert(d0 + chunk@.take(i + 1) =~= before.push(b));
            i += 1;
        }
        assert(chunk@.take(chunk.len() as int) =~= chunk@);
        out
    }

    /// One byte in the all-but-last-`n`-lines mode: when it begins a new
    /// record and `n` records are already held, the oldest held record is
    /// released.
    fn step_last_lines(&mut self, b: u8, n: u64) -> (seg: Vec<u8>)
        requires
            old(self).wf(),
            old(self).mode == OutputMode::Lines(Count::AllButLast(n)),
            n > 0,
        ensures
            final(self).wf(),
            final(self).mode == old(self).mode,
            final(self).delimiter == old(self).delimiter,
            final(self).consumed@ == old(self).consumed@.push(b),
            all_but_last_lines(old(self).consumed@, n as nat, old(self).delimiter) + seg@
                == all_but_last_lines(final(self).consumed@, n as nat, old(self).delimiter),
    {
        let ghost d = self.consumed@;
        let delim = self.delimiter;
        let ghost e = all_but_last_lines(d, n as nat, delim);
        let ghost p0 = self.pending@;
        let mut seg: Vec<u8> = Vec::new();
        proof {
            if p0.len() > 0 {
                assert((e + p0).last() == p0.last());
            } else {
                assert(e + p0 =~= e);
            }
        }
        if self.at_boundary {
            if self.held >= n {
                proof {
                    assert(p0.len() > 0);
                    lemma_delim_count_push(p0.drop_last(), p0.last(), delim);
                    assert(p0.drop_last().push(p0.last()) =~= p0);
                    assert(seg@ + self.pending@ =~= p0);
                }
                let mut found = false;
                while !found
                    invariant
                        self.mode == old(self).mode,
                        self.delimiter == delim,
                        self.consumed@ == d,
                        self.held == old(self).held,
                        self.at_boundary == old(self).at_boundary,
                        seg@ + self.pending@ == p0,
                        delim_count(p0, delim) >= 1,
                        !found ==> delim_count(seg@, delim) == 0,
                        found ==> delim_count(seg@, delim) == 1 && seg@.len() > 0 && seg@.last()
                            == delim,
                    decreases self.pending@.len(),
                {
                    proof {
                        lemma_delim_count_append(seg@, self.pending@, delim);
                    }
                    let ghost s0 = seg@;
                    let ghost q0 = self.pending@;
                    let x: u8 = self.pending.pop_front().unwrap();
                    seg.push(x);
                    proof {
                        lemma_delim_count_push(s0, x, delim);
                        assert(s0.push(x) + self.pending@ =~= s0 + q0);
                    }
                    if x == delim {
                        found = true;
                    }
                }
                proof {
                    let rest = self.pending@;
                    lemma_record_count_split(seg@, rest, delim);
                    if rest.len() > 0 {
                        assert((seg@ + rest).last() == rest.last());
                    }
                }
            } else {
                self.held = self.held + 1;
            }
        }
        let ghost rest = self.pending@;
        self.pending.push_back(b);
        self.at_boundary = b == delim;
        self.consumed = Ghost(d.push(b));
        proof {
            let e1 = e + seg@;
            let p1 = self.pending@;
            lemma_delim_count_push(rest, b, delim);
            lemma_delim_count_push(d, b, delim);
            assert(e1 + p1 =~= d.push(b));
            if seg@.len() > 0 {
                assert(e1.last() == seg@.last());
            } else {
                assert(e1 =~= e);
            }
            lemma_held_back_lines(e1, p1, n as nat, delim);
        }
        seg
    }
}

// ── Processors ──────────────────────────────────────────────────────────────

/// Line-oriented processor: counts records delimited by `delimiter`.
pub struct LineProcessor {
    count: Count,
    delimiter: u8,
}

/// Byte-oriented processor: counts raw bytes.
pub struct ByteProcessor {
    count: Count,
}

impl LineProcessor {
    /// The count it was made with.
    pub closed spec fn count_of(self) -> Count {
        self.count
    }

    /// The delimiter it was made with.
    pub closed spec fn delimiter_of(self) -> u8 {
        self.delimiter
    }

    pub fn new(count: Count, delimiter: u8) -> (p: Self)
        ensures
            p.count_of() == count,
            p.delimiter_of() == delimiter,
    {
        Self { count, delimiter }
    }

    /// A fresh pass over one input.
    pub fn start(&self) -> (s: HeadStream)
        ensures
            s.wf(),
            s.mode() == OutputMode::Lines(self.count_of()),
            s.delimiter() == self.delimiter_of(),
            s.consumed() == Seq::<u8>::empty(),
            s.holds_at_most_n(),
    {
        HeadStream::new(OutputMode::Lines(self.count), self.delimiter)
    }
}

impl ByteProcessor {
    /// The count it was made with.
    pub closed spec fn count_of(self) -> Count {
        self.count
    }

    pub fn new(count: Count) -> (p: Self)
        ensures
            p.count_of() == count,
    {
        Self { count }
    }

    /// A fresh pass over one input (no byte ends a line here; the stream is
    /// given a newline delimiter that the byte modes never read).
    pub fn start(&self) -> (s: HeadStream)
        ensures
            s.wf(),
            s.mode() == OutputMode::Bytes(self.count_of()),
            s.delimiter() == 10u8,
            s.consumed() == Seq::<u8>::empty(),
            s.holds_at_most_n(),
    {
        HeadStream::new(OutputMode::Bytes(self.count), 10u8)
    }
}

/// The strategy for extracting a prefix (or suffix-excluding portion) of a
/// byte stream: by lines or by bytes.
pub enum Processor {
    Lines(LineProcessor),
    Bytes(ByteProcessor),
}

impl Processor {
    /// What it counts and how.
    pub open spec fn mode_of(self) -> OutputMode {
        match self {
            Processor::Lines(p) => OutputMode::Lines(p.count_of()),
            Processor::Bytes(p) => OutputMode::Bytes(p.count_of()),
        }
    }

    /// A fresh pass over one input.
    pub fn start(&self) -> (s: HeadStream)
        ensures
            s.wf(),
            s.mode() == self.mode_of(),
            self matches Processor::Lines(p) ==> s.delimiter() == p.delimiter_of(),
            self is Bytes ==> s.delimiter() == 10u8,
            s.consumed() == Seq::<u8>::empty(),
            s.holds_at_most_n(),
    {
        match self {
            Processor::Lines(p) => p.start(),
            Processor::Bytes(p) => p.start(),
        }
    }
}

} // verus!
