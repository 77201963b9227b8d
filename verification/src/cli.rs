//! Command-line arguments: their parsed form and the legacy `-NUM` rewrite.

use vstd::prelude::*;

use crate::text::{is_ascii_digit, is_digit, str_eq};

verus! {

/// The parsed command line of `head`.
///
/// `bytes` and `lines` are the raw `[-]NUM` strings of `-c` and `-n`; at
/// most one of them is given. `files` lists the inputs (`-` is standard
/// input).
#[derive(Debug)]
pub struct Cli {
    pub bytes: Option<String>,
    pub lines: Option<String>,
    pub quiet: bool,
    pub verbose: bool,
    pub zero_terminated: bool,
    pub files: Vec<String>,
}

/// `-` followed by one or more ASCII digits: the legacy `-NUM` shorthand.
pub open spec fn is_count_shorthand(a: Seq<char>) -> bool {
    &&& a.len() >= 2
    &&& a[0] == '-'
    &&& forall|j: int| 1 <= j < a.len() ==> is_digit(#[trigger] a[j])
}

/// The rewrite of the arguments after the program name: `-NUM` becomes
/// `-n NUM`; the value after a separate `-n` or `-c` is passed through
/// untouched; after `--` everything is passed through.
pub open spec fn rewrite_args(rest: Seq<Seq<char>>) -> Seq<Seq<char>>
    decreases rest.len(),
{
    if rest.len() == 0 {
        rest
    } else if rest[0] == "--"@ {
        rest
    } else if is_count_shorthand(rest[0]) {
        seq!["-n"@, rest[0].drop_first()] + rewrite_args(rest.drop_first())
    } else if rest[0] == "-n"@ || rest[0] == "-c"@ {
        if rest.len() >= 2 {
            seq![rest[0], rest[1]] + rewrite_args(rest.skip(2))
        } else {
            rest
        }
    } else {
        seq![rest[0]] + rewrite_args(rest.drop_first())
    }
}

/// The whole rewrite: the program name is kept, the rest is rewritten.
pub open spec fn preprocessed(args: Seq<Seq<char>>) -> Seq<Seq<char>> {
    if args.len() == 0 {
        args
    } else {
        seq![args[0]] + rewrite_args(args.drop_first())
    }
}

/// The characters of each string.
pub open spec fn views(v: Seq<String>) -> Seq<Seq<char>> {
    v.map_values(|s: String| s@)
}

fn is_shorthand(a: &str) -> (r: bool)
    ensures
        r == is_count_shorthand(a@),
{
    let n: usize = a.unicode_len();
    if n < 2 || a.get_char(0) != '-' {
        return false;
    }
    let mut i: usize = 1;
    while i < n
        invariant
            n == a@.len(),
            1 <= i <= n,
            forall|j: int| 1 <= j < i ==> is_digit(#[trigger] a@[j]),
        decreases n - i,
    {
        if !is_ascii_digit(a.get_char(i)) {
            return false;
        }
        i += 1;
    }
    true
}

/// Transform the raw argument list so that the legacy `-NUM` shorthand
/// (e.g. `head -5 file`) is converted to `head -n 5 file` before the
/// argument parser sees the arguments.
///
/// This also avoids rewriting the *value* of a `-n` or `-c` option when that
/// value itself starts with a digit (normal) or with `-` followed by digits
/// (the "all but last N" form).
pub fn preprocess_args(args: Vec<String>) -> (r: Vec<String>)
    ensures
        views(r@) == preprocessed(views(args@)),
{
    let ghost a = views(args@);
    let len: usize = args.len();
    let mut result: Vec<String> = Vec::new();
    if len == 0 {
        assert(views(result@) =~= preprocessed(a));
        return result;
    }
    result.push(args[0].clone());
    let mut i: usize = 1;
    assert(views(result@) =~= seq![a[0]]);
    assert(a.drop_first() =~= a.skip(1));
    while i < len
        invariant
            len == args@.len(),
            a == views(args@),
            1 <= i <= len,
            views(result@) + rewrite_args(a.skip(i as int)) == preprocessed(a),
        decreases len - i,
    {
        let ghost before = views(result@);
        let arg = &args[i];
        assert(a.skip(i as int)[0] == arg@);
        if str_eq(arg.as_str(), "--") {
            let mut j: usize = i;
            while j < len
                invariant
                    len == args@.len(),
                    a == views(args@),
                    i <= j <= len,
                    views(result@) == before + a.subrange(i as int, j as int),
                decreases len - j,
            {
                let ghost r0 = result@;
                result.push(args[j].clone());
                assert(views(result@) =~= views(r0).push(a[j as int]));
                j += 1;
                assert(views(result@) =~= before + a.subrange(i as int, j as int));
            }
            assert(a.subrange(i as int, len as int) =~= a.skip(i as int));
            assert(a.skip(len as int) =~= Seq::<Seq<char>>::empty());
            assert(views(result@) + rewrite_args(a.skip(len as int)) =~= views(result@));
            i = len;
        } else if is_shorthand(arg.as_str()) {
            let digits = arg.as_str().substring_char(1, arg.as_str().unicode_len());
            result.push(String::from_str("-n"));
            result.push(digits.to_owned());
            assert(arg@.drop_first() =~= arg@.subrange(1, arg@.len() as int));
            assert(a.skip(i as int).drop_first() =~= a.skip(i + 1));
            assert(views(result@) =~= before + seq!["-n"@, arg@.drop_first()]);
            i += 1;
        } else if str_eq(arg.as_str(), "-n") || str_eq(arg.as_str(), "-c") {
            result.push(arg.clone());
            if i + 1 < len {
                result.push(args[i + 1].clone());
                assert(a.skip(i as int)[1] == a[i + 1]);
                assert(a.skip(i as int).skip(2) =~= a.skip(i + 2));
                assert(views(result@) =~= before + seq![a[i as int], a[i + 1]]);
                i += 2;
            } else {
                assert(a.skip(i as int) =~= seq![a[i as int]]);
                assert(a.skip(len as int) =~= Seq::<Seq<char>>::empty());
                assert(views(result@) =~= before + seq![a[i as int]]);
                i = len;
            }
        } else {
            result.push(arg.clone());
            assert(a.skip(i as int).drop_first() =~= a.skip(i + 1));
            assert(views(result@) =~= before + seq![arg@]);
            i += 1;
        }
    }
    assert(a.skip(len as int) =~= Seq::<Seq<char>>::empty());
    assert(views(result@) + Seq::<Seq<char>>::empty() =~= views(result@));
    result
}

proof fn lemma_option_words()
    ensures
        "-n"@ != "--"@,
        "-c"@ != "--"@,
        !is_count_shorthand("-n"@),
        !is_count_shorthand("-c"@),
{
    reveal_strlit("-n");
    reveal_strlit("-c");
    reveal_strlit("--");
    assert("-n"@[1] == 'n');
    assert("-c"@[1] == 'c');
    assert("-n"@[1] != "--"@[1]);
    assert("-c"@[1] != "--"@[1]);
}

/// Rewriting twice is rewriting once: the output of the rewrite holds no
/// `-NUM` shorthand left for a second pass to change.
pub proof fn lemma_rewrite_idempotent(rest: Seq<Seq<char>>)
    ensures
        rewrite_args(rewrite_args(rest)) == rewrite_args(rest),
    decreases rest.len(),
{
    lemma_option_words();
    if rest.len() == 0 || rest[0] == "--"@ {
    } else if is_count_shorthand(rest[0]) {
        let tail = rewrite_args(rest.drop_first());
        let out = seq!["-n"@, rest[0].drop_first()] + tail;
        lemma_rewrite_idempotent(rest.drop_first());
        assert(out.skip(2) =~= tail);
        assert(out[0] == "-n"@);
    } else if rest[0] == "-n"@ || rest[0] == "-c"@ {
        if rest.len() >= 2 {
            let tail = rewrite_args(rest.skip(2));
            let out = seq![rest[0], rest[1]] + tail;
            lemma_rewrite_idempotent(rest.skip(2));
            assert(out.skip(2) =~= tail);
            assert(out[0] == rest[0] && out[1] == rest[1]);
        }
    } else {
        let tail = rewrite_args(rest.drop_first());
        let out = seq![rest[0]] + tail;
        lemma_rewrite_idempotent(rest.drop_first());
        assert(out.drop_first() =~= tail);
        assert(out[0] == rest[0]);
    }
}

/// Preprocessing twice is preprocessing once, and the program name is kept.
pub proof fn lemma_preprocess_idempotent(args: Seq<Seq<char>>)
    ensures
        preprocessed(preprocessed(args)) == preprocessed(args),
        args.len() > 0 ==> preprocessed(args).len() > 0 && preprocessed(args)[0] == args[0],
{
    if args.len() > 0 {
        let out = preprocessed(args);
        lemma_rewrite_idempotent(args.drop_first());
        assert(out.drop_first() =~= rewrite_args(args.drop_first()));
        assert(out[0] == args[0]);
    }
}

/// `-` followed by any number (one or more) of ASCII digits is rewritten to
/// `-n` and those digits, whatever follows.
pub proof fn lemma_shorthand_rewritten(ds: Seq<char>, rest: Seq<Seq<char>>)
    requires
        ds.len() >= 1,
        forall|j: int| 0 <= j < ds.len() ==> is_digit(#[trigger] ds[j]),
    ensures
        rewrite_args(seq![seq!['-'] + ds] + rest) == seq![seq!['-', 'n'], ds] + rewrite_args(
            rest,
        ),
        rewrite_args(seq![seq!['-'] + ds] + rest) == seq!["-n"@, ds] + rewrite_args(rest),
{
    reveal_strlit("--");
    reveal_strlit("-n");
    let a = seq!['-'] + ds;
    let all = seq![a] + rest;
    assert(all[0] == a);
    assert(a[1] == ds[0]);
    assert(a != "--"@) by {
        assert("--"@[1] == '-');
    }
    assert forall|j: int| 1 <= j < a.len() implies is_digit(#[trigger] a[j]) by {
        assert(a[j] == ds[j - 1]);
    }
    assert(is_count_shorthand(a));
    assert(a.drop_first() =~= ds);
    assert(all.drop_first() =~= rest);
    assert(seq!['-', 'n'] =~= "-n"@);
}

/// The word after a separate `-n` or `-c` is passed through untouched,
/// whatever it looks like.
pub proof fn lemma_option_value_untouched(opt: Seq<char>, value: Seq<char>, rest: Seq<Seq<char>>)
    requires
        opt == "-n"@ || opt == "-c"@,
    ensures
        rewrite_args(seq![opt, value] + rest) == seq![opt, value] + rewrite_args(rest),
{
    lemma_option_words();
    let all = seq![opt, value] + rest;
    assert(all[0] == opt);
    assert(all[1] == value);
    assert(all.skip(2) =~= rest);
}

/// From `--` on, every argument is passed through unchanged.
pub proof fn lemma_after_double_dash(rest: Seq<Seq<char>>)
    ensures
        rewrite_args(seq!["--"@] + rest) == seq!["--"@] + rest,
{
    assert((seq!["--"@] + rest)[0] == "--"@);
}

/// An argument that does not start with `-` is passed through and the rest
/// is rewritten after it.
pub proof fn lemma_plain_argument_kept(a: Seq<char>, rest: Seq<Seq<char>>)
    requires
        a.len() == 0 || a[0] != '-',
    ensures
        rewrite_args(seq![a] + rest) == seq![a] + rewrite_args(rest),
{
    reveal_strlit("--");
    reveal_strlit("-n");
    reveal_strlit("-c");
    let all = seq![a] + rest;
    assert(all[0] == a);
    assert(a != "--"@ && a != "-n"@ && a != "-c"@) by {
        assert("--"@[0] == '-' && "-n"@[0] == '-' && "-c"@[0] == '-');
    }
    assert(all.drop_first() =~= rest);
}

} // verus!
