//! Tokenization of one command line into arguments, with the quoting and
//! backslash-escaping rules of the interactive control surface:
//!
//! * all characters are literal except space, tab, quote and backslash;
//! * outside quotes, runs of spaces and tabs separate arguments;
//! * a quote toggles quoted mode unless escaped; inside quotes a doubled
//!   quote is one literal quote;
//! * a run of backslashes followed by a quote is halved (rounding down),
//!   and the quote is literal when the run is odd; backslashes not followed
//!   by a quote are all literal.
//!
//! The first returned argument is always empty, standing in for the
//! program name of a conventional argument vector.

use vstd::prelude::*;

verus! {

/// Relies on String::push: appends the given character.
pub assume_specification[ String::push ](s: &mut String, c: char)
    ensures
        final(s)@ == old(s)@.push(c),
;

/// Whether the character separates arguments outside quotes.
pub open spec fn is_blank(c: char) -> bool {
    c == ' ' || c == '\t'
}

/// `n` copies of the character.
pub open spec fn repeat_ch(c: char, n: nat) -> Seq<char> {
    Seq::new(n, |i: int| c)
}

/// End of input: pending backslashes become literal, and the final
/// argument is emitted if anything is in it or a quote is still open.
pub open spec fn spec_parse_finish(
    cur: Seq<char>,
    bs: nat,
    in_quotes: bool,
    acc: Seq<Seq<char>>,
) -> Seq<Seq<char>> {
    let curf = cur + repeat_ch('\\', bs);
    if curf.len() > 0 || in_quotes {
        acc.push(curf)
    } else {
        acc
    }
}

/// One step of the tokenizer per character of `s`. `bs` counts pending
/// backslashes, `cur` is the argument being built, `sep` records that the
/// last character ended an argument (so further blanks are skipped), and
/// `acc` holds the finished arguments.
pub open spec fn spec_parse_rest(
    s: Seq<char>,
    bs: nat,
    cur: Seq<char>,
    in_quotes: bool,
    sep: bool,
    acc: Seq<Seq<char>>,
) -> Seq<Seq<char>>
    decreases s.len(), 1int,
{
    if s.len() == 0 {
        spec_parse_finish(cur, bs, in_quotes, acc)
    } else {
        let w = s[0];
        let rest = s.drop_first();
        if w == '\\' {
            spec_parse_rest(rest, bs + 1, cur, in_quotes, false, acc)
        } else if w == '"' {
            if bs > 0 && bs % 2 == 1 {
                // odd run: halve it and take the quote literally
                spec_parse_rest(rest, 0, (cur + repeat_ch('\\', bs / 2)).push('"'), in_quotes, false, acc)
            } else {
                // even run (possibly none): halve it, the quote acts
                spec_parse_quote(s, cur + repeat_ch('\\', bs / 2), in_quotes, acc)
            }
        } else {
            let cur2 = cur + repeat_ch('\\', bs);
            if is_blank(w) && !in_quotes {
                if sep {
                    spec_parse_rest(rest, bs, cur, false, true, acc)
                } else {
                    spec_parse_rest(rest, 0, Seq::empty(), false, true, acc.push(cur2))
                }
            } else {
                spec_parse_rest(rest, 0, cur2.push(w), in_quotes, false, acc)
            }
        }
    }
}

/// An acting (unescaped) quote at `s[0]`: it opens quoted mode, closes it,
/// doubles into a literal quote, or — at the very end of the input while
/// quoted — emits the final argument.
pub open spec fn spec_parse_quote(
    s: Seq<char>,
    cur: Seq<char>,
    in_quotes: bool,
    acc: Seq<Seq<char>>,
) -> Seq<Seq<char>>
    decreases s.len(), 0int,
{
    if s.len() == 0 {
        acc
    } else {
        let rest = s.drop_first();
        if in_quotes {
            if rest.len() == 0 {
                acc.push(cur)
            } else if rest[0] == '"' {
                spec_parse_rest(rest.drop_first(), 0, cur.push('"'), true, false, acc)
            } else {
                spec_parse_rest(rest, 0, cur, false, false, acc)
            }
        } else {
            spec_parse_rest(rest, 0, cur, true, false, acc)
        }
    }
}

/// The arguments of one command line, leading with the conventional empty
/// first argument.
pub open spec fn spec_parse_cmd_line(s: Seq<char>) -> Seq<Seq<char>> {
    spec_parse_rest(s, 0, Seq::empty(), false, true, seq![Seq::empty()])
}

/// Appends `n` backslashes.
fn push_backslashes(cur: &mut String, n: usize)
    ensures
        final(cur)@ == old(cur)@ + repeat_ch('\\', n as nat),
{
    let mut j: usize = 0;
    proof {
        assert(cur@ =~= old(cur)@ + repeat_ch('\\', 0));
    }
    while j < n
        invariant
            0 <= j <= n,
            cur@ == old(cur)@ + repeat_ch('\\', j as nat),
        decreases n - j,
    {
        cur.push('\\');
        proof {
            assert(cur@ =~= old(cur)@ + repeat_ch('\\', (j + 1) as nat));
        }
        j += 1;
    }
}

/// Count of consecutive characters of `s`, from `start`, satisfying the
/// predicate: every skipped character satisfied it, and the character the
/// scan stopped on (if any) did not.
pub fn advance_while<F: Fn(char) -> bool>(s: &str, start: usize, pred: F) -> (n: usize)
    requires
        start <= s@.len(),
        forall|c: char| #[trigger] pred.requires((c,)),
    ensures
        start + n <= s@.len(),
        forall|j: int| start <= j < start + n ==> call_ensures(pred, (s@[j],), true),
        start + n < s@.len() ==> call_ensures(pred, (s@[start + n],), false),
{
    let len = s.unicode_len();
    let mut i: usize = start;
    while i < len
        invariant
            start <= i <= len,
            len == s@.len(),
            forall|c: char| #[trigger] pred.requires((c,)),
            forall|j: int| start <= j < i ==> call_ensures(pred, (s@[j],), true),
        decreases len - i,
    {
        let c = s.get_char(i);
        if !pred(c) {
            return i - start;
        }
        i += 1;
    }
    len - start
}

/// Tokenizes one command line; the runtime counterpart of
/// `spec_parse_cmd_line`.
pub fn parse_lp_cmd_line(code_units: &String) -> (r: Vec<String>)
    ensures
        r.deep_view() == spec_parse_cmd_line(code_units@),
{
    let s = code_units.as_str();
    let n = s.unicode_len();
    let mut i: usize = 0;
    let mut bs: usize = 0;
    let mut cur = String::new();
    let mut in_quotes = false;
    let mut sep = true;
    let mut acc: Vec<String> = Vec::new();
    acc.push(String::new());
    proof {
        assert(acc.deep_view() =~= seq![Seq::<char>::empty()]);
        assert(code_units@.skip(0) =~= code_units@);
    }
    while i < n
        invariant
            0 <= i <= n,
            n == code_units@.len(),
            s@ == code_units@,
            bs <= i,
            spec_parse_cmd_line(code_units@) == spec_parse_rest(
                code_units@.skip(i as int),
                bs as nat,
                cur@,
                in_quotes,
                sep,
                acc.deep_view(),
            ),
        decreases n - i,
    {
        let ghost tail = code_units@.skip(i as int);
        let ghost bs0: nat = bs as nat;
        let ghost cur0 = cur@;
        let ghost iq0 = in_quotes;
        let ghost sep0 = sep;
        let ghost acc0 = acc.deep_view();
        let w = s.get_char(i);
        proof {
            assert(tail[0] == w);
            assert(tail.drop_first() =~= code_units@.skip(i as int + 1));
        }
        if w == '\\' {
            bs += 1;
            sep = false;
            proof {
                assert(spec_parse_rest(tail, bs0, cur0, iq0, sep0, acc0) == spec_parse_rest(
                    code_units@.skip(i as int + 1),
                    bs as nat,
                    cur@,
                    in_quotes,
                    sep,
                    acc.deep_view(),
                ));
            }
            i += 1;
        } else if w == '"' {
            if bs > 0 && bs % 2 == 1 {
                push_backslashes(&mut cur, bs / 2);
                cur.push('"');
                bs = 0;
                sep = false;
                proof {
                    assert(cur@ == (cur0 + repeat_ch('\\', bs0 / 2)).push('"'));
                    assert(spec_parse_rest(tail, bs0, cur0, iq0, sep0, acc0) == spec_parse_rest(
                        code_units@.skip(i as int + 1),
                        bs as nat,
                        cur@,
                        in_quotes,
                        sep,
                        acc.deep_view(),
                    ));
                }
                i += 1;
            } else {
                push_backslashes(&mut cur, bs / 2);
                bs = 0;
                proof {
                    assert(cur@ == cur0 + repeat_ch('\\', bs0 / 2));
                    assert(spec_parse_rest(tail, bs0, cur0, iq0, sep0, acc0) == spec_parse_quote(
                        tail,
                        cur@,
                        iq0,
                        acc0,
                    ));
                }
                if in_quotes {
                    if i + 1 >= n {
                        proof {
                            assert(tail.drop_first().len() == 0);
                        }
                        let ghost acc_pre = acc.deep_view();
                        let ghost flushed = cur@;
                        let done = cur;
                        acc.push(done);
                        proof {
                            assert(acc.deep_view() =~= acc_pre.push(flushed));
                        }
                        return acc;
                    } else {
                        let w2 = s.get_char(i + 1);
                        proof {
                            assert(tail.drop_first()[0] == w2);
                            assert(tail.drop_first().drop_first() =~= code_units@.skip(
                                i as int + 2,
                            ));
                        }
                        if w2 == '"' {
                            cur.push('"');
                            sep = false;
                            proof {
                                assert(spec_parse_rest(tail, bs0, cur0, iq0, sep0, acc0)
                                    == spec_parse_rest(
                                    code_units@.skip(i as int + 2),
                                    bs as nat,
                                    cur@,
                                    in_quotes,
                                    sep,
                                    acc.deep_view(),
                                ));
                            }
                            i += 2;
                        } else {
                            in_quotes = false;
                            sep = false;
                            proof {
                                assert(spec_parse_rest(tail, bs0, cur0, iq0, sep0, acc0)
                                    == spec_parse_rest(
                                    code_units@.skip(i as int + 1),
                                    bs as nat,
                                    cur@,
                                    in_quotes,
                                    sep,
                                    acc.deep_view(),
                                ));
                            }
                            i += 1;
                        }
                    }
                } else {
                    in_quotes = true;
                    sep = false;
                    proof {
                        assert(spec_parse_rest(tail, bs0, cur0, iq0, sep0, acc0)
                            == spec_parse_rest(
                            code_units@.skip(i as int + 1),
                            bs as nat,
                            cur@,
                            in_quotes,
                            sep,
                            acc.deep_view(),
                        ));
                    }
                    i += 1;
                }
            }
        } else if (w == ' ' || w == '\t') && !in_quotes {
            if sep {
                proof {
                    assert(spec_parse_rest(tail, bs0, cur0, iq0, sep0, acc0) == spec_parse_rest(
                        code_units@.skip(i as int + 1),
                        bs as nat,
                        cur@,
                        in_quotes,
                        sep,
                        acc.deep_view(),
                    ));
                }
                i += 1;
            } else {
                push_backslashes(&mut cur, bs);
                bs = 0;
                let ghost acc_pre = acc.deep_view();
                let ghost flushed = cur@;
                let done = cur;
                acc.push(done);
                cur = String::new();
                sep = true;
                proof {
                    assert(acc.deep_view() =~= acc_pre.push(flushed));
                    assert(cur@ =~= Seq::<char>::empty());
                    assert(flushed == cur0 + repeat_ch('\\', bs0));
                    assert(spec_parse_rest(tail, bs0, cur0, iq0, sep0, acc0) == spec_parse_rest(
                        code_units@.skip(i as int + 1),
                        bs as nat,
                        cur@,
                        in_quotes,
                        sep,
                        acc.deep_view(),
                    ));
                }
                i += 1;
            }
        } else {
            push_backslashes(&mut cur, bs);
            bs = 0;
            cur.push(w);
            sep = false;
            proof {
                assert(cur@ == (cur0 + repeat_ch('\\', bs0)).push(w));
                assert(spec_parse_rest(tail, bs0, cur0, iq0, sep0, acc0) == spec_parse_rest(
                    code_units@.skip(i as int + 1),
                    bs as nat,
                    cur@,
                    in_quotes,
                    sep,
                    acc.deep_view(),
                ));
            }
            i += 1;
        }
    }
    proof {
        assert(code_units@.skip(n as int) =~= Seq::<char>::empty());
    }
    push_backslashes(&mut cur, bs);
    if cur.unicode_len() > 0 || in_quotes {
        let ghost acc_pre = acc.deep_view();
        let ghost flushed = cur@;
        let done = cur;
        acc.push(done);
        proof {
            assert(acc.deep_view() =~= acc_pre.push(flushed));
        }
        return acc;
    }
    acc
}

} // verus!
