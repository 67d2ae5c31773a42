//! Character and string helpers shared by the renderer and the lints:
//! decimal formatting, repeated characters, whitespace classification,
//! and splitting file content into physical lines.

use vstd::prelude::*;

verus! {

/// The views of a vector of strings.
pub open spec fn views_of(v: Seq<String>) -> Seq<Seq<char>> {
    v.map_values(|s: String| s@)
}

/// Whitespace as the lints understand it: the characters with the
/// Unicode `White_Space` property. Columns are counted in Unicode
/// scalar values throughout, so this classification and the caret
/// underline always agree.
pub open spec fn is_space_char(c: char) -> bool {
    c == ' ' || c == '\t' || c == '\n' || c == '\r' || c == '\u{b}' || c == '\u{c}' || c
        == '\u{85}' || c == '\u{a0}' || c == '\u{1680}' || ('\u{2000}' <= c && c <= '\u{200a}')
        || c == '\u{2028}' || c == '\u{2029}' || c == '\u{202f}' || c == '\u{205f}' || c
        == '\u{3000}'
}

/// Decides `is_space_char`.
pub fn is_space(c: char) -> (r: bool)
    ensures
        r == is_space_char(c),
{
    c == ' ' || c == '\t' || c == '\n' || c == '\r' || c == '\u{b}' || c == '\u{c}' || c
        == '\u{85}' || c == '\u{a0}' || c == '\u{1680}' || ('\u{2000}' <= c && c <= '\u{200a}')
        || c == '\u{2028}' || c == '\u{2029}' || c == '\u{202f}' || c == '\u{205f}' || c
        == '\u{3000}'
}

/// The character for a single decimal digit.
pub open spec fn dec_digit_char(d: nat) -> char
    recommends
        d < 10,
{
    if d == 0 {
        '0'
    } else if d == 1 {
        '1'
    } else if d == 2 {
        '2'
    } else if d == 3 {
        '3'
    } else if d == 4 {
        '4'
    } else if d == 5 {
        '5'
    } else if d == 6 {
        '6'
    } else if d == 7 {
        '7'
    } else if d == 8 {
        '8'
    } else {
        '9'
    }
}

/// The decimal digits of `n`, most significant first, with no leading
/// zeros (`0` itself is the single digit `0`).
pub open spec fn dec_digits(n: nat) -> Seq<char>
    decreases n,
{
    if n < 10 {
        seq![dec_digit_char(n)]
    } else {
        dec_digits(n / 10).push(dec_digit_char(n % 10))
    }
}

/// The width of `n` written in decimal; at least 1.
pub open spec fn dec_width(n: nat) -> nat {
    dec_digits(n).len()
}

/// The canvas prefix is never empty: every number has at least one
/// decimal digit.
pub proof fn lemma_dec_width_at_least_one(n: nat)
    ensures
        dec_width(n) >= 1,
    decreases n,
{
    if n >= 10 {
        lemma_dec_width_at_least_one(n / 10);
    }
}

/// A one-character string for the decimal digit `d`.
fn dec_digit_str(d: usize) -> (s: &'static str)
    requires
        d < 10,
    ensures
        s@ == seq![dec_digit_char(d as nat)],
{
    proof {
        reveal_strlit("0");
        reveal_strlit("1");
        reveal_strlit("2");
        reveal_strlit("3");
        reveal_strlit("4");
        reveal_strlit("5");
        reveal_strlit("6");
        reveal_strlit("7");
        reveal_strlit("8");
        reveal_strlit("9");
    }
    let s = if d == 0 {
        "0"
    } else if d == 1 {
        "1"
    } else if d == 2 {
        "2"
    } else if d == 3 {
        "3"
    } else if d == 4 {
        "4"
    } else if d == 5 {
        "5"
    } else if d == 6 {
        "6"
    } else if d == 7 {
        "7"
    } else if d == 8 {
        "8"
    } else {
        "9"
    };
    s
}

/// Writes `n` in decimal, matching `dec_digits`.
pub fn fmt_usize(n: usize) -> (s: String)
    ensures
        s@ == dec_digits(n as nat),
    decreases n,
{
    if n < 10 {
        String::from_str(dec_digit_str(n))
    } else {
        let s = fmt_usize(n / 10).concat(dec_digit_str(n % 10));
        proof {
            assert(s@ =~= dec_digits(n as nat));
        }
        s
    }
}

/// `n` copies of the character `c`.
pub open spec fn repeat_char(c: char, n: nat) -> Seq<char> {
    Seq::new(n, |i: int| c)
}

/// A run of `n` spaces.
pub fn spaces(n: usize) -> (s: String)
    ensures
        s@ == repeat_char(' ', n as nat),
{
    let mut s = String::new();
    let mut i: usize = 0;
    while i < n
        invariant
            i <= n,
            s@ =~= repeat_char(' ', i as nat),
        decreases n - i,
    {
        s.append(" ");
        i = i + 1;
        proof {
            reveal_strlit(" ");
            assert(s@ =~= repeat_char(' ', i as nat));
        }
    }
    s
}

/// A caret underline of width `n`.
pub fn carets(n: usize) -> (s: String)
    ensures
        s@ == repeat_char('^', n as nat),
{
    let mut s = String::new();
    let mut i: usize = 0;
    while i < n
        invariant
            i <= n,
            s@ =~= repeat_char('^', i as nat),
        decreases n - i,
    {
        s.append("^");
        i = i + 1;
        proof {
            reveal_strlit("^");
            assert(s@ =~= repeat_char('^', i as nat));
        }
    }
    s
}

/// `n` copies of the string `u`, joined.
pub open spec fn repeat_seq(u: Seq<char>, n: nat) -> Seq<char>
    decreases n,
{
    if n == 0 {
        Seq::empty()
    } else {
        repeat_seq(u, (n - 1) as nat) + u
    }
}

/// Joins `n` copies of `unit`, matching `repeat_seq`.
pub fn repeat_str(unit: &str, n: usize) -> (s: String)
    ensures
        s@ == repeat_seq(unit@, n as nat),
{
    let mut s = String::new();
    let mut i: usize = 0;
    while i < n
        invariant
            i <= n,
            s@ =~= repeat_seq(unit@, i as nat),
        decreases n - i,
    {
        s.append(unit);
        i = i + 1;
        proof {
            assert(s@ =~= repeat_seq(unit@, i as nat));
        }
    }
    s
}

/// The index of the first line feed in `s`, or `s.len()` if there is
/// none.
pub open spec fn first_nl(s: Seq<char>) -> nat
    decreases s.len(),
{
    if s.len() == 0 {
        0
    } else if s[0] == '\n' {
        0
    } else {
        1 + first_nl(s.drop_first())
    }
}

/// If no line feed stands before `m` and `m` is a line feed or the end,
/// then `m` is the first line feed.
pub proof fn lemma_first_nl_is(s: Seq<char>, m: int)
    requires
        0 <= m <= s.len(),
        forall|k: int| 0 <= k < m ==> s[k] != '\n',
        m == s.len() || s[m] == '\n',
    ensures
        first_nl(s) == m,
    decreases s.len(),
{
    if s.len() > 0 && m > 0 {
        lemma_first_nl_is(s.drop_first(), m - 1);
    }
}

/// Drops a carriage return that ends a line, as part of a `\r\n` line
/// ending.
pub open spec fn strip_cr(line: Seq<char>) -> Seq<char> {
    if line.len() > 0 && line.last() == '\r' {
        line.drop_last()
    } else {
        line
    }
}

/// The physical lines of `s`: split at each line feed, with a carriage
/// return directly before a line feed dropped. A final line ending is
/// optional and produces no trailing empty line; a lone carriage return
/// stays inside its line.
pub open spec fn lines_of(s: Seq<char>) -> Seq<Seq<char>>
    decreases s.len(),
{
    if s.len() == 0 {
        Seq::empty()
    } else {
        let i = first_nl(s);
        if i >= s.len() {
            seq![s]
        } else {
            seq![strip_cr(s.take(i as int))] + lines_of(s.skip(i + 1 as int))
        }
    }
}

/// Splits `s` into its physical lines, matching `lines_of`.
pub fn split_lines(s: &str) -> (lines: Vec<String>)
    ensures
        views_of(lines@) == lines_of(s@),
{
    let n = s.unicode_len();
    let mut lines: Vec<String> = Vec::new();
    let mut start: usize = 0;
    proof {
        assert(s@.skip(0) =~= s@);
        assert(views_of(lines@) =~= Seq::<Seq<char>>::empty());
    }
    while start < n
        invariant
            0 <= start <= n,
            n == s@.len(),
            lines_of(s@) =~= views_of(lines@) + lines_of(s@.skip(start as int)),
        decreases n - start,
    {
        let ghost prev = start as int;
        let ghost rest = s@.skip(prev);
        let ghost lines0 = lines@;
        // Find the first line feed at or after `start`.
        let mut j: usize = start;
        while j < n && !(s.get_char(j) == '\n')
            invariant
                start <= j <= n,
                n == s@.len(),
                forall|k: int| start <= k < j ==> s@[k] != '\n',
            decreases n - j,
        {
            j = j + 1;
        }
        proof {
            assert(forall|k: int| 0 <= k < j - prev ==> rest[k] != '\n');
            assert(j < n ==> rest[j - prev] == '\n');
            lemma_first_nl_is(rest, j - prev);
        }
        if j < n {
            // The line ends with a line feed; drop a carriage return
            // directly before it.
            let end = if j > start && s.get_char(j - 1) == '\r' {
                j - 1
            } else {
                j
            };
            let line = String::from_str(s.substring_char(start, end));
            proof {
                assert(rest.take(j - prev) =~= s@.subrange(prev, j as int));
                if j > prev && s@[j - 1] == '\r' {
                    assert(rest.take(j - prev).last() == '\r');
                    assert(strip_cr(rest.take(j - prev)) =~= s@.subrange(prev, j - 1));
                } else {
                    assert(strip_cr(rest.take(j - prev)) =~= s@.subrange(prev, j as int));
                }
                assert(line@ =~= strip_cr(rest.take(j - prev)));
            }
            lines.push(line);
            start = j + 1;
            proof {
                assert(rest.skip(j - prev + 1) =~= s@.skip(start as int));
                assert(lines_of(rest) =~= seq![strip_cr(rest.take(j - prev))] + lines_of(
                    rest.skip(j - prev + 1),
                ));
                assert(views_of(lines@) =~= views_of(lines0).push(strip_cr(
                    rest.take(j - prev),
                )));
                assert(lines_of(s@) =~= views_of(lines@) + lines_of(s@.skip(start as int)));
            }
        } else {
            // No trailing line ending: the rest is one final line.
            let line = String::from_str(s.substring_char(start, n));
            proof {
                assert(line@ =~= rest);
            }
            lines.push(line);
            start = n;
            proof {
                assert(lines_of(rest) =~= seq![rest]);
                assert(s@.skip(n as int).len() == 0);
                assert(lines_of(s@.skip(n as int)) =~= Seq::<Seq<char>>::empty());
                assert(views_of(lines@) =~= views_of(lines0).push(rest));
                assert(lines_of(s@) =~= views_of(lines@) + lines_of(s@.skip(start as int)));
            }
        }
    }
    proof {
        assert(s@.skip(n as int).len() == 0);
        assert(lines_of(s@.skip(n as int)) =~= Seq::<Seq<char>>::empty());
        assert(views_of(lines@) =~= lines_of(s@));
    }
    lines
}

} // verus!
