//! Splitting a text into lines.
//!
//! A line break is either a lone `'\n'` or the pair `"\r\n"`; a line never
//! includes its terminator. The final line needs no terminator, and a text
//! that ends with a terminator has no extra empty final line. A `'\r'` not
//! followed by `'\n'` is an ordinary character and stays in its line.

use vstd::prelude::*;
use vstd::utf8::is_ascii_chars;

verus! {

/// The lines of a character sequence, in order, each without its terminator.
pub open spec fn spec_lines(s: Seq<char>) -> Seq<Seq<char>>
    decreases s.len(),
{
    if s.len() == 0 {
        Seq::empty()
    } else if s[0] == '\n' {
        seq![Seq::<char>::empty()] + spec_lines(s.subrange(1, s.len() as int))
    } else if s[0] == '\r' && s.len() >= 2 && s[1] == '\n' {
        seq![Seq::<char>::empty()] + spec_lines(s.subrange(2, s.len() as int))
    } else {
        let rest = spec_lines(s.subrange(1, s.len() as int));
        if rest.len() == 0 {
            seq![seq![s[0]]]
        } else {
            seq![seq![s[0]] + rest[0]] + rest.subrange(1, rest.len() as int)
        }
    }
}

/// The sequence with one trailing `'\r'` removed, if there is one.
pub open spec fn strip_trailing_cr(s: Seq<char>) -> Seq<char> {
    if s.len() > 0 && s[s.len() - 1] == '\r' {
        s.drop_last()
    } else {
        s
    }
}

/// A nonempty text without `'\n'` is a single line.
pub proof fn lemma_lines_no_newline(s: Seq<char>)
    requires
        s.len() > 0,
        forall|j: int| 0 <= j < s.len() ==> s[j] != '\n',
    ensures
        spec_lines(s) == seq![s],
    decreases s.len(),
{
    let t = s.subrange(1, s.len() as int);
    if s.len() == 1 {
        assert(spec_lines(t) =~= Seq::<Seq<char>>::empty());
        assert(seq![s[0]] =~= s);
        assert(spec_lines(s) =~= seq![s]);
    } else {
        assert(forall|j: int| 0 <= j < t.len() ==> t[j] != '\n');
        lemma_lines_no_newline(t);
        assert(seq![s[0]] + t =~= s);
        assert(spec_lines(s) =~= seq![s]);
    }
}

/// Splitting at the first `'\n'`: the text's lines are the first line (the
/// prefix before the break, with a `'\r'` that closes a `"\r\n"` pair
/// removed) followed by the lines of what comes after the break.
pub proof fn lemma_lines_split(s: Seq<char>, k: int)
    requires
        0 <= k < s.len(),
        s[k] == '\n',
        forall|j: int| 0 <= j < k ==> s[j] != '\n',
    ensures
        spec_lines(s) == seq![strip_trailing_cr(s.subrange(0, k))] + spec_lines(
            s.subrange(k + 1, s.len() as int),
        ),
    decreases s.len(),
{
    if k == 0 {
        assert(strip_trailing_cr(s.subrange(0, 0)) =~= Seq::<char>::empty());
        assert(spec_lines(s) =~= seq![strip_trailing_cr(s.subrange(0, 0))] + spec_lines(
            s.subrange(1, s.len() as int),
        ));
    } else if s[0] == '\r' && s.len() >= 2 && s[1] == '\n' {
        assert(k == 1);
        assert(strip_trailing_cr(s.subrange(0, 1)) =~= Seq::<char>::empty());
        assert(spec_lines(s) =~= seq![strip_trailing_cr(s.subrange(0, 1))] + spec_lines(
            s.subrange(2, s.len() as int),
        ));
    } else {
        let t = s.subrange(1, s.len() as int);
        assert(t[k - 1] == '\n');
        assert(forall|j: int| 0 <= j < k - 1 ==> t[j] != '\n');
        lemma_lines_split(t, k - 1);
        let rest = spec_lines(t);
        let head = strip_trailing_cr(t.subrange(0, k - 1));
        assert(rest[0] == head);
        if k == 1 {
            assert(s[1] == '\n' && s.len() >= 2);
            assert(s[0] != '\r');
            assert(seq![s[0]] + head =~= strip_trailing_cr(s.subrange(0, k)));
        } else if s[k - 1] == '\r' {
            assert(t.subrange(0, k - 1)[k - 2] == '\r');
            assert(s.subrange(0, k)[k - 1] == '\r');
            assert(seq![s[0]] + head =~= strip_trailing_cr(s.subrange(0, k)));
        } else {
            assert(seq![s[0]] + head =~= strip_trailing_cr(s.subrange(0, k)));
        }
        assert(t.subrange(k, t.len() as int) =~= s.subrange(k + 1, s.len() as int));
        assert(rest.subrange(1, rest.len() as int) =~= spec_lines(
            s.subrange(k + 1, s.len() as int),
        ));
        assert(spec_lines(s) =~= seq![strip_trailing_cr(s.subrange(0, k))] + spec_lines(
            s.subrange(k + 1, s.len() as int),
        ));
    }
}

/// Every line of an all-ASCII text is itself all-ASCII.
pub proof fn lemma_lines_ascii(s: Seq<char>)
    requires
        is_ascii_chars(s),
    ensures
        forall|i: int|
            0 <= i < spec_lines(s).len() ==> is_ascii_chars(#[trigger] spec_lines(s)[i]),
    decreases s.len(),
{
    if s.len() == 0 {
    } else if s[0] == '\n' {
        let t = s.subrange(1, s.len() as int);
        assert(is_ascii_chars(t)) by {
            assert(forall|j: int| 0 <= j < t.len() ==> t[j] == s[1 + j]);
        }
        lemma_lines_ascii(t);
        assert forall|i: int| 0 <= i < spec_lines(s).len() implies is_ascii_chars(
            #[trigger] spec_lines(s)[i],
        ) by {
            if i > 0 {
                assert(spec_lines(s)[i] == spec_lines(t)[i - 1]);
            }
        }
    } else if s[0] == '\r' && s.len() >= 2 && s[1] == '\n' {
        let t = s.subrange(2, s.len() as int);
        assert(is_ascii_chars(t)) by {
            assert(forall|j: int| 0 <= j < t.len() ==> t[j] == s[2 + j]);
        }
        lemma_lines_ascii(t);
        assert forall|i: int| 0 <= i < spec_lines(s).len() implies is_ascii_chars(
            #[trigger] spec_lines(s)[i],
        ) by {
            if i > 0 {
                assert(spec_lines(s)[i] == spec_lines(t)[i - 1]);
            }
        }
    } else {
        let t = s.subrange(1, s.len() as int);
        assert(is_ascii_chars(t)) by {
            assert(forall|j: int| 0 <= j < t.len() ==> t[j] == s[1 + j]);
        }
        lemma_lines_ascii(t);
        let rest = spec_lines(t);
        assert forall|i: int| 0 <= i < spec_lines(s).len() implies is_ascii_chars(
            #[trigger] spec_lines(s)[i],
        ) by {
            if rest.len() == 0 {
                assert(spec_lines(s)[i] =~= seq![s[0]]);
            } else if i == 0 {
                let first = seq![s[0]] + rest[0];
                assert(is_ascii_chars(rest[0]));
                assert(forall|j: int| 1 <= j < first.len() ==> first[j] == rest[0][j - 1]);
                assert(is_ascii_chars(first));
            } else {
                assert(spec_lines(s)[i] == rest.subrange(1, rest.len() as int)[i - 1]);
                assert(spec_lines(s)[i] == rest[i]);
            }
        }
    }
}

/// Splits a text into its lines, as borrowed slices in source order.
pub fn split_lines<'a>(contents: &'a str) -> (lines: Vec<&'a str>)
    ensures
        lines.deep_view() == spec_lines(contents@),
{
    let n = contents.unicode_len();
    let mut lines: Vec<&str> = Vec::new();
    let mut start: usize = 0;
    let mut i: usize = 0;
    proof {
        assert(contents@.subrange(0, n as int) =~= contents@);
        assert(lines.deep_view() + spec_lines(contents@.subrange(0, n as int)) =~= spec_lines(
            contents@,
        ));
    }
    while i < n
        invariant
            n == contents@.len(),
            start <= i <= n,
            forall|j: int| start <= j < i ==> contents@[j] != '\n',
            lines.deep_view() + spec_lines(contents@.subrange(start as int, n as int))
                == spec_lines(contents@),
        decreases n - i,
    {
        let c = contents.get_char(i);
        if c == '\n' {
            let end = if i > start && contents.get_char(i - 1) == '\r' {
                i - 1
            } else {
                i
            };
            let line = contents.substring_char(start, end);
            proof {
                let rest = contents@.subrange(start as int, n as int);
                lemma_lines_split(rest, i - start);
                assert(rest.subrange(0, i - start) =~= contents@.subrange(start as int, i as int));
                assert(strip_trailing_cr(rest.subrange(0, i - start)) =~= line@);
                assert(rest.subrange(i - start + 1, rest.len() as int) =~= contents@.subrange(
                    i + 1,
                    n as int,
                ));
            }
            let ghost old_dv = lines.deep_view();
            lines.push(line);
            proof {
                assert(lines.deep_view() =~= old_dv.push(line@));
                assert(lines.deep_view() + spec_lines(contents@.subrange(i + 1, n as int)) =~= old_dv
                    + spec_lines(contents@.subrange(start as int, n as int)));
            }
            start = i + 1;
        }
        i = i + 1;
    }
    if start < n {
        let line = contents.substring_char(start, n);
        proof {
            lemma_lines_no_newline(contents@.subrange(start as int, n as int));
        }
        let ghost old_dv = lines.deep_view();
        lines.push(line);
        proof {
            assert(lines.deep_view() =~= old_dv.push(line@));
            assert(lines.deep_view() =~= old_dv + spec_lines(
                contents@.subrange(start as int, n as int),
            ));
        }
    } else {
        proof {
            assert(spec_lines(contents@.subrange(start as int, n as int)) =~= Seq::<
                Seq<char>,
            >::empty());
            assert(lines.deep_view() =~= lines.deep_view() + spec_lines(
                contents@.subrange(start as int, n as int),
            ));
        }
    }
    lines
}

} // verus!
