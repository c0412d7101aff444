//! What holds of every text that is taken apart, compared or written.

use vstd::prelude::*;

use crate::text;

verus! {

/// The number that decimal digits spell.
pub open spec fn spelled(s: Seq<char>) -> nat
    decreases s.len(),
{
    if s.len() == 0 {
        0
    } else {
        spelled(s.drop_last()) * 10 + (s.last() as nat - '0' as nat) as nat
    }
}

/// Whether a text is decimal digits alone.
pub open spec fn all_digits(s: Seq<char>) -> bool {
    forall|i: int| 0 <= i < s.len() ==> '0' <= #[trigger] s[i] <= '9'
}

/// A number is written in the decimal digits that spell it, without a zero in front.
pub proof fn law_decimal_spells_the_number(n: nat)
    ensures
        text::decimal(n).len() > 0,
        all_digits(text::decimal(n)),
        spelled(text::decimal(n)) == n,
        n > 0 ==> text::decimal(n)[0] != '0',
        n == 0 ==> text::decimal(n).len() == 1,
    decreases n,
{
    let s = text::decimal(n);
    if n < 10 {
        assert(s.drop_last().len() == 0);
        assert(spelled(s.drop_last()) == 0);
    } else {
        let rest = text::decimal(n / 10);
        law_decimal_spells_the_number(n / 10);
        assert(s.drop_last() == rest);
        assert forall|i: int| 0 <= i < s.len() implies '0' <= #[trigger] s[i] <= '9' by {
            if i < rest.len() {
                assert(s[i] == rest[i]);
            }
        }
        assert(s[0] == rest[0]);
    }
}

/// Both ways to read digits agree.
proof fn lemma_digits_value(s: Seq<char>)
    requires
        all_digits(s),
    ensures
        text::digits_value(s) == spelled(s),
    decreases s.len(),
{
    if s.len() > 0 {
        let rest = s.drop_last();
        assert forall|i: int| 0 <= i < rest.len() implies '0' <= #[trigger] rest[i] <= '9' by {
            assert(rest[i] == s[i]);
        }
        lemma_digits_value(rest);
        assert('0' <= s[s.len() - 1] <= '9');
    }
}

/// A number is read from one digit or more, with or without a plus in front, as long as
/// it is within bounds, and from nothing else.
pub proof fn law_numbers_are_read(s: Seq<char>, max: nat)
    ensures
        ({
            let digits = if s.len() > 0 && s[0] == '+' {
                s.skip(1)
            } else {
                s
            };
            &&& text::number(s, max) is Some <==> digits.len() > 0 && all_digits(digits) && spelled(
                digits,
            ) <= max
            &&& text::number(s, max) is Some ==> text::number(s, max)->0 == spelled(digits)
        }),
{
    let digits = text::unsigned(s);
    if all_digits(digits) {
        lemma_digits_value(digits);
        assert forall|k: int| 0 <= k < digits.len() implies text::is_digit(
            #[trigger] digits[k],
        ) by {}
    }
    if forall|k: int| 0 <= k < digits.len() ==> text::is_digit(#[trigger] digits[k]) {
        assert forall|i: int| 0 <= i < digits.len() implies '0' <= #[trigger] digits[i] <= '9' by {
            assert(text::is_digit(digits[i]));
        }
    }
}

/// Where a character first stands.
pub proof fn lemma_find(s: Seq<char>, c: char)
    ensures
        text::find(s, c) <= s.len(),
        forall|i: int| 0 <= i < text::find(s, c) ==> s[i] != c,
        text::find(s, c) < s.len() ==> s[text::find(s, c) as int] == c,
    decreases s.len(),
{
    if s.len() > 0 && s[0] != c {
        lemma_find(s.skip(1), c);
        assert forall|i: int| 0 <= i < text::find(s, c) implies s[i] != c by {
            if i > 0 {
                assert(s.skip(1)[i - 1] == s[i]);
            }
        }
    }
}

/// Pieces with a character between them.
pub open spec fn joined_by(pieces: Seq<Seq<char>>, c: char) -> Seq<char>
    decreases pieces.len(),
{
    if pieces.len() == 0 {
        Seq::empty()
    } else if pieces.len() == 1 {
        pieces[0]
    } else {
        pieces[0] + seq![c] + joined_by(pieces.skip(1), c)
    }
}

/// The pieces of a text that is split at a character make it up again with that character
/// between them, and none of them has it; there is at least one.
pub proof fn law_split_can_be_undone(s: Seq<char>, c: char)
    ensures
        text::split(s, c).len() > 0,
        joined_by(text::split(s, c), c) == s,
        forall|i: int| 0 <= i < text::split(s, c).len() ==> !(#[trigger] text::split(s, c)[i]).contains(c),
    decreases s.len(),
{
    lemma_find(s, c);
    let n = text::find(s, c) as int;
    let pieces = text::split(s, c);
    if n >= s.len() {
        assert forall|i: int| 0 <= i < pieces.len() implies !(#[trigger] pieces[i]).contains(c) by {
            if s.contains(c) {
                let t = choose|t: int| 0 <= t < s.len() && s[t] == c;
                assert(s[t] != c);
            }
        }
    } else {
        let rest = text::split(s.skip(n + 1), c);
        law_split_can_be_undone(s.skip(n + 1), c);
        assert(pieces == seq![s.take(n)] + rest);
        assert(pieces.skip(1) == rest);
        assert(joined_by(pieces, c) == s.take(n) + seq![c] + s.skip(n + 1));
        assert(joined_by(pieces, c) =~= s);
        assert forall|i: int| 0 <= i < pieces.len() implies !(#[trigger] pieces[i]).contains(c) by {
            if i == 0 {
                if s.take(n).contains(c) {
                    let t = choose|t: int| 0 <= t < n && s.take(n)[t] == c;
                    assert(s[t] == c);
                }
            } else {
                assert(pieces[i] == rest[i - 1]);
            }
        }
    }
}

/// A line ends with a newline, before which a carriage return is left out; what follows
/// makes further lines.
pub proof fn law_lines_end_with_newlines(line: Seq<char>, rest: Seq<char>)
    requires
        !line.contains('\n'),
    ensures
        text::lines(line + seq!['\n'] + rest) == seq![
            if line.len() > 0 && line.last() == '\r' {
                line.drop_last()
            } else {
                line
            },
        ] + text::lines(rest),
        text::lines(line) == if line.len() == 0 {
            Seq::<Seq<char>>::empty()
        } else {
            seq![line]
        },
{
    let s = line + seq!['\n'] + rest;
    lemma_find(s, '\n');
    lemma_find(line, '\n');
    let n = text::find(s, '\n') as int;
    assert(s[line.len() as int] == '\n');
    if n < line.len() {
        assert(s[n] == line[n]);
        assert(line.contains(line[n]));
    }
    assert(n == line.len());
    assert(s.take(n) == line);
    assert(s.skip(n + 1) == rest);
    let m = text::find(line, '\n') as int;
    if m < line.len() {
        assert(line.contains(line[m]));
    }
}

/// Whitespace within ASCII is the space and what tabulators and line ends are made of.
pub proof fn law_ascii_white_space(c: char)
    requires
        c as u32 <= 0x7f,
    ensures
        text::is_white_space(c) <==> c == ' ' || c == '\t' || c == '\n' || c as u32 == 0xb || c as u32
            == 0xc || c == '\r',
{
}

/// Trimming takes whitespace from both ends and all of it, and leaves the rest.
pub proof fn law_trim_takes_both_ends(s: Seq<char>)
    ensures
        exists|a: int, b: int|
            #![trigger s.subrange(a, b)]
            0 <= a <= b <= s.len() && text::trim(s) == s.subrange(a, b) && (forall|i: int|
                0 <= i < a || b <= i < s.len() ==> text::is_white_space(#[trigger] s[i])),
        text::trim(s).len() > 0 ==> !text::is_white_space(text::trim(s)[0])
            && !text::is_white_space(text::trim(s).last()),
{
    let a = lemma_trim_start(s);
    let t = text::trim_start(s);
    let n = lemma_trim_end(t);
    let b = a + n;
    assert(t == s.skip(a));
    assert(t.take(n) == s.subrange(a, b));
    assert forall|i: int| 0 <= i < a || b <= i < s.len() implies text::is_white_space(
        #[trigger] s[i],
    ) by {
        if b <= i {
            assert(t[i - a] == s[i]);
        }
    }
    if text::trim(s).len() > 0 {
        assert(text::trim(s)[0] == t[0]);
    }
}

/// What trimming takes from the start.
proof fn lemma_trim_start(s: Seq<char>) -> (a: int)
    ensures
        0 <= a <= s.len(),
        text::trim_start(s) == s.skip(a),
        forall|i: int| 0 <= i < a ==> text::is_white_space(#[trigger] s[i]),
        text::trim_start(s).len() > 0 ==> !text::is_white_space(text::trim_start(s)[0]),
    decreases s.len(),
{
    if s.len() > 0 && text::is_white_space(s[0]) {
        let n = lemma_trim_start(s.skip(1));
        assert(s.skip(1).skip(n) == s.skip(n + 1));
        assert forall|i: int| 0 <= i < n + 1 implies text::is_white_space(#[trigger] s[i]) by {
            if i > 0 {
                assert(s.skip(1)[i - 1] == s[i]);
            }
        }
        n + 1
    } else {
        assert(s.skip(0) == s);
        0
    }
}

/// What trimming leaves before the end.
proof fn lemma_trim_end(s: Seq<char>) -> (n: int)
    ensures
        0 <= n <= s.len(),
        text::trim_end(s) == s.take(n),
        forall|i: int| n <= i < s.len() ==> text::is_white_space(#[trigger] s[i]),
        text::trim_end(s).len() > 0 ==> !text::is_white_space(text::trim_end(s).last()),
    decreases s.len(),
{
    if s.len() > 0 && text::is_white_space(s.last()) {
        let rest = s.drop_last();
        let n = lemma_trim_end(rest);
        assert(rest.take(n) == s.take(n));
        assert forall|i: int| n <= i < s.len() implies text::is_white_space(#[trigger] s[i]) by {
            if i < rest.len() {
                assert(rest[i] == s[i]);
            }
        }
        n
    } else {
        assert(s.take(s.len() as int) == s);
        s.len() as int
    }
}

/// Trimming a character from the end takes all of it there and nothing else.
pub proof fn law_trim_end_of_takes_all(s: Seq<char>, c: char)
    ensures
        text::trim_end_of(s, c).is_prefix_of(s),
        forall|i: int| text::trim_end_of(s, c).len() <= i < s.len() ==> #[trigger] s[i] == c,
        text::trim_end_of(s, c).len() > 0 ==> text::trim_end_of(s, c).last() != c,
    decreases s.len(),
{
    if s.len() > 0 && s.last() == c {
        let rest = s.drop_last();
        law_trim_end_of_takes_all(rest, c);
        let r = text::trim_end_of(s, c);
        assert(rest.subrange(0, r.len() as int) == s.subrange(0, r.len() as int));
        assert forall|i: int| r.len() <= i < s.len() implies #[trigger] s[i] == c by {
            if i < rest.len() {
                assert(rest[i] == s[i]);
            }
        }
    } else {
        assert(s.subrange(0, s.len() as int) == s);
    }
}

/// Where two texts first differ.
pub open spec fn alike(a: Seq<char>, b: Seq<char>, n: int) -> bool {
    0 <= n <= a.len() && n <= b.len() && forall|i: int| 0 <= i < n ==> a[i] == b[i]
}

/// A text comes before another exactly if it is a shorter beginning of it, or has the
/// smaller character where they first differ.
pub proof fn law_texts_are_ordered_by_characters(a: Seq<char>, b: Seq<char>)
    ensures
        text::before(a, b) <==> exists|n: int|
            #[trigger] alike(a, b, n) && n < b.len() && (n == a.len() || a[n] < b[n]),
    decreases a.len(),
{
    if a.len() == 0 {
        assert(alike(a, b, 0));
    } else if b.len() > 0 {
        if a[0] != b[0] {
            assert(alike(a, b, 0));
            assert forall|n: int| #[trigger] alike(a, b, n) implies n == 0 by {
                if n > 0 {
                    assert(a[0] == b[0]);
                }
            }
        } else {
            let x = a.skip(1);
            let y = b.skip(1);
            law_texts_are_ordered_by_characters(x, y);
            if text::before(x, y) {
                let m = choose|m: int|
                    #[trigger] alike(x, y, m) && m < y.len() && (m == x.len() || x[m] < y[m]);
                assert forall|i: int| 0 <= i < m + 1 implies a[i] == b[i] by {
                    if i > 0 {
                        assert(x[i - 1] == y[i - 1]);
                    }
                }
                assert(alike(a, b, m + 1));
            }
            if exists|n: int|
                #[trigger] alike(a, b, n) && n < b.len() && (n == a.len() || a[n] < b[n]) {
                let n = choose|n: int|
                    #[trigger] alike(a, b, n) && n < b.len() && (n == a.len() || a[n] < b[n]);
                assert(n > 0);
                assert forall|i: int| 0 <= i < n - 1 implies x[i] == y[i] by {
                    assert(a[i + 1] == b[i + 1]);
                }
                assert(alike(x, y, n - 1));
            }
        }
    }
}

/// Whitespace beyond ASCII is that of Unicode.
pub proof fn law_white_space_beyond_ascii(c: char)
    requires
        c as u32 > 0x7f,
    ensures
        text::is_white_space(c) <==> {
            let n = c as u32;
            ||| n == 0x85 || n == 0xa0
            ||| n == 0x1680
            ||| 0x2000 <= n <= 0x200a
            ||| n == 0x2028 || n == 0x2029 || n == 0x202f || n == 0x205f
            ||| n == 0x3000
        },
{
}

} // verus!
