//! Text as sequences of characters: the handful of string operations that the
//! rest of the crate is built from, each proved against a short statement.

use vstd::prelude::*;

verus! {

/// `String::push` appends the given character.
pub assume_specification[ String::push ](s: &mut String, c: char)
    ensures
        final(s)@ == old(s)@.push(c),
;

/// Whether two strings are the same.
pub(crate) fn same(a: &str, b: &str) -> (r: bool)
    ensures
        r == (a@ == b@),
{
    let x = a.as_bytes();
    let y = b.as_bytes();
    proof {
        vstd::utf8::encode_utf8_decode_utf8(a@);
        vstd::utf8::encode_utf8_decode_utf8(b@);
    }
    if x.len() != y.len() {
        return false;
    }
    let mut i: usize = 0;
    while i < x.len()
        invariant
            x@ == vstd::utf8::encode_utf8(a@),
            y@ == vstd::utf8::encode_utf8(b@),
            i <= x@.len() == y@.len(),
            forall|k: int| 0 <= k < i ==> x@[k] == y@[k],
        decreases x.len() - i,
    {
        if x[i] != y[i] {
            return false;
        }
        i = i + 1;
    }
    assert(x@ =~= y@);
    true
}

/// What `String::from_utf8_lossy` makes of a byte sequence.
pub uninterp spec fn utf8_lossy(bytes: Seq<u8>) -> Seq<char>;

/// `String::from_utf8_lossy`: well-formed UTF-8 is decoded as it stands, and
/// every malformed sequence becomes one replacement character.
#[verifier::external_body]
pub(crate) fn from_utf8_lossy(bytes: &[u8]) -> (r: String)
    ensures
        r@ == utf8_lossy(bytes@),
        vstd::utf8::valid_utf8(bytes@) ==> r@ == vstd::utf8::decode_utf8(bytes@),
{
    String::from_utf8_lossy(bytes).into_owned()
}

/// The characters of a string slice, in order.
pub fn to_chars(s: &str) -> (r: Vec<char>)
    ensures
        r@ == s@,
{
    let mut out: Vec<char> = Vec::new();
    for c in it: s.chars()
        invariant
            it.seq() == s@,
            out@ == s@.take(it.index() as int),
    {
        out.push(c);
        assert(out@ == s@.take(it.index() + 1));
    }
    assert(s@.take(s@.len() as int) == s@);
    out
}

/// The string that holds the characters of `chars` from `from` up to `to`.
pub fn slice_to_string(chars: &[char], from: usize, to: usize) -> (r: String)
    requires
        from <= to <= chars@.len(),
    ensures
        r@ == chars@.subrange(from as int, to as int),
{
    let mut out = String::new();
    let mut i: usize = from;
    while i < to
        invariant
            from <= i <= to <= chars@.len(),
            out@ == chars@.subrange(from as int, i as int),
        decreases to - i,
    {
        out.push(chars[i]);
        i = i + 1;
        assert(out@ == chars@.subrange(from as int, i as int));
    }
    out
}

/// Two strings one after the other.
pub fn concat(a: &str, b: &str) -> (r: String)
    ensures
        r@ == a@ + b@,
{
    let mut out = a.to_owned();
    out.append(b);
    out
}

/// Three strings one after the other.
pub fn concat3(a: &str, b: &str, c: &str) -> (r: String)
    ensures
        r@ == a@ + b@ + c@,
{
    let mut out = a.to_owned();
    out.append(b);
    out.append(c);
    out
}

/// Whether `s` begins with `prefix`.
pub fn starts_with(s: &str, prefix: &str) -> (r: bool)
    ensures
        r == prefix@.is_prefix_of(s@),
{
    let sc = to_chars(s);
    let pc = to_chars(prefix);
    if pc.len() > sc.len() {
        return false;
    }
    let mut i: usize = 0;
    while i < pc.len()
        invariant
            sc@ == s@,
            pc@ == prefix@,
            i <= pc@.len() <= sc@.len(),
            forall|k: int| 0 <= k < i ==> pc@[k] == sc@[k],
        decreases pc.len() - i,
    {
        if pc[i] != sc[i] {
            assert(s@.subrange(0, pc@.len() as int)[i as int] == sc@[i as int]);
            return false;
        }
        i = i + 1;
    }
    assert(prefix@ =~= s@.subrange(0, pc@.len() as int));
    true
}

/// Whether `s` ends with `suffix`.
pub fn ends_with(s: &str, suffix: &str) -> (r: bool)
    ensures
        r == suffix@.is_suffix_of(s@),
{
    let sc = to_chars(s);
    let pc = to_chars(suffix);
    if pc.len() > sc.len() {
        return false;
    }
    let base: usize = sc.len() - pc.len();
    let mut i: usize = 0;
    while i < pc.len()
        invariant
            sc@ == s@,
            sc@.len() <= usize::MAX,
            pc@ == suffix@,
            i <= pc@.len() <= sc@.len(),
            base == sc@.len() - pc@.len(),
            forall|k: int| 0 <= k < i ==> pc@[k] == sc@[base + k],
        decreases pc.len() - i,
    {
        if pc[i] != sc[base + i] {
            assert(s@.subrange(base as int, s@.len() as int)[i as int] == sc@[base + i]);
            return false;
        }
        i = i + 1;
    }
    assert(suffix@ =~= s@.subrange(base as int, s@.len() as int));
    true
}

/// The first position of `c` in `s`, or the length of `s` when it has none.
pub open spec fn find(s: Seq<char>, c: char) -> nat
    decreases s.len(),
{
    if s.len() == 0 {
        0
    } else if s[0] == c {
        0
    } else {
        1 + find(s.skip(1), c)
    }
}

/// [`find`] stops at the first occurrence.
pub proof fn lemma_find(s: Seq<char>, c: char)
    ensures
        find(s, c) <= s.len(),
        find(s, c) < s.len() ==> s[find(s, c) as int] == c,
        forall|k: int| 0 <= k < find(s, c) ==> s[k] != c,
    decreases s.len(),
{
    if s.len() > 0 && s[0] != c {
        lemma_find(s.skip(1), c);
        assert forall|k: int| 0 <= k < find(s, c) implies s[k] != c by {
            if k > 0 {
                assert(s.skip(1)[k - 1] == s[k]);
            }
        }
    }
}

/// A position with no `c` before it, and `c` at it or the end of the text, is
/// the one [`find`] gives.
proof fn lemma_find_is(s: Seq<char>, c: char, n: nat)
    requires
        n <= s.len(),
        forall|k: int| 0 <= k < n ==> s[k] != c,
        n < s.len() ==> s[n as int] == c,
    ensures
        find(s, c) == n,
{
    lemma_find(s, c);
    if find(s, c) < n {
        assert(s[find(s, c) as int] != c);
    }
    if n < find(s, c) {
        assert(s[n as int] != c);
    }
}

/// The position of the first `c` at or after `from`, or the length.
fn find_from(s: &Vec<char>, c: char, from: usize) -> (r: usize)
    requires
        from <= s@.len(),
    ensures
        from <= r <= s@.len(),
        r == from + find(s@.skip(from as int), c),
{
    let mut i: usize = from;
    while i < s.len() && s[i] != c
        invariant
            from <= i <= s@.len(),
            forall|k: int| from <= k < i ==> s@[k] != c,
        decreases s.len() - i,
    {
        i = i + 1;
    }
    proof {
        let t = s@.skip(from as int);
        assert forall|k: int| 0 <= k < i - from implies t[k] != c by {
            assert(t[k] == s@[from + k]);
        }
        lemma_find_is(t, c, (i - from) as nat);
    }
    i
}

/// A line without the carriage return that closes it, if there is one.
pub open spec fn without_cr(line: Seq<char>) -> Seq<char> {
    if line.len() > 0 && line.last() == '\r' {
        line.drop_last()
    } else {
        line
    }
}

/// The lines of a text. A line ends with a line feed or with a carriage return
/// and a line feed, neither of which belongs to it; a text that does not end
/// with a line feed has its rest as one more line, unless that is empty.
pub open spec fn lines(s: Seq<char>) -> Seq<Seq<char>>
    decreases s.len(),
{
    let n = find(s, '\n') as int;
    if s.len() == 0 {
        Seq::empty()
    } else if n >= s.len() {
        seq![s]
    } else {
        seq![without_cr(s.take(n))] + lines(s.skip(n + 1))
    }
}

/// The [`lines`] of a text.
pub fn split_lines(s: &str) -> (r: Vec<String>)
    ensures
        r.deep_view() == lines(s@),
{
    let chars = to_chars(s);
    let mut out: Vec<String> = Vec::new();
    let mut start: usize = 0;
    assert(chars@.skip(0) == chars@);
    assert(out.deep_view() + lines(chars@) == lines(chars@));
    while start < chars.len()
        invariant
            chars@ == s@,
            start <= chars@.len(),
            out.deep_view() + lines(chars@.skip(start as int)) == lines(s@),
        decreases chars.len() - start,
    {
        let ghost before = out.deep_view();
        let ghost rest = chars@.skip(start as int);
        let end: usize = find_from(&chars, '\n', start);
        let ghost n: int = end - start;
        if end == chars.len() {
            let line = slice_to_string(&chars, start, end);
            assert(line@ == rest);
            out.push(line);
            start = end;
            assert(out.deep_view() == before.push(rest));
            assert(lines(rest) == seq![rest]);
            assert(lines(chars@.skip(start as int)) == Seq::<Seq<char>>::empty());
            assert(before.push(rest) + Seq::<Seq<char>>::empty() == before + seq![rest]);
        } else {
            let stop: usize = if end > start && chars[end - 1] == '\r' {
                end - 1
            } else {
                end
            };
            let line = slice_to_string(&chars, start, stop);
            proof {
                assert(rest.take(n) == chars@.subrange(start as int, end as int));
                if n > 0 {
                    assert(rest.take(n).last() == chars@[end - 1]);
                }
                assert(line@ == without_cr(rest.take(n)));
            }
            out.push(line);
            start = end + 1;
            proof {
                assert(out.deep_view() == before.push(line@));
                assert(rest.skip(n + 1) == chars@.skip(start as int));
                assert(lines(rest) == seq![line@] + lines(rest.skip(n + 1)));
                assert(before.push(line@) + lines(chars@.skip(start as int)) == before
                    + lines(rest));
            }
        }
    }
    assert(chars@.skip(start as int) == Seq::<char>::empty());
    assert(out.deep_view() + Seq::<Seq<char>>::empty() == out.deep_view());
    out
}

/// The characters with the Unicode property White_Space.
pub open spec fn is_white_space(c: char) -> bool {
    ||| '\u{9}' <= c <= '\u{d}'
    ||| c == '\u{20}'
    ||| c == '\u{85}'
    ||| c == '\u{a0}'
    ||| c == '\u{1680}'
    ||| '\u{2000}' <= c <= '\u{200a}'
    ||| c == '\u{2028}'
    ||| c == '\u{2029}'
    ||| c == '\u{202f}'
    ||| c == '\u{205f}'
    ||| c == '\u{3000}'
}

/// Whether a character is white space.
pub fn white_space(c: char) -> (r: bool)
    ensures
        r == is_white_space(c),
{
    ('\u{9}' <= c && c <= '\u{d}') || c == '\u{20}' || c == '\u{85}' || c == '\u{a0}' || c
        == '\u{1680}' || ('\u{2000}' <= c && c <= '\u{200a}') || c == '\u{2028}' || c == '\u{2029}'
        || c == '\u{202f}' || c == '\u{205f}' || c == '\u{3000}'
}

/// A text without its leading white space.
pub open spec fn trim_start(s: Seq<char>) -> Seq<char>
    decreases s.len(),
{
    if s.len() > 0 && is_white_space(s[0]) {
        trim_start(s.skip(1))
    } else {
        s
    }
}

/// A text without its trailing white space.
pub open spec fn trim_end(s: Seq<char>) -> Seq<char>
    decreases s.len(),
{
    if s.len() > 0 && is_white_space(s.last()) {
        trim_end(s.drop_last())
    } else {
        s
    }
}

/// A text without the white space around it.
pub open spec fn trim(s: Seq<char>) -> Seq<char> {
    trim_end(trim_start(s))
}

/// The text without the white space around it, [`trim`].
pub fn trimmed(s: &str) -> (r: String)
    ensures
        r@ == trim(s@),
{
    let chars = to_chars(s);
    let mut from: usize = 0;
    assert(chars@.skip(0) == chars@);
    while from < chars.len() && white_space(chars[from])
        invariant
            chars@ == s@,
            from <= chars@.len(),
            trim_start(chars@.skip(from as int)) == trim_start(s@),
        decreases chars.len() - from,
    {
        assert(chars@.skip(from as int).skip(1) == chars@.skip(from + 1));
        from = from + 1;
    }
    let mut to: usize = chars.len();
    assert(chars@.subrange(from as int, to as int) == chars@.skip(from as int));
    while to > from && white_space(chars[to - 1])
        invariant
            chars@ == s@,
            from <= to <= chars@.len(),
            trim_end(chars@.subrange(from as int, to as int)) == trim(s@),
        decreases to,
    {
        assert(chars@.subrange(from as int, to as int).drop_last() == chars@.subrange(
            from as int,
            to - 1,
        ));
        to = to - 1;
    }
    slice_to_string(&chars, from, to)
}

/// The pieces of a text between the occurrences of `c`, one more than there
/// are occurrences.
pub open spec fn split(s: Seq<char>, c: char) -> Seq<Seq<char>>
    decreases s.len(),
{
    let n = find(s, c) as int;
    if n >= s.len() {
        seq![s]
    } else {
        seq![s.take(n)] + split(s.skip(n + 1), c)
    }
}

/// The [`split`] pieces of a text.
pub fn split_at_each(s: &str, c: char) -> (r: Vec<String>)
    ensures
        r.deep_view() == split(s@, c),
{
    let chars = to_chars(s);
    let mut out: Vec<String> = Vec::new();
    let mut start: usize = 0;
    let mut end: usize = find_from(&chars, c, 0);
    assert(chars@.skip(0) == chars@);
    assert(out.deep_view() + split(chars@, c) == split(chars@, c));
    while end < chars.len()
        invariant
            chars@ == s@,
            start <= end <= chars@.len(),
            end == start + find(chars@.skip(start as int), c),
            out.deep_view() + split(chars@.skip(start as int), c) == split(s@, c),
        decreases chars.len() - end,
    {
        let ghost before = out.deep_view();
        let ghost rest = chars@.skip(start as int);
        let piece = slice_to_string(&chars, start, end);
        out.push(piece);
        proof {
            assert(piece@ == rest.take(end - start));
            assert(out.deep_view() == before.push(piece@));
            assert(rest.skip(end - start + 1) == chars@.skip(end + 1));
            assert(before.push(piece@) + split(chars@.skip(end + 1), c) == before + split(rest, c));
        }
        start = end + 1;
        end = find_from(&chars, c, start);
    }
    let ghost before = out.deep_view();
    let ghost rest = chars@.skip(start as int);
    let piece = slice_to_string(&chars, start, end);
    out.push(piece);
    proof {
        assert(piece@ == rest);
        assert(out.deep_view() == before.push(rest));
        assert(before.push(rest) == before + seq![rest]);
    }
    out
}

/// A text without the `c`s at its end.
pub open spec fn trim_end_of(s: Seq<char>, c: char) -> Seq<char>
    decreases s.len(),
{
    if s.len() > 0 && s.last() == c {
        trim_end_of(s.drop_last(), c)
    } else {
        s
    }
}

/// The text without the `c`s at its end, [`trim_end_of`].
pub fn trimmed_end_of(s: &str, c: char) -> (r: String)
    ensures
        r@ == trim_end_of(s@, c),
{
    let chars = to_chars(s);
    let mut to: usize = chars.len();
    assert(chars@.take(to as int) == s@);
    while to > 0 && chars[to - 1] == c
        invariant
            chars@ == s@,
            to <= chars@.len(),
            trim_end_of(chars@.take(to as int), c) == trim_end_of(s@, c),
        decreases to,
    {
        assert(chars@.take(to as int).drop_last() == chars@.take(to - 1));
        to = to - 1;
    }
    assert(chars@.subrange(0, to as int) == chars@.take(to as int));
    slice_to_string(&chars, 0, to)
}

/// The decimal digit for a number below ten.
pub open spec fn digit(d: nat) -> char {
    ((48 + d) as u8) as char
}

/// A number in decimal, without leading zeros.
pub open spec fn decimal(n: nat) -> Seq<char>
    decreases n,
{
    if n < 10 {
        seq![digit(n)]
    } else {
        decimal(n / 10).push(digit(n % 10))
    }
}

/// The number written in [`decimal`].
pub fn to_decimal(n: u64) -> (r: String)
    ensures
        r@ == decimal(n as nat),
    decreases n,
{
    if n < 10 {
        let mut out = String::new();
        out.push((48 + n as u8) as char);
        assert(out@ == seq![digit(n as nat)]);
        out
    } else {
        let mut out = to_decimal(n / 10);
        out.push((48 + (n % 10) as u8) as char);
        out
    }
}

/// Whether `a` comes before `b`: character by character, a text before those
/// that it is a beginning of.
pub open spec fn before(a: Seq<char>, b: Seq<char>) -> bool
    decreases a.len(),
{
    if b.len() == 0 {
        false
    } else if a.len() == 0 {
        true
    } else if a[0] != b[0] {
        a[0] < b[0]
    } else {
        before(a.skip(1), b.skip(1))
    }
}

/// No text comes before itself, and of two different texts one comes first.
pub proof fn lemma_before_total(a: Seq<char>, b: Seq<char>)
    ensures
        a == b ==> !before(a, b),
        a != b ==> before(a, b) != before(b, a),
    decreases a.len(),
{
    if a.len() > 0 && b.len() > 0 && a[0] == b[0] {
        lemma_before_total(a.skip(1), b.skip(1));
        assert(a == seq![a[0]] + a.skip(1));
        assert(b == seq![b[0]] + b.skip(1));
    } else if a.len() == 0 && b.len() == 0 {
        assert(a == b);
    }
}

/// What comes before a text comes before all that follow that text.
pub proof fn lemma_before_transitive(a: Seq<char>, b: Seq<char>, c: Seq<char>)
    requires
        before(a, b),
        before(b, c),
    ensures
        before(a, c),
    decreases a.len(),
{
    if a.len() > 0 && b.len() > 0 && c.len() > 0 && a[0] == b[0] && b[0] == c[0] {
        lemma_before_transitive(a.skip(1), b.skip(1), c.skip(1));
    }
}

/// Whether the first text comes [`before`] the second.
pub fn comes_before(a: &str, b: &str) -> (r: bool)
    ensures
        r == before(a@, b@),
{
    let ac = to_chars(a);
    let bc = to_chars(b);
    let mut i: usize = 0;
    assert(ac@.skip(0) == a@);
    assert(bc@.skip(0) == b@);
    while i < ac.len() && i < bc.len() && ac[i] == bc[i]
        invariant
            ac@ == a@,
            bc@ == b@,
            i <= ac@.len(),
            i <= bc@.len(),
            before(ac@.skip(i as int), bc@.skip(i as int)) == before(a@, b@),
        decreases ac.len() - i,
    {
        assert(ac@.skip(i as int).skip(1) == ac@.skip(i + 1));
        assert(bc@.skip(i as int).skip(1) == bc@.skip(i + 1));
        i = i + 1;
    }
    if i == bc.len() {
        false
    } else if i == ac.len() {
        true
    } else {
        ac[i] < bc[i]
    }
}

/// A list with `x` put before the first text that follows it, unless the list
/// has it there already.
pub open spec fn put(list: Seq<Seq<char>>, x: Seq<char>) -> Seq<Seq<char>>
    decreases list.len(),
{
    if list.len() == 0 {
        seq![x]
    } else if list[0] == x {
        list
    } else if before(x, list[0]) {
        seq![x] + list
    } else {
        seq![list[0]] + put(list.skip(1), x)
    }
}

/// The texts of a list in order, each of them once.
pub open spec fn sorted_distinct(items: Seq<Seq<char>>) -> Seq<Seq<char>>
    decreases items.len(),
{
    if items.len() == 0 {
        Seq::empty()
    } else {
        put(sorted_distinct(items.drop_last()), items.last())
    }
}

/// Whether every text of a list comes before those that follow it.
pub open spec fn ascending(list: Seq<Seq<char>>) -> bool {
    forall|i: int, j: int| 0 <= i < j < list.len() ==> before(#[trigger] list[i], #[trigger] list[j])
}

/// Putting a text into an ascending list keeps it ascending and adds that text.
proof fn lemma_put(list: Seq<Seq<char>>, x: Seq<char>)
    requires
        ascending(list),
    ensures
        ascending(put(list, x)),
        forall|y: Seq<char>| #[trigger] put(list, x).contains(y) <==> list.contains(y) || y == x,
    decreases list.len(),
{
    let r = put(list, x);
    if list.len() == 0 {
        assert(r[0] == x);
    } else if list[0] == x {
        assert(list.contains(x));
    } else if before(x, list[0]) {
        assert forall|i: int, j: int| 0 <= i < j < r.len() implies before(
            #[trigger] r[i],
            #[trigger] r[j],
        ) by {
            if i == 0 && j > 1 {
                lemma_before_transitive(x, list[0], list[j - 1]);
            } else if i > 0 {
                assert(before(list[i - 1], list[j - 1]));
            }
        }
        assert forall|y: Seq<char>| r.contains(y) <==> list.contains(y) || y == x by {
            if list.contains(y) {
                let k = choose|k: int| 0 <= k < list.len() && list[k] == y;
                assert(r[k + 1] == y);
            }
            if y == x {
                assert(r[0] == y);
            }
            if r.contains(y) {
                let k = choose|k: int| 0 <= k < r.len() && r[k] == y;
                if k > 0 {
                    assert(list[k - 1] == y);
                }
            }
        }
    } else {
        let rest = list.skip(1);
        assert forall|i: int, j: int| 0 <= i < j < rest.len() implies before(
            #[trigger] rest[i],
            #[trigger] rest[j],
        ) by {
            assert(before(list[i + 1], list[j + 1]));
        }
        lemma_put(rest, x);
        lemma_before_total(list[0], x);
        let tail = put(rest, x);
        assert forall|i: int, j: int| 0 <= i < j < r.len() implies before(
            #[trigger] r[i],
            #[trigger] r[j],
        ) by {
            if i == 0 {
                assert(tail.contains(tail[j - 1]));
                if tail[j - 1] != x {
                    assert(rest.contains(tail[j - 1]));
                    let k = choose|k: int| 0 <= k < rest.len() && rest[k] == tail[j - 1];
                    assert(before(list[0], list[k + 1]));
                }
            } else {
                assert(before(tail[i - 1], tail[j - 1]));
            }
        }
        assert forall|y: Seq<char>| r.contains(y) <==> list.contains(y) || y == x by {
            if list.contains(y) {
                let k = choose|k: int| 0 <= k < list.len() && list[k] == y;
                if k == 0 {
                    assert(r[0] == y);
                } else {
                    assert(rest[k - 1] == y);
                    assert(rest.contains(y));
                    assert(tail.contains(y));
                    let l = choose|l: int| 0 <= l < tail.len() && tail[l] == y;
                    assert(r[l + 1] == y);
                }
            }
            if y == x {
                assert(tail.contains(y));
                let l = choose|l: int| 0 <= l < tail.len() && tail[l] == y;
                assert(r[l + 1] == y);
            }
            if r.contains(y) {
                let k = choose|k: int| 0 <= k < r.len() && r[k] == y;
                if k == 0 {
                    assert(list[0] == y);
                } else {
                    assert(tail[k - 1] == y);
                    assert(tail.contains(y));
                    if y != x {
                        assert(rest.contains(y));
                        let l = choose|l: int| 0 <= l < rest.len() && rest[l] == y;
                        assert(list[l + 1] == y);
                    }
                }
            }
        }
    }
}

/// [`sorted_distinct`] holds exactly the texts of the list, in ascending order.
pub proof fn law_sorted_distinct(items: Seq<Seq<char>>)
    ensures
        ascending(sorted_distinct(items)),
        forall|y: Seq<char>| #[trigger] sorted_distinct(items).contains(y) <==> items.contains(y),
    decreases items.len(),
{
    if items.len() > 0 {
        let rest = items.drop_last();
        law_sorted_distinct(rest);
        lemma_put(sorted_distinct(rest), items.last());
        assert forall|y: Seq<char>| sorted_distinct(items).contains(y) <==> items.contains(y) by {
            if items.contains(y) {
                let k = choose|k: int| 0 <= k < items.len() && items[k] == y;
                if k < rest.len() {
                    assert(rest[k] == y);
                }
            }
            if rest.contains(y) {
                let k = choose|k: int| 0 <= k < rest.len() && rest[k] == y;
                assert(items[k] == y);
            }
            if y == items.last() {
                assert(items[items.len() - 1] == y);
            }
        }
    }
}

/// Where [`put`] puts a text into an ascending list: `n` texts come before it.
proof fn lemma_put_at(list: Seq<Seq<char>>, x: Seq<char>, n: int)
    requires
        ascending(list),
        0 <= n <= list.len(),
        forall|k: int| 0 <= k < n ==> before(#[trigger] list[k], x),
        n < list.len() ==> !before(list[n], x),
    ensures
        put(list, x) == if n < list.len() && list[n] == x {
            list
        } else {
            list.insert(n, x)
        },
    decreases list.len(),
{
    if list.len() == 0 {
        assert(list.insert(n, x) == seq![x]);
    } else if n == 0 {
        lemma_before_total(list[0], x);
        assert(list.insert(0, x) == seq![x] + list);
    } else {
        lemma_before_total(list[0], x);
        let rest = list.skip(1);
        assert forall|i: int, j: int| 0 <= i < j < rest.len() implies before(
            #[trigger] rest[i],
            #[trigger] rest[j],
        ) by {
            assert(before(list[i + 1], list[j + 1]));
        }
        assert forall|k: int| 0 <= k < n - 1 implies before(#[trigger] rest[k], x) by {
            assert(before(list[k + 1], x));
        }
        lemma_put_at(rest, x, n - 1);
        if n < list.len() && list[n] == x {
            assert(seq![list[0]] + rest == list);
        } else {
            assert(seq![list[0]] + rest.insert(n - 1, x) == list.insert(n, x));
        }
    }
}

/// Puts a text into an ascending list, [`put`].
pub fn put_sorted(list: &mut Vec<String>, x: String)
    requires
        ascending(old(list).deep_view()),
    ensures
        final(list).deep_view() == put(old(list).deep_view(), x@),
        ascending(final(list).deep_view()),
{
    let ghost before_call = list.deep_view();
    proof {
        lemma_put(before_call, x@);
    }
    let mut low: usize = 0;
    let mut high: usize = list.len();
    while low < high
        invariant
            low <= high <= list@.len(),
            list.deep_view() == before_call,
            ascending(before_call),
            forall|k: int| 0 <= k < low ==> before(#[trigger] before_call[k], x@),
            forall|k: int| high <= k < before_call.len() ==> !before(#[trigger] before_call[k], x@),
        decreases high - low,
    {
        let middle: usize = low + (high - low) / 2;
        assert(before_call[middle as int] == list@[middle as int]@);
        if comes_before(&list[middle], &x) {
            proof {
                assert forall|k: int| 0 <= k < middle + 1 implies before(
                    #[trigger] before_call[k],
                    x@,
                ) by {
                    if k < middle {
                        lemma_before_transitive(before_call[k], before_call[middle as int], x@);
                    }
                }
            }
            low = middle + 1;
        } else {
            proof {
                assert forall|k: int| middle <= k < before_call.len() implies !before(
                    #[trigger] before_call[k],
                    x@,
                ) by {
                    if k > middle && before(before_call[k], x@) {
                        lemma_before_transitive(before_call[middle as int], before_call[k], x@);
                    }
                }
            }
            high = middle;
        }
    }
    proof {
        lemma_put_at(before_call, x@, low as int);
    }
    if low < list.len() && same(&list[low], &x) {
        assert(before_call[low as int] == list@[low as int]@);
    } else {
        proof {
            if low < before_call.len() {
                assert(before_call[low as int] == list@[low as int]@);
            }
        }
        list.insert(low, x);
        assert(list.deep_view() == before_call.insert(low as int, x@));
    }
}

/// The value of a decimal digit.
pub open spec fn digit_value(c: char) -> nat {
    (c as nat - 48) as nat
}

/// Whether a character is a decimal digit.
pub open spec fn is_digit(c: char) -> bool {
    '0' <= c <= '9'
}

/// The number that a list of digits stands for.
pub open spec fn digits_value(s: Seq<char>) -> nat
    decreases s.len(),
{
    if s.len() == 0 {
        0
    } else {
        digits_value(s.drop_last()) * 10 + digit_value(s.last())
    }
}

/// The digits of a number: a text without the plus sign that may lead it.
pub open spec fn unsigned(s: Seq<char>) -> Seq<char> {
    if s.len() > 0 && s[0] == '+' {
        s.skip(1)
    } else {
        s
    }
}

/// The number up to `max` that a text holds: at least one decimal digit, after
/// a plus sign at most.
pub open spec fn number(s: Seq<char>, max: nat) -> Option<nat> {
    let digits = unsigned(s);
    if digits.len() > 0 && (forall|k: int| 0 <= k < digits.len() ==> is_digit(#[trigger] digits[k]))
        && digits_value(digits) <= max {
        Some(digits_value(digits))
    } else {
        None
    }
}

/// A number is at least as large as any that its leading digits make.
proof fn lemma_digits_value_grows(s: Seq<char>, n: int)
    requires
        0 <= n <= s.len(),
    ensures
        digits_value(s.take(n)) <= digits_value(s),
    decreases s.len(),
{
    if n == s.len() {
        assert(s.take(n) == s);
    } else {
        lemma_digits_value_grows(s.drop_last(), n);
        assert(s.drop_last().take(n) == s.take(n));
    }
}

/// The [`number`] that a text holds.
pub fn parse_number(s: &str, max: u64) -> (r: Option<u64>)
    ensures
        match r {
            Some(n) => number(s@, max as nat) == Some(n as nat),
            None => number(s@, max as nat) is None,
        },
{
    let chars = to_chars(s);
    let start: usize = if chars.len() > 0 && chars[0] == '+' {
        1
    } else {
        0
    };
    let ghost digits = unsigned(s@);
    assert(digits == chars@.skip(start as int));
    if start == chars.len() {
        return None;
    }
    let mut value: u64 = 0;
    let mut i: usize = start;
    while i < chars.len()
        invariant
            chars@ == s@,
            start <= i <= chars@.len(),
            digits == unsigned(s@),
            digits == chars@.skip(start as int),
            forall|k: int| 0 <= k < i - start ==> is_digit(#[trigger] digits[k]),
            value == digits_value(digits.take(i - start)),
            value <= max,
        decreases chars.len() - i,
    {
        let c = chars[i];
        let ghost k: int = i - start;
        assert(digits[k] == c);
        if !('0' <= c && c <= '9') {
            assert(!is_digit(digits[k]));
            return None;
        }
        let next: u128 = value as u128 * 10 + (c as u32 - 48) as u128;
        proof {
            assert(digits.take(k + 1).drop_last() == digits.take(k));
            assert(digits_value(digits.take(k + 1)) == next);
            lemma_digits_value_grows(digits, k + 1);
        }
        if next > max as u128 {
            return None;
        }
        value = next as u64;
        i = i + 1;
    }
    assert(digits.take(i - start) == digits);
    Some(value)
}

/// Whether two lists hold the same texts in the same order.
pub fn same_list(a: &Vec<String>, b: &Vec<String>) -> (r: bool)
    ensures
        r == (a.deep_view() == b.deep_view()),
{
    if a.len() != b.len() {
        assert(a.deep_view().len() != b.deep_view().len());
        return false;
    }
    let mut i: usize = 0;
    while i < a.len()
        invariant
            a@.len() == b@.len(),
            i <= a@.len(),
            forall|k: int| 0 <= k < i ==> a@[k]@ == b@[k]@,
        decreases a.len() - i,
    {
        if !same(&a[i], &b[i]) {
            assert(a.deep_view()[i as int] != b.deep_view()[i as int]);
            return false;
        }
        i = i + 1;
    }
    assert(a.deep_view() =~= b.deep_view());
    true
}

} // verus!
