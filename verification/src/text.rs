use vstd::prelude::*;

verus! {

broadcast use vstd::string::group_string_axioms;

/// The characters that `char::is_whitespace` accepts (the Unicode `White_Space` property).
pub open spec fn is_white_space(c: char) -> bool {
    ||| ('\u{9}' <= c && c <= '\u{d}')
    ||| c == ' '
    ||| c == '\u{85}'
    ||| c == '\u{a0}'
    ||| c == '\u{1680}'
    ||| ('\u{2000}' <= c && c <= '\u{200a}')
    ||| c == '\u{2028}'
    ||| c == '\u{2029}'
    ||| c == '\u{202f}'
    ||| c == '\u{205f}'
    ||| c == '\u{3000}'
}

/// The whitespace-separated words of `s`, in order, as `str::split_whitespace` yields them:
/// maximal runs of characters that are not white space.
pub open spec fn words(s: Seq<char>) -> Seq<Seq<char>>
    decreases s.len(),
{
    if s.len() == 0 {
        seq![]
    } else {
        let prev = words(s.drop_last());
        let c = s.last();
        if is_white_space(c) {
            prev
        } else if s.len() >= 2 && !is_white_space(s[s.len() - 2]) {
            prev.update(prev.len() - 1, prev.last().push(c))
        } else {
            prev.push(seq![c])
        }
    }
}

/// An ASCII decimal digit.
pub open spec fn is_digit(c: char) -> bool {
    '0' <= c && c <= '9'
}

/// The number that a string of decimal digits denotes.
pub open spec fn digits_value(d: Seq<char>) -> nat
    decreases d.len(),
{
    if d.len() == 0 {
        0
    } else {
        digits_value(d.drop_last()) * 10 + ((d.last() as nat) - ('0' as nat)) as nat
    }
}

/// The text of a number with its optional leading `+` taken off.
pub open spec fn unsigned_digits(s: Seq<char>) -> Seq<char> {
    if s.len() > 0 && s[0] == '+' {
        s.drop_first()
    } else {
        s
    }
}

/// Every character of `d` is an ASCII digit.
pub open spec fn all_digits(d: Seq<char>) -> bool {
    forall|i: int| 0 <= i < d.len() ==> is_digit(#[trigger] d[i])
}

/// The value that `str::parse` gives for an unsigned integer type whose largest value is `max`:
/// an optional `+`, then one or more ASCII digits whose value is at most `max`.
/// `None` where the text is refused.
pub open spec fn unsigned_value(s: Seq<char>, max: nat) -> Option<nat> {
    let d = unsigned_digits(s);
    if d.len() > 0 && all_digits(d) && digits_value(d) <= max {
        Some(digits_value(d))
    } else {
        None
    }
}

/// A number text with a character that is not a digit, after the optional `+`, is refused.
pub proof fn lemma_unsigned_value_refuses_non_digit(s: Seq<char>, max: nat, i: int)
    requires
        0 <= i < unsigned_digits(s).len(),
        !is_digit(unsigned_digits(s)[i]),
    ensures
        unsigned_value(s, max) is None,
{
}

/// A number text with no digit after the optional `+` is refused.
pub proof fn lemma_unsigned_value_refuses_empty(s: Seq<char>, max: nat)
    requires
        unsigned_digits(s).len() == 0,
    ensures
        unsigned_value(s, max) is None,
{
}

/// A non-empty text without white space: one word.
pub open spec fn is_word(w: Seq<char>) -> bool {
    w.len() > 0 && forall|i: int| 0 <= i < w.len() ==> !is_white_space(#[trigger] w[i])
}

/// The digit character of `d < 10`.
pub open spec fn digit_char(d: nat) -> char {
    if d == 0 {
        '0'
    } else if d == 1 {
        '1'
    } else if d == 2 {
        '2'
    } else if d == 3 {
        '3'
    } else if d == 4 {
        '4'
    } else if d == 5 {
        '5'
    } else if d == 6 {
        '6'
    } else if d == 7 {
        '7'
    } else if d == 8 {
        '8'
    } else {
        '9'
    }
}

/// The decimal notation of `n`, without leading zeros.
pub open spec fn decimal(n: nat) -> Seq<char>
    decreases n,
{
    if n < 10 {
        seq![digit_char(n)]
    } else {
        decimal(n / 10).push(digit_char(n % 10))
    }
}

proof fn lemma_digit_char(d: nat)
    requires
        d < 10,
    ensures
        is_digit(digit_char(d)),
        (digit_char(d) as nat) - ('0' as nat) == d,
{
}

/// The decimal notation of `n` is a non-empty string of digits that denotes `n`.
pub proof fn lemma_decimal(n: nat)
    ensures
        decimal(n).len() > 0,
        forall|i: int| 0 <= i < decimal(n).len() ==> is_digit(#[trigger] decimal(n)[i]),
        digits_value(decimal(n)) == n,
    decreases n,
{
    if n < 10 {
        lemma_digit_char(n);
        assert(decimal(n).drop_last() =~= Seq::<char>::empty());
        assert(digits_value(Seq::<char>::empty()) == 0);
        assert(decimal(n).last() == digit_char(n));
        assert(digits_value(decimal(n)) == 0 * 10 + ((digit_char(n) as nat) - ('0' as nat)) as nat);
    } else {
        lemma_digit_char(n % 10);
        lemma_decimal(n / 10);
        assert(n == (n / 10) * 10 + n % 10);
        let d = decimal(n);
        assert(d.drop_last() =~= decimal(n / 10));
        assert(d.last() == digit_char(n % 10));
        assert(digits_value(d) == digits_value(decimal(n / 10)) * 10 + ((digit_char(n % 10) as nat) - ('0' as nat)) as nat);
        assert forall|i: int| 0 <= i < d.len() implies is_digit(#[trigger] d[i]) by {
            if i < d.len() - 1 {
                assert(d[i] == decimal(n / 10)[i]);
            }
        }
    }
}

/// The value that `str::parse` gives for the decimal notation of a number that fits.
pub proof fn lemma_unsigned_value_of_decimal(n: nat, max: nat)
    requires
        n <= max,
    ensures
        unsigned_value(decimal(n), max) == Some(n),
{
    lemma_decimal(n);
    assert(decimal(n)[0] != '+') by {
        assert(is_digit(decimal(n)[0]));
    }
    assert(unsigned_digits(decimal(n)) == decimal(n));
    assert(all_digits(decimal(n)));
}

/// A text of digits has no white space.
pub proof fn lemma_digits_are_word(d: Seq<char>)
    requires
        d.len() > 0,
        forall|i: int| 0 <= i < d.len() ==> is_digit(#[trigger] d[i]),
    ensures
        is_word(d),
{
    assert forall|i: int| 0 <= i < d.len() implies !is_white_space(#[trigger] d[i]) by {
        assert(is_digit(d[i]));
    }
}

/// Appending white space adds no word.
pub proof fn lemma_words_push_space(x: Seq<char>, c: char)
    requires
        is_white_space(c),
    ensures
        words(x.push(c)) == words(x),
{
    assert(x.push(c).drop_last() =~= x);
}

/// A word appended after white space, or to nothing, is one more word.
pub proof fn lemma_words_append_word(x: Seq<char>, w: Seq<char>)
    requires
        is_word(w),
        x.len() == 0 || is_white_space(x.last()),
    ensures
        words(x + w) == words(x).push(w),
    decreases w.len(),
{
    let s = x + w;
    if w.len() == 1 {
        assert(s.drop_last() =~= x);
        assert(s.last() == w[0]);
        assert(w =~= seq![w[0]]);
        if s.len() >= 2 {
            assert(s[s.len() - 2] == x.last());
        }
    } else {
        let w1 = w.drop_last();
        assert(is_word(w1)) by {
            assert forall|i: int| 0 <= i < w1.len() implies !is_white_space(#[trigger] w1[i]) by {
                assert(w1[i] == w[i]);
            }
        }
        lemma_words_append_word(x, w1);
        assert(s.drop_last() =~= x + w1);
        assert(s.last() == w.last());
        assert(s[s.len() - 2] == w1.last());
        assert(!is_white_space(w[w.len() - 1]));
        assert(!is_white_space(w1[w1.len() - 1]));
        assert(w1.push(w.last()) =~= w);
        assert(words(x).push(w1).update(words(x).len() as int, w1.push(w.last())) =~= words(x).push(w));
    }
}

/// The code points of the Unicode `White_Space` property, as listed in the Unicode
/// Character Database (PropList.txt): the ones that `char::is_whitespace` accepts.
pub open spec fn white_space_code_points() -> Set<u32> {
    set![
        0x09u32, 0x0a, 0x0b, 0x0c, 0x0d, 0x20, 0x85, 0xa0, 0x1680, 0x2000, 0x2001, 0x2002,
        0x2003, 0x2004, 0x2005, 0x2006, 0x2007, 0x2008, 0x2009, 0x200a, 0x2028, 0x2029,
        0x202f, 0x205f, 0x3000,
    ]
}

/// A character separates words exactly when its code point has the Unicode `White_Space`
/// property.
pub proof fn law_white_space_is_unicode_white_space(c: char)
    ensures
        is_white_space(c) <==> white_space_code_points().contains(c as u32),
{
}

/// Among ASCII characters, exactly space, tab, line feed, vertical tab, form feed and
/// carriage return separate words; every visible ASCII character (`!` to `~`, such as `?`,
/// `=` or `&`) belongs to a word.
pub proof fn law_ascii_white_space(c: char)
    ensures
        (c as u32) < 128 ==> (is_white_space(c) <==> (c as u32 == 32 || (9 <= c as u32
            && c as u32 <= 13))),
        (33 <= c as u32 && c as u32 <= 126) ==> !is_white_space(c),
{
}

/// Executable form of `is_white_space`.
pub fn is_white_space_char(c: char) -> (r: bool)
    ensures
        r == is_white_space(c),
        r <==> white_space_code_points().contains(c as u32),
{
    ('\u{9}' <= c && c <= '\u{d}') || c == ' ' || c == '\u{85}' || c == '\u{a0}' || c == '\u{1680}'
        || ('\u{2000}' <= c && c <= '\u{200a}') || c == '\u{2028}' || c == '\u{2029}'
        || c == '\u{202f}' || c == '\u{205f}' || c == '\u{3000}'
}

/// The character ranges `[start, end)` of the words of `line`, in order.
pub fn word_bounds(line: &str) -> (bounds: Vec<(usize, usize)>)
    ensures
        bounds@.len() == words(line@).len(),
        forall|j: int|
            0 <= j < bounds@.len() ==> {
                &&& bounds@[j].0 <= bounds@[j].1 && bounds@[j].1 <= line@.len()
                &&& line@.subrange(bounds@[j].0 as int, bounds@[j].1 as int) == #[trigger] words(
                    line@,
                )[j]
            },
{
    let len = line.unicode_len();
    let ghost s = line@;
    let mut bounds: Vec<(usize, usize)> = Vec::new();
    let mut i: usize = 0;
    let mut in_word = false;
    assert(s.take(0) =~= Seq::<char>::empty());
    for c in it: line.chars()
        invariant
            len == s.len(),
            s == line@,
            it.seq() == s,
            i == it.index(),
            in_word == (i > 0 && !is_white_space(s[i - 1])),
            bounds@.len() == words(s.take(i as int)).len(),
            in_word ==> bounds@.len() > 0 && bounds@[bounds@.len() - 1].1 == i,
            forall|j: int|
                0 <= j < bounds@.len() ==> bounds@[j].0 <= #[trigger] bounds@[j].1 && bounds@[j].1 <= i,
            forall|j: int|
                0 <= j < bounds@.len() ==> s.subrange(bounds@[j].0 as int, bounds@[j].1 as int)
                    == #[trigger] words(s.take(i as int))[j],
    {
        assert(c == s[i as int]);
        let ghost prev = words(s.take(i as int));
        assert(s.take(i + 1).drop_last() =~= s.take(i as int));
        assert(s.take(i + 1).last() == c);
        let ghost next = words(s.take(i + 1));
        let ghost old_b = bounds@;
        if is_white_space_char(c) {
            assert(next == prev);
            assert forall|j: int| 0 <= j < bounds@.len() implies s.subrange(
                bounds@[j].0 as int,
                bounds@[j].1 as int,
            ) == #[trigger] next[j] by {
                assert(s.subrange(bounds@[j].0 as int, bounds@[j].1 as int) == prev[j]);
            }
            in_word = false;
        } else if in_word {
            let last = bounds.len() - 1;
            let start = bounds[last].0;
            assert(s.subrange(start as int, i as int) == prev[last as int]);
            assert(next == prev.update(last as int, prev[last as int].push(c)));
            assert(s.subrange(start as int, i + 1) =~= s.subrange(start as int, i as int).push(c));
            bounds.set(last, (start, i + 1));
            assert forall|j: int| 0 <= j < bounds@.len() implies s.subrange(
                bounds@[j].0 as int,
                bounds@[j].1 as int,
            ) == #[trigger] next[j] by {
                if j != last {
                    assert(s.subrange(bounds@[j].0 as int, bounds@[j].1 as int) == prev[j]);
                }
            }
        } else {
            assert(next == prev.push(seq![c]));
            assert(s.subrange(i as int, i + 1) =~= seq![c]);
            bounds.push((i, i + 1));
            assert forall|j: int| 0 <= j < bounds@.len() implies s.subrange(
                bounds@[j].0 as int,
                bounds@[j].1 as int,
            ) == #[trigger] next[j] by {
                if j < bounds@.len() - 1 {
                    assert(s.subrange(bounds@[j].0 as int, bounds@[j].1 as int) == prev[j]);
                }
            }
            in_word = true;
        }
        assert forall|j: int| 0 <= j < bounds@.len() implies bounds@[j].0 <= #[trigger] bounds@[j].1
            && bounds@[j].1 <= i + 1 by {
            if j < old_b.len() {
                assert(old_b[j].0 <= old_b[j].1 && old_b[j].1 <= i);
            }
        }
        i = i + 1;
    }
    assert(i == len);
    assert(s.take(len as int) =~= s);
    assert forall|j: int| 0 <= j < bounds@.len() implies {
        &&& bounds@[j].0 <= bounds@[j].1 && bounds@[j].1 <= line@.len()
        &&& line@.subrange(bounds@[j].0 as int, bounds@[j].1 as int) == #[trigger] words(line@)[j]
    } by {
        assert(s.subrange(bounds@[j].0 as int, bounds@[j].1 as int) == words(s.take(i as int))[j]);
    }
    bounds
}

} // verus!
