//! Reading text: the characters of a line, prefixes, and decimal numbers.

use vstd::prelude::*;
use vstd::string::StringExecFns;

verus! {

/// The characters of `text`.
pub fn chars_of(text: &str) -> (chars: Vec<char>)
    ensures
        chars@ == text@,
{
    let mut chars: Vec<char> = Vec::new();
    for c in it: text.chars()
        invariant
            chars@ == it.seq().take(it.index() as int),
            it.seq() == text@,
    {
        chars.push(c);
    }
    chars
}

/// What follows `prefix` in `line`, if `line` begins with `prefix`.
pub open spec fn after(line: Seq<char>, prefix: Seq<char>) -> Option<Seq<char>> {
    if prefix.is_prefix_of(line) {
        Some(line.skip(prefix.len() as int))
    } else {
        None
    }
}

/// What follows `prefix` in `line`, if `line` begins with `prefix`.
pub fn strip_prefix(line: &str, prefix: &str) -> (rest: Option<String>)
    ensures
        match rest {
            Some(rest) => after(line@, prefix@) == Some(rest@),
            None => after(line@, prefix@) is None,
        },
{
    let chars = chars_of(line);
    let n = prefix.unicode_len();
    if chars.len() < n {
        return None;
    }
    let mut i: usize = 0;
    while i < n
        invariant
            i <= n,
            n == prefix@.len(),
            n <= chars.len(),
            chars@ == line@,
            forall|j: int| 0 <= j < i ==> chars@[j] == prefix@[j],
        decreases n - i,
    {
        if chars[i] != prefix.get_char(i) {
            assert(line@.subrange(0, n as int)[i as int] != prefix@[i as int]);
            return None;
        }
        i += 1;
    }
    assert(prefix@ =~= line@.subrange(0, n as int));
    let rest = line.substring_char(n, chars.len());
    Some(rest.to_owned())
}

/// Whether `chars` spell exactly `word`.
pub fn spells(chars: &Vec<char>, word: &str) -> (same: bool)
    ensures
        same == (chars@ == word@),
{
    let n = word.unicode_len();
    if chars.len() != n {
        return false;
    }
    let mut i: usize = 0;
    while i < n
        invariant
            i <= n,
            n == word@.len(),
            n == chars.len(),
            forall|j: int| 0 <= j < i ==> chars@[j] == word@[j],
        decreases n - i,
    {
        if chars[i] != word.get_char(i) {
            return false;
        }
        i += 1;
    }
    assert(chars@ =~= word@);
    true
}

/// The character `c` is a decimal digit.
pub open spec fn is_digit(c: char) -> bool {
    '0' <= c <= '9'
}

/// The value of the decimal digit `c`.
pub open spec fn digit_value(c: char) -> nat {
    (c as nat - '0' as nat) as nat
}

/// All of `s` are decimal digits.
pub open spec fn all_digits(s: Seq<char>) -> bool {
    forall|i: int| 0 <= i < s.len() ==> is_digit(#[trigger] s[i])
}

/// The number that the decimal digits `s` write.
pub open spec fn digits_value(s: Seq<char>) -> nat
    decreases s.len(),
{
    if s.len() == 0 {
        0
    } else {
        digits_value(s.drop_last()) * 10 + digit_value(s.last())
    }
}

/// The digits of a decimal number that may begin with a plus sign.
pub open spec fn unsigned_digits(s: Seq<char>) -> Seq<char> {
    if s.len() > 0 && s[0] == '+' {
        s.skip(1)
    } else {
        s
    }
}

/// The number that `s` writes, if `s` is a decimal number that fits: an
/// optional plus sign and then at least one digit, nothing else.
pub open spec fn decimal(s: Seq<char>) -> Option<usize> {
    let digits = unsigned_digits(s);
    if digits.len() > 0 && all_digits(digits) && digits_value(digits) <= usize::MAX {
        Some(digits_value(digits) as usize)
    } else {
        None
    }
}

/// More digits do not write a smaller number.
pub proof fn lemma_digits_value_grows(s: Seq<char>, k: int)
    requires
        0 <= k <= s.len(),
    ensures
        digits_value(s.take(k)) <= digits_value(s),
    decreases s.len() - k,
{
    if k < s.len() {
        lemma_digits_value_grows(s, k + 1);
        assert(s.take(k + 1).drop_last() =~= s.take(k));
    } else {
        assert(s.take(k) =~= s);
    }
}

/// The value of the decimal digit `c`, if it is one.
pub fn digit_of(c: char) -> (d: Option<usize>)
    ensures
        match d {
            Some(d) => is_digit(c) && d == digit_value(c),
            None => !is_digit(c),
        },
{
    if '0' <= c && c <= '9' {
        Some((c as u32 - '0' as u32) as usize)
    } else {
        None
    }
}

/// The number that the characters of `chars` from `from` on write, if they
/// are a decimal number that fits. There is none if `from` lies behind the
/// end of `chars`.
pub fn parse_usize(chars: &Vec<char>, from: usize) -> (n: Option<usize>)
    ensures
        n == if from <= chars.len() {
            decimal(chars@.skip(from as int))
        } else {
            None
        },
{
    if from > chars.len() {
        return None;
    }
    let ghost s = chars@.skip(from as int);
    let start = if from < chars.len() && chars[from] == '+' {
        from + 1
    } else {
        from
    };
    let ghost digits = unsigned_digits(s);
    assert(digits =~= chars@.skip(start as int));
    if start == chars.len() {
        return None;
    }
    let mut value: usize = 0;
    let mut i: usize = start;
    while i < chars.len()
        invariant
            start <= i <= chars.len(),
            from <= start < chars.len(),
            digits == chars@.skip(start as int),
            digits == unsigned_digits(chars@.skip(from as int)),
            all_digits(digits.take(i - start)),
            value == digits_value(digits.take(i - start)),
        decreases chars.len() - i,
    {
        let ghost front = digits.take(i - start);
        let ghost longer = digits.take(i - start + 1);
        proof {
            assert(longer.drop_last() =~= front);
            assert(longer.last() == chars@[i as int]);
        }
        match digit_of(chars[i]) {
            Some(d) => {
                if value > (usize::MAX - d) / 10 {
                    proof {
                        assert(digits_value(longer) == value * 10 + d);
                        lemma_digits_value_grows(digits, i - start + 1);
                    }
                    return None;
                }
                value = value * 10 + d;
            },
            None => {
                assert(!is_digit(digits[i - start]));
                return None;
            },
        }
        assert forall|j: int| 0 <= j < longer.len() implies is_digit(#[trigger] longer[j]) by {
            if j < front.len() {
                assert(front[j] == longer[j]);
            }
        }
        i += 1;
    }
    assert(digits.take(i - start) =~= digits);
    Some(value)
}

/// The text `t` holds `piece` from the place `at` on.
pub open spec fn has_at(t: Seq<char>, at: int, piece: Seq<char>) -> bool {
    0 <= at && at + piece.len() <= t.len() && t.subrange(at, at + piece.len()) == piece
}

/// A text that holds two pieces in a row holds the first, and the second
/// behind it.
pub proof fn lemma_has_at_split(t: Seq<char>, at: int, first: Seq<char>, second: Seq<char>)
    requires
        has_at(t, at, first + second),
    ensures
        has_at(t, at, first),
        has_at(t, at + first.len(), second),
{
    let whole = first + second;
    assert(t.subrange(at, at + first.len()) =~= first) by {
        assert forall|i: int| 0 <= i < first.len() implies t.subrange(at, at + first.len())[i]
            == first[i] by {
            assert(t.subrange(at, at + whole.len())[i] == whole[i]);
        }
    }
    assert(t.subrange(at + first.len(), at + first.len() + second.len()) =~= second) by {
        assert forall|i: int| 0 <= i < second.len() implies t.subrange(
            at + first.len(),
            at + first.len() + second.len(),
        )[i] == second[i] by {
            assert(t.subrange(at, at + whole.len())[first.len() + i] == whole[first.len() + i]);
        }
    }
}

/// The character at the head of a piece that a text holds.
pub proof fn lemma_has_at_head(t: Seq<char>, at: int, piece: Seq<char>)
    requires
        has_at(t, at, piece),
        piece.len() > 0,
    ensures
        at < t.len(),
        t[at] == piece[0],
{
    assert(t.subrange(at, at + piece.len())[0] == piece[0]);
}

/// The decimal digit of the value `d`.
pub open spec fn digit_char(d: nat) -> char {
    if d == 0 {
        '0'
    } else if d == 1 {
        '1'
    } else if d == 2 {
        '2'
    } else if d == 3 {
        '3'
    } else if d == 4 {
        '4'
    } else if d == 5 {
        '5'
    } else if d == 6 {
        '6'
    } else if d == 7 {
        '7'
    } else if d == 8 {
        '8'
    } else {
        '9'
    }
}

/// The decimal digits that write `n`, without leading zeros.
pub open spec fn print_nat(n: nat) -> Seq<char>
    decreases n,
{
    if n < 10 {
        seq![digit_char(n)]
    } else {
        print_nat(n / 10).push(digit_char(n % 10))
    }
}

/// What writes a number is digits, at least one, and they write that
/// number.
pub proof fn lemma_print_nat(n: nat)
    ensures
        print_nat(n).len() > 0,
        all_digits(print_nat(n)),
        digits_value(print_nat(n)) == n,
    decreases n,
{
    if n < 10 {
        let p = print_nat(n);
        assert(p.drop_last() =~= Seq::<char>::empty());
        assert(digits_value(p.drop_last()) == 0);
    } else {
        lemma_print_nat(n / 10);
        let front = print_nat(n / 10);
        let p = print_nat(n);
        assert(p.drop_last() =~= front);
        assert forall|i: int| 0 <= i < p.len() implies is_digit(#[trigger] p[i]) by {
            if i < front.len() {
                assert(p[i] == front[i]);
            }
        }
    }
}

/// Where the digits that begin at `at` end.
pub open spec fn digits_end(t: Seq<char>, at: int) -> int
    decreases t.len() - at,
{
    if 0 <= at < t.len() && is_digit(t[at]) {
        digits_end(t, at + 1)
    } else {
        at
    }
}

/// The number that the digits at `at` write, if there is a digit at `at`
/// and the number is at most `max`, and the place behind the digits.
pub open spec fn read_nat(t: Seq<char>, at: int, max: nat) -> Option<(nat, int)> {
    let end = digits_end(t, at);
    if 0 <= at < end && digits_value(t.subrange(at, end)) <= max {
        Some((digits_value(t.subrange(at, end)), end))
    } else {
        None
    }
}

/// The digits that begin at `at` are digits, and what follows them is none.
pub proof fn lemma_digits_end(t: Seq<char>, at: int)
    requires
        0 <= at <= t.len(),
    ensures
        at <= digits_end(t, at) <= t.len(),
        all_digits(t.subrange(at, digits_end(t, at))),
        digits_end(t, at) < t.len() ==> !is_digit(t[digits_end(t, at)]),
        at < t.len() && is_digit(t[at]) ==> digits_end(t, at) > at,
    decreases t.len() - at,
{
    if at < t.len() && is_digit(t[at]) {
        lemma_digits_end(t, at + 1);
        let end = digits_end(t, at);
        assert forall|i: int| 0 <= i < end - at implies is_digit(
            #[trigger] t.subrange(at, end)[i],
        ) by {
            if i > 0 {
                assert(t.subrange(at + 1, end)[i - 1] == t[at + i]);
            }
        }
    }
}

/// Digits that are followed by something else end where they are followed.
pub proof fn lemma_digits_end_of(t: Seq<char>, at: int, end: int)
    requires
        0 <= at <= end <= t.len(),
        all_digits(t.subrange(at, end)),
        end < t.len() ==> !is_digit(t[end]),
    ensures
        digits_end(t, at) == end,
    decreases end - at,
{
    if at < end {
        assert(t.subrange(at, end)[0] == t[at]);
        assert forall|i: int| 0 <= i < end - at - 1 implies is_digit(
            #[trigger] t.subrange(at + 1, end)[i],
        ) by {
            assert(t.subrange(at, end)[i + 1] == t[at + 1 + i]);
        }
        lemma_digits_end_of(t, at + 1, end);
    }
}

/// A number that is written at `at`, with something that is no digit behind
/// it, is read back.
pub proof fn lemma_read_nat(t: Seq<char>, at: int, n: nat, max: nat)
    requires
        has_at(t, at, print_nat(n)),
        at + print_nat(n).len() < t.len() ==> !is_digit(t[at + print_nat(n).len()]),
        n <= max,
    ensures
        read_nat(t, at, max) == Some((n, at + print_nat(n).len())),
{
    lemma_print_nat(n);
    lemma_digits_end_of(t, at, at + print_nat(n).len());
}

/// The decimal digit of the value `d`, as text.
fn digit_text(d: u64) -> (text: &'static str)
    requires
        d < 10,
    ensures
        text@ == seq![digit_char(d as nat)],
{
    proof {
        reveal_strlit("0");
        reveal_strlit("1");
        reveal_strlit("2");
        reveal_strlit("3");
        reveal_strlit("4");
        reveal_strlit("5");
        reveal_strlit("6");
        reveal_strlit("7");
        reveal_strlit("8");
        reveal_strlit("9");
    }
    let text = if d == 0 {
        "0"
    } else if d == 1 {
        "1"
    } else if d == 2 {
        "2"
    } else if d == 3 {
        "3"
    } else if d == 4 {
        "4"
    } else if d == 5 {
        "5"
    } else if d == 6 {
        "6"
    } else if d == 7 {
        "7"
    } else if d == 8 {
        "8"
    } else {
        "9"
    };
    assert(text@ =~= seq![digit_char(d as nat)]);
    text
}

/// Writes the number `n` behind `out`.
pub fn push_nat(out: &mut String, n: u64)
    ensures
        final(out)@ == old(out)@ + print_nat(n as nat),
    decreases n,
{
    if n >= 10 {
        push_nat(out, n / 10);
    }
    let ghost before = out@;
    out.append(digit_text(n % 10));
    proof {
        if n >= 10 {
            assert(out@ =~= old(out)@ + print_nat(n as nat));
        } else {
            assert(out@ =~= old(out)@ + print_nat(n as nat));
        }
    }
}

/// Reads the number that the digits at `at` write, if there is a digit at
/// `at` and the number is at most `max`, and gives the place behind the
/// digits with it.
pub fn read_number(chars: &Vec<char>, at: usize, max: u64) -> (read: Option<(u64, usize)>)
    ensures
        match read {
            Some((n, next)) => read_nat(chars@, at as int, max as nat) == Some(
                (n as nat, next as int),
            ) && at < next <= chars.len() && n <= max,
            None => read_nat(chars@, at as int, max as nat) is None,
        },
{
    if at > chars.len() {
        return None;
    }
    let ghost t = chars@;
    let ghost end = digits_end(t, at as int);
    proof {
        lemma_digits_end(t, at as int);
    }
    let mut value: u64 = 0;
    let mut i: usize = at;
    while i < chars.len()
        invariant
            at <= i <= end <= chars.len(),
            t == chars@,
            end == digits_end(t, at as int),
            end == digits_end(t, i as int),
            all_digits(t.subrange(at as int, end)),
            value == digits_value(t.subrange(at as int, i as int)),
            value <= max,
        decreases chars.len() - i,
    {
        let ghost front = t.subrange(at as int, i as int);
        let ghost longer = t.subrange(at as int, i + 1);
        match digit_of(chars[i]) {
            Some(d) => {
                proof {
                    lemma_digits_end(t, i + 1);
                    assert(longer.drop_last() =~= front);
                    assert(longer.last() == t[i as int]);
                    assert(digits_value(longer) == value * 10 + d);
                    assert(t.subrange(at as int, end).take(i + 1 - at) =~= longer);
                    lemma_digits_value_grows(t.subrange(at as int, end), i + 1 - at);
                }
                let d = d as u64;
                if d > max || value > (max - d) / 10 {
                    return None;
                }
                value = value * 10 + d;
            },
            None => {
                return if i == at {
                    None
                } else {
                    Some((value, i))
                };
            },
        }
        i += 1;
    }
    if i == at {
        None
    } else {
        Some((value, i))
    }
}

} // verus!
