//! Reading and writing short texts: numbers, separators, white space.
//!
//! Texts are read as vectors of characters; a piece of one is given by the
//! positions at which it begins and ends.
use vstd::prelude::*;

verus! {

/// [`String::push`]: appends one character.
pub assume_specification[ String::push ](s: &mut String, c: char)
    ensures
        final(s)@ == old(s)@.push(c),
;

/// The value of a digit in bases up to sixteen; `16` for any other character.
pub open spec fn digit_value(c: char) -> nat {
    let code = c as nat;
    if 0x30 <= code <= 0x39 {
        (code - 0x30) as nat
    } else if 0x61 <= code <= 0x66 {
        (code - 0x61 + 10) as nat
    } else if 0x41 <= code <= 0x46 {
        (code - 0x41 + 10) as nat
    } else {
        16
    }
}

/// The lower-case digit of a value below sixteen.
pub open spec fn digit_char(value: nat) -> char {
    if value < 10 {
        (0x30 + value) as char
    } else {
        (0x61 + value - 10) as char
    }
}

/// Whether every character is a digit in this base.
pub open spec fn all_digits(s: Seq<char>, base: nat) -> bool {
    forall|i: int| 0 <= i < s.len() ==> digit_value(#[trigger] s[i]) < base
}

/// The number that a run of digits stands for.
pub open spec fn number(s: Seq<char>, base: nat) -> nat
    decreases s.len(),
{
    if s.len() == 0 {
        0
    } else {
        number(s.drop_last(), base) * base + digit_value(s.last())
    }
}

/// The digits of a number, without leading zeros.
pub open spec fn numeral(n: nat, base: nat) -> Seq<char>
    decreases n,
{
    if base < 2 || n < base {
        seq![digit_char(n)]
    } else {
        proof {
            vstd::arithmetic::div_mod::lemma_div_decreases(n as int, base as int);
        }
        numeral(n / base, base).push(digit_char(n % base))
    }
}

/// The decimal digits of a number.
pub open spec fn decimal(n: nat) -> Seq<char> {
    numeral(n, 10)
}

/// The characters that count as white space.
pub open spec fn is_white_space(c: char) -> bool {
    let code = c as u32;
    ||| 0x09 <= code <= 0x0d
    ||| code == 0x20
    ||| code == 0x85
    ||| code == 0xa0
    ||| code == 0x1680
    ||| 0x2000 <= code <= 0x200a
    ||| code == 0x2028
    ||| code == 0x2029
    ||| code == 0x202f
    ||| code == 0x205f
    ||| code == 0x3000
}

/// Without the white space that it begins with.
pub open spec fn trim_start(s: Seq<char>) -> Seq<char>
    decreases s.len(),
{
    if s.len() > 0 && is_white_space(s[0]) {
        trim_start(s.skip(1))
    } else {
        s
    }
}

/// Without the white space that it ends with.
pub open spec fn trim_end(s: Seq<char>) -> Seq<char>
    decreases s.len(),
{
    if s.len() > 0 && is_white_space(s.last()) {
        trim_end(s.drop_last())
    } else {
        s
    }
}

/// Without white space at either end.
pub open spec fn trim(s: Seq<char>) -> Seq<char> {
    trim_end(trim_start(s))
}

/// Where a character first occurs; the length where it does not.
pub open spec fn first_index(s: Seq<char>, c: char) -> nat
    decreases s.len(),
{
    if s.len() == 0 || s[0] == c {
        0
    } else {
        1 + first_index(s.skip(1), c)
    }
}

/// The pieces between separators, in order. There is always one more piece
/// than there are separators.
pub open spec fn pieces(s: Seq<char>, sep: char) -> Seq<Seq<char>>
    decreases s.len(),
{
    let i = first_index(s, sep);
    if i >= s.len() {
        seq![s]
    } else {
        seq![s.take(i as int)] + pieces(s.skip(i as int + 1), sep)
    }
}

pub proof fn lemma_first_index(s: Seq<char>, c: char)
    ensures
        first_index(s, c) <= s.len(),
        first_index(s, c) < s.len() ==> s[first_index(s, c) as int] == c,
        forall|i: int| 0 <= i < first_index(s, c) ==> s[i] != c,
    decreases s.len(),
{
    if s.len() > 0 && s[0] != c {
        lemma_first_index(s.skip(1), c);
        assert forall|i: int| 0 <= i < first_index(s, c) implies s[i] != c by {
            if i > 0 {
                assert(s.skip(1)[i - 1] == s[i]);
            }
        }
    }
}

/// A position is the first index of a character if the character stands there
/// (or the text ends there) and nowhere before.
pub proof fn lemma_first_index_is(s: Seq<char>, c: char, i: int)
    requires
        0 <= i <= s.len(),
        i < s.len() ==> s[i] == c,
        forall|k: int| 0 <= k < i ==> s[k] != c,
    ensures
        first_index(s, c) == i,
{
    lemma_first_index(s, c);
}

/// The digits of a number stand for it, without a leading zero.
pub proof fn lemma_numeral(n: nat, base: nat)
    requires
        2 <= base <= 16,
    ensures
        numeral(n, base).len() >= 1,
        all_digits(numeral(n, base), base),
        number(numeral(n, base), base) == n,
        n > 0 ==> numeral(n, base)[0] != '0',
        n < base ==> numeral(n, base).len() == 1,
    decreases n,
{
    let s = numeral(n, base);
    if n < base {
        assert(s.drop_last() =~= Seq::<char>::empty());
        assert(number(s.drop_last(), base) == 0);
        assert(0 * base == 0);
    } else {
        vstd::arithmetic::div_mod::lemma_div_decreases(n as int, base as int);
        vstd::arithmetic::div_mod::lemma_fundamental_div_mod(n as int, base as int);
        vstd::arithmetic::div_mod::lemma_mod_bound(n as int, base as int);
        vstd::arithmetic::div_mod::lemma_div_non_zero(n as int, base as int);
        let q = n / base;
        lemma_numeral(q, base);
        assert(s.drop_last() =~= numeral(q, base));
        assert(q * base == base * q) by (nonlinear_arith);
        assert(s[0] == numeral(q, base)[0]);
    }
}

/// The characters of a text.
pub fn chars_of(s: &str) -> (r: Vec<char>)
    ensures
        r@ == s@,
{
    let mut chars: Vec<char> = Vec::new();
    for c in it: s.chars()
        invariant
            it.seq() == s@,
            chars@ == s@.take(it.index()),
    {
        chars.push(c);
        assert(s@.take(it.index() + 1) =~= s@.take(it.index()).push(s@[it.index()]));
    }
    assert(s@.take(s@.len() as int) =~= s@);
    chars
}

/// The text of some characters.
pub fn text_of(chars: &Vec<char>, from: usize, to: usize) -> (r: String)
    requires
        from <= to <= chars@.len(),
    ensures
        r@ == chars@.subrange(from as int, to as int),
{
    let mut text: String = String::new();
    let mut i: usize = from;
    while i < to
        invariant
            from <= i <= to <= chars@.len(),
            text@ == chars@.subrange(from as int, i as int),
        decreases to - i,
    {
        text.push(chars[i]);
        assert(chars@.subrange(from as int, i + 1) =~= chars@.subrange(from as int, i as int).push(
            chars@[i as int],
        ));
        i += 1;
    }
    text
}

/// The value of a digit.
pub fn digit_of(c: char) -> (r: u32)
    ensures
        r == digit_value(c),
        r <= 16,
{
    let code: u32 = c as u32;
    if 0x30 <= code && code <= 0x39 {
        code - 0x30
    } else if 0x61 <= code && code <= 0x66 {
        code - 0x61 + 10
    } else if 0x41 <= code && code <= 0x46 {
        code - 0x41 + 10
    } else {
        16
    }
}

/// The digit of a value.
pub fn char_of(value: u8) -> (r: char)
    requires
        value < 16,
    ensures
        r == digit_char(value as nat),
{
    if value < 10 {
        (0x30 + value) as char
    } else {
        (0x61 + (value - 10)) as char
    }
}

/// Appends the digits of a number.
pub fn push_numeral(text: &mut String, n: u64, base: u64)
    requires
        2 <= base <= 16,
    ensures
        final(text)@ == old(text)@ + numeral(n as nat, base as nat),
    decreases n,
{
    if n >= base {
        proof {
            vstd::arithmetic::div_mod::lemma_div_decreases(n as int, base as int);
        }
        push_numeral(text, n / base, base);
    } else {
        proof {
            vstd::arithmetic::div_mod::lemma_small_mod(n as nat, base as nat);
        }
    }
    proof {
        vstd::arithmetic::div_mod::lemma_mod_bound(n as int, base as int);
    }
    text.push(char_of((n % base) as u8));
}

/// Whether a character is white space.
pub fn white_space(c: char) -> (r: bool)
    ensures
        r == is_white_space(c),
{
    let code: u32 = c as u32;
    (0x09 <= code && code <= 0x0d) || code == 0x20 || code == 0x85 || code == 0xa0 || code == 0x1680
        || (0x2000 <= code && code <= 0x200a) || code == 0x2028 || code == 0x2029 || code == 0x202f
        || code == 0x205f || code == 0x3000
}

/// The part of a piece that is left without white space at either end.
pub fn trimmed(chars: &Vec<char>, from: usize, to: usize) -> (r: (usize, usize))
    requires
        from <= to <= chars@.len(),
    ensures
        from <= r.0 <= r.1 <= to,
        chars@.subrange(r.0 as int, r.1 as int) == trim(chars@.subrange(from as int, to as int)),
{
    let mut start: usize = from;
    let ghost whole = chars@.subrange(from as int, to as int);
    while start < to && white_space(chars[start])
        invariant
            from <= start <= to <= chars@.len(),
            trim_start(whole) == trim_start(chars@.subrange(start as int, to as int)),
        decreases to - start,
    {
        assert(chars@.subrange(start as int, to as int).skip(1) =~= chars@.subrange(
            start + 1,
            to as int,
        ));
        start += 1;
    }
    let mut end: usize = to;
    let ghost front = chars@.subrange(start as int, to as int);
    assert(trim_start(whole) == front);
    while start < end && white_space(chars[end - 1])
        invariant
            from <= start <= end <= to <= chars@.len(),
            trim_end(front) == trim_end(chars@.subrange(start as int, end as int)),
        decreases end - start,
    {
        assert(chars@.subrange(start as int, end as int).drop_last() =~= chars@.subrange(
            start as int,
            end - 1,
        ));
        end -= 1;
    }
    (start, end)
}

/// Where a character first occurs in a piece; its end where it does not.
pub fn find(chars: &Vec<char>, from: usize, to: usize, c: char) -> (r: usize)
    requires
        from <= to <= chars@.len(),
    ensures
        from <= r <= to,
        r - from == first_index(chars@.subrange(from as int, to as int), c),
{
    let ghost piece = chars@.subrange(from as int, to as int);
    let mut i: usize = from;
    while i < to && chars[i] != c
        invariant
            from <= i <= to <= chars@.len(),
            piece == chars@.subrange(from as int, to as int),
            forall|k: int| 0 <= k < i - from ==> piece[k] != c,
        decreases to - i,
    {
        i += 1;
    }
    proof {
        lemma_first_index_is(piece, c, i - from);
    }
    i
}

/// Where the pieces between separators begin and end.
pub fn split(chars: &Vec<char>, from: usize, to: usize, sep: char) -> (r: Vec<(usize, usize)>)
    requires
        from <= to <= chars@.len(),
    ensures
        r@.len() == pieces(chars@.subrange(from as int, to as int), sep).len(),
        r@.len() > 0,
        forall|i: int|
            0 <= i < r@.len() ==> from <= (#[trigger] r@[i]).0 <= r@[i].1 <= to
                && chars@.subrange(r@[i].0 as int, r@[i].1 as int) == pieces(
                chars@.subrange(from as int, to as int),
                sep,
            )[i],
{
    let ghost whole = pieces(chars@.subrange(from as int, to as int), sep);
    let mut out: Vec<(usize, usize)> = Vec::new();
    let mut start: usize = from;
    let mut end: usize = find(chars, start, to, sep);
    while end < to
        invariant
            from <= start <= end <= to <= chars@.len(),
            end - start == first_index(chars@.subrange(start as int, to as int), sep),
            whole.len() == out@.len() + pieces(chars@.subrange(start as int, to as int), sep).len(),
            forall|i: int|
                0 <= i < out@.len() ==> from <= (#[trigger] out@[i]).0 <= out@[i].1 <= to
                    && chars@.subrange(out@[i].0 as int, out@[i].1 as int) == whole[i],
            forall|i: int|
                out@.len() <= i < whole.len() ==> #[trigger] whole[i] == pieces(
                    chars@.subrange(start as int, to as int),
                    sep,
                )[i - out@.len()],
        decreases to - end,
    {
        let ghost rest = chars@.subrange(start as int, to as int);
        let ghost done = out@;
        proof {
            assert(rest.skip(end - start + 1) =~= chars@.subrange(end + 1, to as int));
            assert(rest.take(end - start) =~= chars@.subrange(start as int, end as int));
            assert(whole[done.len() as int] == pieces(rest, sep)[0]);
        }
        out.push((start, end));
        start = end + 1;
        end = find(chars, start, to, sep);
        proof {
            let after = pieces(chars@.subrange(start as int, to as int), sep);
            assert(pieces(rest, sep).len() == 1 + after.len());
            assert forall|i: int| out@.len() <= i < whole.len() implies #[trigger] whole[i]
                == after[i - out@.len()] by {
                assert(whole[i] == pieces(rest, sep)[i - done.len()]);
            }
        }
    }
    proof {
        let rest = chars@.subrange(start as int, to as int);
        assert(pieces(rest, sep) =~= seq![rest]);
        assert(whole[out@.len() as int] == rest);
    }
    out.push((start, end));
    out
}

} // verus!
