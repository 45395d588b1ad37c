//! What reading and writing short texts promises.
use vstd::prelude::*;

use crate::text;

verus! {

/// Whether a character does not occur in a text.
pub open spec fn lacks(s: Seq<char>, c: char) -> bool {
    forall|i: int| 0 <= i < s.len() ==> s[i] != c
}

/// A text without separators is one piece, itself.
pub proof fn law_unseparated_text_is_one_piece(a: Seq<char>, sep: char)
    requires
        lacks(a, sep),
    ensures
        text::pieces(a, sep) == seq![a],
{
    text::lemma_first_index_is(a, sep, a.len() as int);
}

/// The pieces of two texts with a separator between them are those of the one
/// and then those of the other.
pub proof fn law_pieces_of_joined_texts(a: Seq<char>, b: Seq<char>, sep: char)
    ensures
        text::pieces(a + seq![sep] + b, sep) == text::pieces(a, sep) + text::pieces(b, sep),
        text::pieces(b, sep).len() > 0,
    decreases a.len(),
{
    let s = a + seq![sep] + b;
    let i = text::first_index(a, sep) as int;
    text::lemma_first_index(a, sep);
    assert forall|k: int| 0 <= k < i implies s[k] != sep by {
        assert(s[k] == a[k]);
    }
    assert(s[i] == sep);
    text::lemma_first_index_is(s, sep, i);
    assert(s.take(i) =~= a.take(i));
    if i >= a.len() {
        assert(a.take(i) =~= a);
        assert(s.skip(i + 1) =~= b);
    } else {
        let rest = a.skip(i + 1);
        assert(s.skip(i + 1) =~= rest + seq![sep] + b);
        law_pieces_of_joined_texts(rest, b, sep);
        assert(text::pieces(s, sep) =~= text::pieces(a, sep) + text::pieces(b, sep));
    }
}

/// A text is its first piece, and where there are more, a separator and a text
/// of the others.
pub proof fn law_text_is_its_pieces(s: Seq<char>, sep: char)
    ensures
        ({
            let p = text::pieces(s, sep);
            &&& p.len() > 0
            &&& lacks(p[0], sep)
            &&& p.len() == 1 ==> s == p[0]
            &&& p.len() > 1 ==> s == p[0] + seq![sep] + s.skip(p[0].len() as int + 1)
                && text::pieces(s.skip(p[0].len() as int + 1), sep) == p.skip(1)
        }),
{
    text::lemma_first_index(s, sep);
    let i = text::first_index(s, sep) as int;
    let p = text::pieces(s, sep);
    if i < s.len() {
        assert(p[0] == s.take(i));
        assert(p.skip(1) =~= text::pieces(s.skip(i + 1), sep));
        assert(s =~= s.take(i) + seq![sep] + s.skip(i + 1));
        law_pieces_of_joined_texts(s.take(i), s.skip(i + 1), sep);
    }
}

/// Trimming takes away the white space at both ends, and nothing else.
pub proof fn law_trim_leaves_the_middle(front: Seq<char>, middle: Seq<char>, back: Seq<char>)
    requires
        forall|i: int| 0 <= i < front.len() ==> text::is_white_space(#[trigger] front[i]),
        forall|i: int| 0 <= i < back.len() ==> text::is_white_space(#[trigger] back[i]),
        middle.len() > 0 ==> !text::is_white_space(middle[0]) && !text::is_white_space(
            middle.last(),
        ),
    ensures
        text::trim(front + middle + back) == middle,
    decreases front.len() + back.len(),
{
    let s = front + middle + back;
    if front.len() > 0 {
        assert(s[0] == front[0]);
        assert(s.skip(1) =~= front.skip(1) + middle + back);
        assert forall|i: int| 0 <= i < front.skip(1).len() implies text::is_white_space(
            #[trigger] front.skip(1)[i],
        ) by {
            assert(text::is_white_space(front[i + 1]));
        }
        law_trim_leaves_the_middle(front.skip(1), middle, back);
    } else if middle.len() == 0 {
        assert(s =~= back);
        lemma_all_white(back);
    } else {
        assert(s[0] == middle[0]);
        assert(text::trim_start(s) == s);
        lemma_trim_end(middle, back);
        assert(s =~= middle + back);
    }
}

proof fn lemma_all_white(s: Seq<char>)
    requires
        forall|i: int| 0 <= i < s.len() ==> text::is_white_space(#[trigger] s[i]),
    ensures
        text::trim_start(s) == Seq::<char>::empty(),
    decreases s.len(),
{
    if s.len() > 0 {
        assert(text::is_white_space(s[0]));
        assert forall|i: int| 0 <= i < s.skip(1).len() implies text::is_white_space(
            #[trigger] s.skip(1)[i],
        ) by {
            assert(text::is_white_space(s[i + 1]));
        }
        lemma_all_white(s.skip(1));
    } else {
        assert(s =~= Seq::<char>::empty());
    }
}

proof fn lemma_trim_end(middle: Seq<char>, back: Seq<char>)
    requires
        middle.len() > 0,
        !text::is_white_space(middle.last()),
        forall|i: int| 0 <= i < back.len() ==> text::is_white_space(#[trigger] back[i]),
    ensures
        text::trim_end(middle + back) == middle,
    decreases back.len(),
{
    let s = middle + back;
    if back.len() > 0 {
        assert(s.last() == back.last());
        assert(text::is_white_space(back[back.len() - 1]));
        assert(s.drop_last() =~= middle + back.drop_last());
        assert forall|i: int| 0 <= i < back.drop_last().len() implies text::is_white_space(
            #[trigger] back.drop_last()[i],
        ) by {
            assert(text::is_white_space(back[i]));
        }
        lemma_trim_end(middle, back.drop_last());
    } else {
        assert(s =~= middle);
    }
}

/// The white space that is taken away is that of Unicode: tabs and line ends,
/// spaces of every width, and the line and paragraph separators.
pub proof fn law_white_space_is_that_of_unicode(c: char)
    ensures
        text::is_white_space(c) <==> {
            let code = c as u32;
            ||| code == 0x9
            ||| code == 0xa
            ||| code == 0xb
            ||| code == 0xc
            ||| code == 0xd
            ||| code == 0x20
            ||| code == 0x85
            ||| code == 0xa0
            ||| code == 0x1680
            ||| 0x2000 <= code <= 0x200a
            ||| code == 0x2028
            ||| code == 0x2029
            ||| code == 0x202f
            ||| code == 0x205f
            ||| code == 0x3000
        },
{
}

/// The text of a number is made of digits that stand for it, in lower case, and
/// does not begin with a zero unless it is one.
pub proof fn law_numeral_is_the_shortest(n: nat, base: nat)
    requires
        2 <= base <= 16,
    ensures
        text::number(text::numeral(n, base), base) == n,
        text::numeral(n, base).len() >= 1,
        text::numeral(n, base).len() > 1 ==> text::numeral(n, base)[0] != '0',
        forall|i: int|
            0 <= i < text::numeral(n, base).len() ==> {
                let c = #[trigger] text::numeral(n, base)[i];
                ('0' <= c && c <= '9') || ('a' <= c && c <= 'f')
            },
    decreases n,
{
    text::lemma_numeral(n, base);
    let s = text::numeral(n, base);
    if n >= base {
        vstd::arithmetic::div_mod::lemma_div_decreases(n as int, base as int);
        vstd::arithmetic::div_mod::lemma_mod_bound(n as int, base as int);
        law_numeral_is_the_shortest(n / base, base);
        assert forall|i: int| 0 <= i < s.len() implies {
            let c = #[trigger] s[i];
            ('0' <= c && c <= '9') || ('a' <= c && c <= 'f')
        } by {
            if i < s.len() - 1 {
                assert(s[i] == text::numeral(n / base, base)[i]);
            }
        }
    }
}

/// A run of decimal digits without a leading zero is the text of the number that
/// it stands for: no two such texts stand for one number.
pub proof fn law_decimal_texts_are_unique(s: Seq<char>)
    requires
        s.len() >= 1,
        text::all_digits(s, 10),
        s.len() > 1 ==> s[0] != '0',
    ensures
        text::decimal(text::number(s, 10)) == s,
    decreases s.len(),
{
    let t = s.drop_last();
    let d = text::digit_value(s.last());
    assert(text::digit_value(s[s.len() - 1]) < 10);
    lemma_digit(s.last());
    if s.len() == 1 {
        assert(text::number(t, 10) == 0);
        assert(seq![text::digit_char(d)] =~= s);
    } else {
        assert(t[0] == s[0]);
        assert forall|i: int| 0 <= i < t.len() implies text::digit_value(#[trigger] t[i]) < 10 by {
            assert(text::digit_value(s[i]) < 10);
        }
        law_decimal_texts_are_unique(t);
        let q = text::number(t, 10);
        lemma_leading_digit(t);
        let n = text::number(s, 10);
        assert(n == q * 10 + d);
        assert(n / 10 == q && n % 10 == d);
        assert(text::numeral(n, 10) == text::numeral(q, 10).push(text::digit_char(d)));
        assert(t.push(s.last()) =~= s);
    }
}

proof fn lemma_digit(c: char)
    requires
        text::digit_value(c) < 10,
    ensures
        text::digit_char(text::digit_value(c)) == c,
        c != '0' ==> text::digit_value(c) >= 1,
{
}

proof fn lemma_leading_digit(s: Seq<char>)
    requires
        s.len() >= 1,
        text::all_digits(s, 10),
        s[0] != '0',
    ensures
        text::number(s, 10) >= 1,
    decreases s.len(),
{
    let t = s.drop_last();
    assert(text::digit_value(s[0]) < 10);
    lemma_digit(s[0]);
    if s.len() == 1 {
        assert(s.last() == s[0]);
    } else {
        assert(t[0] == s[0]);
        assert forall|i: int| 0 <= i < t.len() implies text::digit_value(#[trigger] t[i]) < 10 by {
            assert(text::digit_value(s[i]) < 10);
        }
        lemma_leading_digit(t);
    }
}

} // verus!
