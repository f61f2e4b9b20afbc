//! Text: decimal numbers, prefixes, and the order of names.

use vstd::prelude::*;
use vstd::string::*;

verus! {

/// The character of a decimal digit.
pub open spec fn digit_char(d: int) -> char {
    ('0' as int + d) as char
}

/// A natural number in decimal, without leading zeros.
pub open spec fn decimal(n: int) -> Seq<char>
    decreases n,
{
    if n < 10 {
        seq![digit_char(n)]
    } else {
        decimal(n / 10).push(digit_char(n % 10))
    }
}

/// An integer in decimal, with a minus sign where it is negative.
pub open spec fn signed_decimal(n: int) -> Seq<char> {
    if n < 0 {
        seq!['-'] + decimal(-n)
    } else {
        decimal(n)
    }
}

/// Whether a character is a decimal digit.
pub open spec fn is_digit(c: char) -> bool {
    '0' <= c && c <= '9'
}

/// Whether every character is a decimal digit.
pub open spec fn all_digits(s: Seq<char>) -> bool {
    forall|i: int| 0 <= i < s.len() ==> is_digit(#[trigger] s[i])
}

/// The number that a sequence of decimal digits stands for.
pub open spec fn digits_value(s: Seq<char>) -> int
    decreases s.len(),
{
    if s.len() == 0 {
        0
    } else {
        10 * digits_value(s.drop_last()) + (s.last() as int - '0' as int)
    }
}

/// A number written in decimal reads back as that number.
pub proof fn decimal_reads_back(n: int)
    requires
        n >= 0,
    ensures
        decimal(n).len() > 0,
        all_digits(decimal(n)),
        digits_value(decimal(n)) == n,
    decreases n,
{
    reveal_with_fuel(digits_value, 2);
    if n >= 10 {
        decimal_reads_back(n / 10);
        assert(decimal(n).drop_last() =~= decimal(n / 10));
    } else {
        assert(decimal(n).drop_last() =~= Seq::<char>::empty());
    }
}

/// A run of digits stands for no less than its beginning does.
pub proof fn lemma_digits_grow(digits: Seq<char>, n: int)
    requires
        all_digits(digits),
        0 <= n <= digits.len(),
    ensures
        0 <= digits_value(digits.take(n)) <= digits_value(digits),
    decreases digits.len() - n,
{
    if n == digits.len() {
        assert(digits.take(n) =~= digits);
        lemma_digits_positive(digits);
    } else {
        lemma_digits_grow(digits, n + 1);
        let longer = digits.take(n + 1);
        assert(longer.drop_last() =~= digits.take(n));
        assert(is_digit(digits[n]));
        lemma_digits_positive(digits.take(n));
    }
}

proof fn lemma_digits_positive(digits: Seq<char>)
    requires
        all_digits(digits),
    ensures
        0 <= digits_value(digits),
    decreases digits.len(),
{
    if digits.len() > 0 {
        assert(is_digit(digits[digits.len() - 1]));
        assert(all_digits(digits.drop_last())) by {
            assert forall|i: int| 0 <= i < digits.drop_last().len() implies is_digit(
                #[trigger] digits.drop_last()[i],
            ) by {
                assert(is_digit(digits[i]));
            }
        }
        lemma_digits_positive(digits.drop_last());
    }
}

/// Two integers with the same decimal text are the same.
pub proof fn signed_decimal_is_injective(a: int, b: int)
    requires
        signed_decimal(a) == signed_decimal(b),
    ensures
        a == b,
{
    lemma_sign_shows(a);
    lemma_sign_shows(b);
    if a < 0 {
        decimal_reads_back(-a);
        decimal_reads_back(-b);
        assert(signed_decimal(a).skip(1) =~= decimal(-a));
        assert(signed_decimal(b).skip(1) =~= decimal(-b));
    } else {
        decimal_reads_back(a);
        decimal_reads_back(b);
    }
}

proof fn lemma_sign_shows(n: int)
    ensures
        signed_decimal(n).len() > 0,
        n < 0 <==> signed_decimal(n)[0] == '-',
{
    if n < 0 {
        assert(signed_decimal(n)[0] == '-');
    } else {
        decimal_reads_back(n);
        assert(is_digit(decimal(n)[0]));
    }
}

/// The text of one decimal digit.
fn digit_text(d: u64) -> (text: &'static str)
    requires
        d < 10,
    ensures
        text@ == seq![digit_char(d as int)],
{
    proof {
        reveal_strlit("0");
        reveal_strlit("1");
        reveal_strlit("2");
        reveal_strlit("3");
        reveal_strlit("4");
        reveal_strlit("5");
        reveal_strlit("6");
        reveal_strlit("7");
        reveal_strlit("8");
        reveal_strlit("9");
    }
    if d == 0 {
        "0"
    } else if d == 1 {
        "1"
    } else if d == 2 {
        "2"
    } else if d == 3 {
        "3"
    } else if d == 4 {
        "4"
    } else if d == 5 {
        "5"
    } else if d == 6 {
        "6"
    } else if d == 7 {
        "7"
    } else if d == 8 {
        "8"
    } else {
        "9"
    }
}

/// Appends a number in decimal.
pub fn append_decimal(out: &mut String, n: u64)
    ensures
        final(out)@ == old(out)@ + decimal(n as int),
    decreases n,
{
    if n >= 10 {
        append_decimal(out, n / 10);
    }
    let digit = digit_text(n % 10);
    out.append(digit);
    proof {
        assert(out@ =~= old(out)@ + decimal(n as int));
    }
}

/// Appends an integer in decimal.
pub fn append_signed(out: &mut String, n: i64)
    ensures
        final(out)@ == old(out)@ + signed_decimal(n as int),
{
    if n < 0 {
        proof {
            reveal_strlit("-");
        }
        out.append("-");
        let magnitude: u64 = (-(n as i128)) as u64;
        append_decimal(out, magnitude);
        proof {
            assert(out@ =~= old(out)@ + signed_decimal(n as int));
        }
    } else {
        append_decimal(out, n as u64);
    }
}

/// Whether `text` begins with `prefix`.
pub fn has_prefix(text: &str, prefix: &str) -> (r: bool)
    ensures
        r == prefix@.is_prefix_of(text@),
{
    let n: usize = prefix.unicode_len();
    if text.unicode_len() < n {
        return false;
    }
    let mut i: usize = 0;
    while i < n
        invariant
            i <= n,
            n == prefix@.len(),
            n <= text@.len(),
            forall|j: int| 0 <= j < i ==> text@[j] == prefix@[j],
        decreases n - i,
    {
        if text.get_char(i) != prefix.get_char(i) {
            assert(text@.subrange(0, n as int)[i as int] != prefix@[i as int]);
            return false;
        }
        i = i + 1;
    }
    assert(prefix@ =~= text@.subrange(0, n as int));
    true
}

/// `text` without `prefix`, where it begins with it.
pub open spec fn without_prefix(text: Seq<char>, prefix: Seq<char>) -> Seq<char> {
    if prefix.is_prefix_of(text) {
        text.skip(prefix.len() as int)
    } else {
        text
    }
}

/// `text` without `prefix` as often as it begins with it.
pub open spec fn without_prefixes(text: Seq<char>, prefix: Seq<char>) -> Seq<char>
    decreases text.len(),
{
    if prefix.len() > 0 && prefix.is_prefix_of(text) {
        without_prefixes(text.skip(prefix.len() as int), prefix)
    } else {
        text
    }
}

/// `text` without `prefix`, where it begins with it.
pub fn strip_text_prefix<'a>(text: &'a str, prefix: &str) -> (rest: &'a str)
    ensures
        rest@ == without_prefix(text@, prefix@),
{
    if has_prefix(text, prefix) {
        let rest = text.substring_char(prefix.unicode_len(), text.unicode_len());
        assert(rest@ =~= text@.skip(prefix@.len() as int));
        rest
    } else {
        text
    }
}

/// `text` without `prefix` as often as it begins with it.
pub fn strip_text_prefixes<'a>(text: &'a str, prefix: &str) -> (rest: &'a str)
    requires
        prefix@.len() > 0,
    ensures
        rest@ == without_prefixes(text@, prefix@),
{
    let mut rest: &'a str = text;
    while has_prefix(rest, prefix)
        invariant
            prefix@.len() > 0,
            without_prefixes(text@, prefix@) == without_prefixes(rest@, prefix@),
        ensures
            rest@ == without_prefixes(text@, prefix@),
        decreases rest@.len(),
    {
        rest = strip_text_prefix(rest, prefix);
    }
    rest
}

/// An identifier without the `minecraft:` in front, where it has it.
pub fn strip_namespace(id: &str) -> (name: &str)
    ensures
        name@ == without_prefix(id@, "minecraft:"@),
{
    strip_text_prefix(id, "minecraft:")
}

/// `text` without the character `c` at its end, as often as it ends with it.
pub open spec fn without_suffix_char(text: Seq<char>, c: char) -> Seq<char>
    decreases text.len(),
{
    if text.len() > 0 && text.last() == c {
        without_suffix_char(text.drop_last(), c)
    } else {
        text
    }
}

/// One more character `c` at the end makes no difference to a text without them.
pub proof fn one_more_suffix_char_is_dropped(text: Seq<char>, c: char)
    ensures
        without_suffix_char(text.push(c), c) == without_suffix_char(text, c),
{
    assert(text.push(c).drop_last() =~= text);
}

/// `text` without the character `c` at its end, as often as it ends with it.
pub fn strip_suffix_char<'a>(text: &'a str, c: char) -> (rest: &'a str)
    ensures
        rest@ == without_suffix_char(text@, c),
{
    let mut n: usize = text.unicode_len();
    assert(text@.take(n as int) =~= text@);
    while n > 0 && text.get_char(n - 1) == c
        invariant
            n <= text@.len(),
            without_suffix_char(text@, c) == without_suffix_char(text@.take(n as int), c),
        decreases n,
    {
        assert(text@.take(n as int).drop_last() =~= text@.take(n - 1));
        n = n - 1;
    }
    let rest = text.substring_char(0, n);
    assert(rest@ =~= text@.take(n as int));
    rest
}

/// `text` holds the character `c`.
pub fn has_char(text: &str, c: char) -> (r: bool)
    ensures
        r == text@.contains(c),
{
    let n: usize = text.unicode_len();
    let mut i: usize = 0;
    while i < n
        invariant
            n == text@.len(),
            i <= n,
            forall|j: int| 0 <= j < i ==> text@[j] != c,
        decreases n - i,
    {
        if text.get_char(i) == c {
            assert(text@[i as int] == c);
            return true;
        }
        i = i + 1;
    }
    false
}

/// Whether two texts are the same.
pub fn same_text(a: &str, b: &str) -> (r: bool)
    ensures
        r == (a@ == b@),
{
    let same: bool = a.unicode_len() == b.unicode_len() && has_prefix(a, b);
    proof {
        if same {
            assert(a@ =~= b@);
        } else if a@ == b@ {
            assert(a@ =~= b@.subrange(0, b@.len() as int));
        }
    }
    same
}

/// The alphabetical order of texts: by the first character in which they differ, the shorter one
/// first where there is none.
pub open spec fn text_before(a: Seq<char>, b: Seq<char>) -> bool
    decreases a.len(),
{
    if b.len() == 0 {
        false
    } else if a.len() == 0 {
        true
    } else if a[0] != b[0] {
        a[0] < b[0]
    } else {
        text_before(a.skip(1), b.skip(1))
    }
}

/// Whether `a` comes before `b` in alphabetical order.
pub fn comes_before(a: &str, b: &str) -> (r: bool)
    ensures
        r == text_before(a@, b@),
{
    let n: usize = a.unicode_len();
    let m: usize = b.unicode_len();
    let mut i: usize = 0;
    assert(a@.skip(0) =~= a@ && b@.skip(0) =~= b@);
    while i < n && i < m
        invariant
            n == a@.len(),
            m == b@.len(),
            i <= n,
            i <= m,
            text_before(a@, b@) == text_before(a@.skip(i as int), b@.skip(i as int)),
        decreases n - i,
    {
        let c: char = a.get_char(i);
        let d: char = b.get_char(i);
        if c != d {
            return c < d;
        }
        assert(a@.skip(i as int).skip(1) =~= a@.skip(i + 1));
        assert(b@.skip(i as int).skip(1) =~= b@.skip(i + 1));
        i = i + 1;
    }
    i < m
}

/// Alphabetical order is total: of two different texts one comes before the other, and not both.
pub proof fn text_order_is_total(a: Seq<char>, b: Seq<char>)
    ensures
        a == b ==> !text_before(a, b),
        a != b ==> (text_before(a, b) <==> !text_before(b, a)),
    decreases a.len(),
{
    if a.len() > 0 && b.len() > 0 && a[0] == b[0] {
        text_order_is_total(a.skip(1), b.skip(1));
        if a.skip(1) == b.skip(1) {
            assert(a =~= seq![a[0]] + a.skip(1));
            assert(b =~= seq![b[0]] + b.skip(1));
        }
    } else if a.len() == 0 && b.len() == 0 {
        assert(a =~= b);
    }
}

/// Alphabetical order is transitive.
pub proof fn text_order_is_transitive(a: Seq<char>, b: Seq<char>, c: Seq<char>)
    requires
        text_before(a, b),
        text_before(b, c),
    ensures
        text_before(a, c),
    decreases a.len(),
{
    if a.len() > 0 && a[0] == b[0] && b[0] == c[0] {
        text_order_is_transitive(a.skip(1), b.skip(1), c.skip(1));
    }
}

/// A digit more at the end of a number is a digit more at the end of its text.
pub proof fn decimals_grow_digit_by_digit(n: int, d: int)
    requires
        0 <= n,
        0 <= d < 10,
    ensures
        decimal(d).len() == 1,
        decimal(d)[0] as int == '0' as int + d,
        n > 0 ==> decimal(10 * n + d) == decimal(n).push(decimal(d)[0]),
        signed_decimal(n) == decimal(n),
        n > 0 ==> signed_decimal(-n) == seq!['-'] + decimal(n),
{
    if n > 0 {
        assert((10 * n + d) / 10 == n && (10 * n + d) % 10 == d);
    }
}

/// What was put in front of a text can be taken off again; a text that does not begin with it
/// stays as it is.
pub proof fn prefixes_come_off(prefix: Seq<char>, rest: Seq<char>)
    ensures
        without_prefix(prefix + rest, prefix) == rest,
        !prefix.is_prefix_of(rest) ==> without_prefix(rest, prefix) == rest,
        prefix.len() > 0 && !prefix.is_prefix_of(rest) ==> without_prefixes(rest, prefix) == rest,
        prefix.len() > 0 ==> without_prefixes(prefix + rest, prefix) == without_prefixes(
            rest,
            prefix,
        ),
{
    assert((prefix + rest).skip(prefix.len() as int) =~= rest);
    assert((prefix + rest).subrange(0, prefix.len() as int) =~= prefix);
}

/// What is left of a text without a character at its end is its beginning, does not end with that
/// character, and only that character was taken off.
pub proof fn only_the_suffix_comes_off(text: Seq<char>, c: char)
    ensures
        ({
            let rest = without_suffix_char(text, c);
            &&& rest.len() <= text.len()
            &&& text.take(rest.len() as int) == rest
            &&& rest.len() > 0 ==> rest.last() != c
            &&& forall|i: int| rest.len() <= i < text.len() ==> #[trigger] text[i] == c
        }),
    decreases text.len(),
{
    if text.len() > 0 && text.last() == c {
        let shorter = text.drop_last();
        only_the_suffix_comes_off(shorter, c);
        let rest = without_suffix_char(text, c);
        assert(text.take(rest.len() as int) =~= shorter.take(rest.len() as int));
        assert forall|i: int| rest.len() <= i < text.len() implies #[trigger] text[i] == c by {
            if i < shorter.len() {
                assert(shorter[i] == text[i]);
            }
        }
    } else {
        assert(text.take(text.len() as int) =~= text);
    }
}

/// Two texts are ordered as the first characters in which they differ, and a text comes before
/// every longer one that begins with it.
pub proof fn texts_are_ordered_by_the_first_difference(
    common: Seq<char>,
    a: char,
    b: char,
    rest_a: Seq<char>,
    rest_b: Seq<char>,
)
    ensures
        a < b ==> text_before(common + seq![a] + rest_a, common + seq![b] + rest_b),
        b < a ==> !text_before(common + seq![a] + rest_a, common + seq![b] + rest_b),
        text_before(common, common + seq![b] + rest_b),
        !text_before(common + seq![a] + rest_a, common),
    decreases common.len(),
{
    let left = common + seq![a] + rest_a;
    let right = common + seq![b] + rest_b;
    if common.len() > 0 {
        let shorter = common.skip(1);
        texts_are_ordered_by_the_first_difference(shorter, a, b, rest_a, rest_b);
        assert(left.skip(1) =~= shorter + seq![a] + rest_a);
        assert(right.skip(1) =~= shorter + seq![b] + rest_b);
        assert(left[0] == common[0] && right[0] == common[0]);
    } else {
        assert(left[0] == a && right[0] == b);
    }
}

} // verus!
