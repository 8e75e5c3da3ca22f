//! Text primitives: decimal digits, padding, trimming, searching and UTF-16.

use vstd::prelude::*;
use vstd::string::*;

use crate::balance;

verus! {

/// The character of one decimal digit.
pub open spec fn digit_char(d: int) -> char {
    ('0' as int + d) as char
}

/// Decimal digits of `n`, most significant first, with no leading zero.
pub open spec fn decimal(n: nat) -> Seq<char>
    decreases n,
{
    if n < 10 {
        seq![digit_char(n as int)]
    } else {
        decimal(n / 10).push(digit_char((n % 10) as int))
    }
}

/// `count` copies of a space.
pub open spec fn spaces(count: int) -> Seq<char> {
    Seq::new(
        if count > 0 {
            count as nat
        } else {
            0
        },
        |i: int| ' ',
    )
}

/// `s`, right-aligned in a field of `width` characters.
pub open spec fn pad_left(s: Seq<char>, width: int) -> Seq<char> {
    spaces(width - s.len()) + s
}

/// Digits split into groups of three from the right, with a space between them.
pub open spec fn grouped(digits: Seq<char>) -> Seq<char>
    decreases digits.len(),
{
    if digits.len() <= 3 {
        digits
    } else {
        grouped(digits.take(digits.len() - 3)).push(' ') + digits.skip(digits.len() - 3)
    }
}

/// The Unicode property White_Space.
pub open spec fn white_space(c: char) -> bool {
    ||| '\u{9}' <= c <= '\u{d}'
    ||| c == ' '
    ||| c == '\u{85}'
    ||| c == '\u{a0}'
    ||| c == '\u{1680}'
    ||| '\u{2000}' <= c <= '\u{200a}'
    ||| c == '\u{2028}'
    ||| c == '\u{2029}'
    ||| c == '\u{202f}'
    ||| c == '\u{205f}'
    ||| c == '\u{3000}'
}

/// `s` without leading white space.
pub open spec fn trim_start(s: Seq<char>) -> Seq<char>
    decreases s.len(),
{
    if s.len() > 0 && white_space(s[0]) {
        trim_start(s.skip(1))
    } else {
        s
    }
}

/// `s` without trailing white space.
pub open spec fn trim_end(s: Seq<char>) -> Seq<char>
    decreases s.len(),
{
    if s.len() > 0 && white_space(s.last()) {
        trim_end(s.drop_last())
    } else {
        s
    }
}

/// `s` without leading and trailing white space.
pub open spec fn trimmed(s: Seq<char>) -> Seq<char> {
    trim_end(trim_start(s))
}

/// Whether `needle` stands somewhere in `hay`.
pub open spec fn contains_text(hay: Seq<char>, needle: Seq<char>) -> bool {
    exists|i: int| #[trigger] occurs_at(hay, needle, i)
}

/// Whether `needle` stands in `hay` from position `i` on.
pub open spec fn occurs_at(hay: Seq<char>, needle: Seq<char>, i: int) -> bool {
    &&& 0 <= i
    &&& i + needle.len() <= hay.len()
    &&& hay.subrange(i, i + needle.len()) == needle
}

/// UTF-16 code units of one character.
pub open spec fn utf16_units(c: char) -> Seq<u16> {
    let code = c as int;
    if code < 0x10000 {
        seq![code as u16]
    } else {
        seq![
            (0xD800 + (code - 0x10000) / 0x400) as u16,
            (0xDC00 + (code - 0x10000) % 0x400) as u16,
        ]
    }
}

/// UTF-16 code units of a text.
pub open spec fn utf16(s: Seq<char>) -> Seq<u16>
    decreases s.len(),
{
    if s.len() == 0 {
        seq![]
    } else {
        utf16(s.drop_last()) + utf16_units(s.last())
    }
}

/// The characters of a text.
pub fn char_vec(s: &str) -> (chars: Vec<char>)
    ensures
        chars@ == s@,
{
    let mut chars: Vec<char> = Vec::new();
    for c in it: s.chars()
        invariant
            chars@ == it.seq().take(it.index() as int),
    {
        chars.push(c);
    }
    chars
}

/// Whether two texts hold the same characters.
pub fn same_text(a: &str, b: &str) -> (same: bool)
    ensures
        same == (a@ == b@),
{
    a.to_owned() == b.to_owned()
}

fn digit_text(d: u64) -> (s: &'static str)
    requires
        d < 10,
    ensures
        s@ == seq![digit_char(d as int)],
{
    proof {
        reveal_strlit("0");
        reveal_strlit("1");
        reveal_strlit("2");
        reveal_strlit("3");
        reveal_strlit("4");
        reveal_strlit("5");
        reveal_strlit("6");
        reveal_strlit("7");
        reveal_strlit("8");
        reveal_strlit("9");
    }
    let s: &'static str = match d {
        0 => "0",
        1 => "1",
        2 => "2",
        3 => "3",
        4 => "4",
        5 => "5",
        6 => "6",
        7 => "7",
        8 => "8",
        _ => "9",
    };
    assert(s@ =~= seq![digit_char(d as int)]);
    s
}

/// `n` in decimal.
pub fn decimal_text(n: u64) -> (s: String)
    ensures
        s@ == decimal(n as nat),
    decreases n,
{
    if n < 10 {
        digit_text(n).to_owned()
    } else {
        let mut s = decimal_text(n / 10);
        s.append(digit_text(n % 10));
        s
    }
}

/// `n`, right-aligned in a field of `width` characters.
pub fn padded_text(n: u64, width: usize) -> (s: String)
    ensures
        s@ == pad_left(decimal(n as nat), width as int),
{
    let digits = decimal_text(n);
    let count: usize = digits.as_str().unicode_len();
    let mut s = String::new();
    let mut i: usize = count;
    proof {
        reveal_strlit(" ");
    }
    while i < width
        invariant
            count == digits@.len(),
            count <= i,
            i <= width || i == count,
            s@ == spaces(i - count),
            " "@ == seq![' '],
        decreases width - i,
    {
        s.append(" ");
        i = i + 1;
        assert(s@ =~= spaces(i - count));
    }
    s.append(digits.as_str());
    s
}

/// The last two decimal digits of `n`.
pub open spec fn two_digits(n: int) -> Seq<char> {
    seq![digit_char(n / 10 % 10), digit_char(n % 10)]
}

/// `n` below one hundred, zero-padded to two digits.
pub fn two_digit_text(n: u64) -> (s: String)
    requires
        n < 100,
    ensures
        s@ == two_digits(n as int),
{
    let mut s = digit_text(n / 10).to_owned();
    s.append(digit_text(n % 10));
    assert(s@ =~= two_digits(n as int));
    s
}

/// A number of four or more digits ends in three digits after its thousands.
pub proof fn lemma_decimal_thousands(n: nat)
    requires
        n >= 1000,
    ensures
        decimal(n) == decimal(n / 1000) + seq![
            digit_char(n as int / 100 % 10),
            digit_char(n as int / 10 % 10),
            digit_char(n as int % 10),
        ],
{
    assert(decimal(n) == decimal(n / 10).push(digit_char((n % 10) as int)));
    assert(decimal(n / 10) == decimal(n / 10 / 10).push(digit_char((n / 10 % 10) as int)));
    assert(decimal(n / 10 / 10) == decimal(n / 10 / 10 / 10).push(
        digit_char((n / 10 / 10 % 10) as int),
    ));
    assert(n / 10 / 10 == n / 100);
    assert(n / 10 / 10 / 10 == n / 1000);
    assert(decimal(n) =~= decimal(n / 1000) + seq![
        digit_char(n as int / 100 % 10),
        digit_char(n as int / 10 % 10),
        digit_char(n as int % 10),
    ]);
}

/// A number below one thousand has at most three digits.
pub proof fn lemma_decimal_short(n: nat)
    requires
        n < 1000,
    ensures
        1 <= decimal(n).len() <= 3,
        n >= 100 ==> decimal(n).len() == 3,
{
    reveal_with_fuel(decimal, 3);
}

/// `n` in decimal, in groups of three digits.
pub fn grouped_text(n: u64) -> (s: String)
    ensures
        s@ == grouped(decimal(n as nat)),
    decreases n,
{
    if n < 1000 {
        proof {
            lemma_decimal_short(n as nat);
        }
        decimal_text(n)
    } else {
        let mut s = grouped_text(n / 1000);
        s.append(" ");
        s.append(digit_text(n / 100 % 10));
        s.append(two_digit_text(n % 100).as_str());
        proof {
            reveal_strlit(" ");
            lemma_decimal_thousands(n as nat);
            let all = decimal(n as nat);
            let high = decimal(n as nat / 1000);
            assert(high.len() > 0);
            assert(all.take(all.len() - 3) =~= high);
            assert(n % 100 / 10 % 10 == n / 10 % 10);
            assert(n % 100 % 10 == n % 10);
            assert(s@ =~= grouped(high).push(' ') + all.skip(all.len() - 3));
        }
        s
    }
}

/// Whether `c` has the Unicode property White_Space.
pub fn is_white_space(c: char) -> (w: bool)
    ensures
        w == white_space(c),
{
    ('\u{9}' <= c && c <= '\u{d}') || c == ' ' || c == '\u{85}' || c == '\u{a0}' || c == '\u{1680}'
        || ('\u{2000}' <= c && c <= '\u{200a}') || c == '\u{2028}' || c == '\u{2029}' || c
        == '\u{202f}' || c == '\u{205f}' || c == '\u{3000}'
}

/// `s` without leading and trailing white space.
pub fn trim(s: &str) -> (t: &str)
    ensures
        t@ == trimmed(s@),
{
    let chars = char_vec(s);
    let mut start: usize = 0;
    assert(s@.skip(0) =~= s@);
    while start < chars.len() && is_white_space(chars[start])
        invariant
            start <= chars.len(),
            chars@ == s@,
            trim_start(s@.skip(start as int)) == trim_start(s@),
        decreases chars.len() - start,
    {
        assert(s@.skip(start as int).skip(1) =~= s@.skip(start + 1));
        start = start + 1;
    }
    assert(trim_start(s@) == s@.skip(start as int));
    let mut end: usize = chars.len();
    assert(s@.subrange(start as int, end as int) =~= s@.skip(start as int));
    while start < end && is_white_space(chars[end - 1])
        invariant
            start <= end <= chars.len(),
            chars@ == s@,
            trim_end(s@.subrange(start as int, end as int)) == trimmed(s@),
        decreases end,
    {
        assert(s@.subrange(start as int, end as int).drop_last() =~= s@.subrange(
            start as int,
            end - 1,
        ));
        end = end - 1;
    }
    s.substring_char(start, end)
}

/// Whether `needle` stands in `hay` from position `i` on.
fn stands_at(hay: &Vec<char>, needle: &Vec<char>, i: usize) -> (found: bool)
    requires
        i + needle@.len() <= hay@.len(),
    ensures
        found == occurs_at(hay@, needle@, i as int),
{
    let mut k: usize = 0;
    while k < needle.len()
        invariant
            i + needle@.len() <= hay@.len(),
            k <= needle@.len(),
            forall|j: int| 0 <= j < k ==> hay@[i + j] == #[trigger] needle@[j],
        decreases needle@.len() - k,
    {
        assert(i + k < hay.len());
        if hay[i + k] != needle[k] {
            assert(hay@.subrange(i as int, i + needle@.len())[k as int] == hay@[i + k]);
            return false;
        }
        k = k + 1;
    }
    assert(hay@.subrange(i as int, i + needle@.len()) =~= needle@);
    true
}

/// Whether `needle` stands somewhere in `hay`.
pub fn contains(hay: &str, needle: &str) -> (found: bool)
    ensures
        found == contains_text(hay@, needle@),
{
    let h = char_vec(hay);
    let n = char_vec(needle);
    if h.len() < n.len() {
        return false;
    }
    let mut i: usize = 0;
    while i <= h.len() - n.len()
        invariant
            h@ == hay@,
            n@ == needle@,
            n@.len() <= h@.len(),
            i <= h@.len() - n@.len() + 1,
            forall|j: int| 0 <= j < i ==> !#[trigger] occurs_at(h@, n@, j),
        decreases h@.len() + 1 - i,
    {
        if stands_at(&h, &n, i) {
            return true;
        }
        if i == h.len() - n.len() {
            return false;
        }
        i = i + 1;
    }
    false
}

/// Appends the UTF-16 code units of `c`.
fn push_utf16(units: &mut Vec<u16>, c: char)
    ensures
        final(units)@ == old(units)@ + utf16_units(c),
{
    let code: u32 = c as u32;
    if code < 0x10000 {
        units.push(code as u16);
    } else {
        units.push((0xD800 + (code - 0x10000) / 0x400) as u16);
        units.push((0xDC00 + (code - 0x10000) % 0x400) as u16);
    }
    assert(units@ =~= old(units)@ + utf16_units(c));
}

/// UTF-16 code units of `s`.
pub fn utf16_text(s: &str) -> (units: Vec<u16>)
    ensures
        units@ == utf16(s@),
{
    let chars = char_vec(s);
    let mut units: Vec<u16> = Vec::new();
    let mut i: usize = 0;
    while i < chars.len()
        invariant
            chars@ == s@,
            i <= chars@.len(),
            units@ == utf16(s@.take(i as int)),
        decreases chars@.len() - i,
    {
        push_utf16(&mut units, chars[i]);
        proof {
            let next = s@.take(i + 1);
            assert(next.drop_last() =~= s@.take(i as int));
        }
        i = i + 1;
    }
    assert(s@.take(s@.len() as int) =~= s@);
    units
}

/// NUL-terminated UTF-16, the form in which the window system takes a name.
pub fn str_to_wide(s: &str) -> (units: Vec<u16>)
    ensures
        units@ == utf16(s@).push(0),
{
    let mut units = utf16_text(s);
    units.push(0);
    units
}

proof fn lemma_trim_end_keeps_the_start(s: Seq<char>)
    ensures
        trim_end(s).len() <= s.len(),
        trim_end(s) == s.take(trim_end(s).len() as int),
        trim_end(s).len() > 0 ==> !white_space(trim_end(s).last()),
    decreases s.len(),
{
    if s.len() > 0 && white_space(s.last()) {
        lemma_trim_end_keeps_the_start(s.drop_last());
        let t = trim_end(s.drop_last());
        assert(s.drop_last().take(t.len() as int) =~= s.take(t.len() as int));
    } else {
        assert(s.take(s.len() as int) =~= s);
    }
}

proof fn lemma_trim_start_ends_white_space(s: Seq<char>)
    ensures
        trim_start(s).len() > 0 ==> !white_space(trim_start(s)[0]),
    decreases s.len(),
{
    if s.len() > 0 && white_space(s[0]) {
        lemma_trim_start_ends_white_space(s.skip(1));
    }
}

/// Trimmed text neither starts nor ends with white space.
pub proof fn law_trimmed_text_has_no_outer_white_space(s: Seq<char>)
    ensures
        trimmed(s).len() > 0 ==> !white_space(trimmed(s)[0]) && !white_space(trimmed(s).last()),
        trimmed(trimmed(s)) == trimmed(s),
{
    lemma_trim_start_ends_white_space(s);
    lemma_trim_end_keeps_the_start(trim_start(s));
}

proof fn lemma_decimal_is_digits(n: nat)
    ensures
        decimal(n).len() > 0,
        n > 0 ==> decimal(n)[0] != '0',
        forall|i: int| 0 <= i < decimal(n).len() ==> '0' <= #[trigger] decimal(n)[i] <= '9',
    decreases n,
{
    if n >= 10 {
        lemma_decimal_is_digits(n / 10);
        assert forall|i: int| 0 <= i < decimal(n).len() implies '0' <= #[trigger] decimal(n)[i]
            <= '9' by {
            if i < decimal(n).len() - 1 {
                assert(decimal(n)[i] == decimal(n / 10)[i]);
            }
        }
    }
}

/// A number is written in decimal digits that add up to it, with no zero in
/// front unless it is zero itself.
pub proof fn law_decimal_digits_add_up(n: nat)
    ensures
        forall|i: int| 0 <= i < decimal(n).len() ==> '0' <= #[trigger] decimal(n)[i] <= '9',
        balance::digits_value(decimal(n)) == n,
        n > 0 ==> decimal(n)[0] != '0',
        n == 0 ==> decimal(n) == seq!['0'],
{
    lemma_decimal_is_digits(n);
    balance::lemma_value_of_decimal(n);
}

/// Two digits are always two, and add up to the number.
pub proof fn law_two_digits_add_up(n: int)
    requires
        0 <= n < 100,
    ensures
        two_digits(n).len() == 2,
        '0' <= two_digits(n)[0] <= '9',
        '0' <= two_digits(n)[1] <= '9',
        n == 10 * (two_digits(n)[0] as int - '0' as int) + (two_digits(n)[1] as int - '0' as int),
{
}

/// Padding puts spaces in front, as many as the field has left, and keeps the
/// text whole.
pub proof fn law_padding_only_adds_spaces_in_front(s: Seq<char>, width: int)
    ensures
        pad_left(s, width).len() == if s.len() < width {
            width
        } else {
            s.len() as int
        },
        pad_left(s, width).skip(pad_left(s, width).len() - s.len()) == s,
        forall|i: int|
            0 <= i < pad_left(s, width).len() - s.len() ==> #[trigger] pad_left(s, width)[i] == ' ',
{
    assert(pad_left(s, width).skip(pad_left(s, width).len() - s.len()) =~= s);
}

/// Counted from the right, every fourth character of a grouped number is a
/// space and the others are its digits in order; it never starts with a space.
pub proof fn law_groups_are_of_three(digits: Seq<char>)
    ensures
        digits.len() > 0 ==> grouped(digits).len() == digits.len() + (digits.len() - 1) / 3,
        digits.len() == 0 ==> grouped(digits).len() == 0,
        forall|k: int|
            0 <= k < grouped(digits).len() ==> #[trigger] grouped(digits)[grouped(digits).len() - 1
                - k] == if k % 4 == 3 {
                ' '
            } else {
                digits[digits.len() - 1 - (k - k / 4)]
            },
    decreases digits.len(),
{
    let all = grouped(digits);
    if digits.len() > 3 {
        let high = digits.take(digits.len() - 3);
        let low = digits.skip(digits.len() - 3);
        law_groups_are_of_three(high);
        let g = grouped(high);
        assert(all == g.push(' ') + low);
        assert forall|k: int| 0 <= k < all.len() implies #[trigger] all[all.len() - 1 - k] == if k
            % 4 == 3 {
            ' '
        } else {
            digits[digits.len() - 1 - (k - k / 4)]
        } by {
            if k < 3 {
                assert(all[all.len() - 1 - k] == low[2 - k]);
            } else if k > 3 {
                let j = k - 4;
                assert(all[all.len() - 1 - k] == g[g.len() - 1 - j]);
                assert(k - k / 4 == 3 + (j - j / 4));
                assert(k % 4 == j % 4);
                assert(g[g.len() - 1 - j] == if j % 4 == 3 {
                    ' '
                } else {
                    high[high.len() - 1 - (j - j / 4)]
                });
            }
        }
    }
}

/// White space is the twenty-five characters that Unicode counts as such.
pub proof fn law_white_space_is_what_unicode_lists(c: char)
    ensures
        white_space(c) <==> {
            let code = c as int;
            ||| code == 0x9 || code == 0xA || code == 0xB || code == 0xC || code == 0xD
            ||| code == 0x20 || code == 0x85 || code == 0xA0 || code == 0x1680
            ||| 0x2000 <= code < 0x200B
            ||| code == 0x2028 || code == 0x2029 || code == 0x202F || code == 0x205F
            ||| code == 0x3000
        },
{
}

proof fn lemma_trim_start_keeps_the_end(s: Seq<char>)
    ensures
        trim_start(s).len() <= s.len(),
        trim_start(s) == s.skip(s.len() - trim_start(s).len()),
        forall|k: int|
            0 <= k < s.len() - trim_start(s).len() ==> white_space(#[trigger] s[k]),
    decreases s.len(),
{
    if s.len() > 0 && white_space(s[0]) {
        let rest = s.skip(1);
        lemma_trim_start_keeps_the_end(rest);
        let n = rest.len() - trim_start(rest).len();
        assert(rest.skip(n) =~= s.skip(n + 1));
        assert forall|k: int| 0 <= k < n + 1 implies white_space(#[trigger] s[k]) by {
            if k > 0 {
                assert(rest[k - 1] == s[k]);
            }
        }
    } else {
        assert(s.skip(0) =~= s);
    }
}

proof fn lemma_trim_end_takes_white_space(s: Seq<char>)
    ensures
        forall|k: int| trim_end(s).len() <= k < s.len() ==> white_space(#[trigger] s[k]),
    decreases s.len(),
{
    if s.len() > 0 && white_space(s.last()) {
        let rest = s.drop_last();
        lemma_trim_end_takes_white_space(rest);
        assert forall|k: int| trim_end(s).len() <= k < s.len() implies white_space(
            #[trigger] s[k],
        ) by {
            if k < rest.len() {
                assert(rest[k] == s[k]);
            }
        }
    }
}

/// Trimming takes off white space at both ends and nothing else: what is left
/// stands in the text as it was, with only white space before and after it.
pub proof fn law_trimming_takes_off_white_space_only(s: Seq<char>)
    ensures
        exists|from: int|
            {
                &&& 0 <= from
                &&& from + trimmed(s).len() <= s.len()
                &&& trimmed(s) == #[trigger] s.subrange(from, from + trimmed(s).len())
                &&& forall|k: int|
                    0 <= k < s.len() && !(from <= k < from + trimmed(s).len()) ==> white_space(
                        #[trigger] s[k],
                    )
            },
{
    let start = trim_start(s);
    let from = s.len() - start.len();
    lemma_trim_start_keeps_the_end(s);
    lemma_trim_end_keeps_the_start(start);
    lemma_trim_end_takes_white_space(start);
    assert(trimmed(s) =~= s.subrange(from, from + trimmed(s).len()));
    assert forall|k: int|
        0 <= k < s.len() && !(from <= k < from + trimmed(s).len()) implies white_space(
        #[trigger] s[k],
    ) by {
        if k >= from {
            assert(start[k - from] == s[k]);
        }
    }
}

/// A text is found exactly where something, perhaps nothing, stands before it
/// and after it.
pub proof fn law_found_text_stands_between_the_rest(
    hay: Seq<char>,
    needle: Seq<char>,
    before: Seq<char>,
    after: Seq<char>,
)
    ensures
        hay == before + needle + after ==> contains_text(hay, needle),
        contains_text(hay, needle) ==> exists|a: Seq<char>, b: Seq<char>| hay == #[trigger] (a
            + needle + b),
{
    if hay == before + needle + after {
        let i = before.len() as int;
        assert(hay.subrange(i, i + needle.len()) =~= needle);
        assert(occurs_at(hay, needle, i));
    }
    if contains_text(hay, needle) {
        let i = choose|i: int| #[trigger] occurs_at(hay, needle, i);
        let a = hay.take(i);
        let b = hay.skip(i + needle.len());
        assert(hay =~= a + hay.subrange(i, i + needle.len()) + b);
        assert(hay == a + needle + b);
    }
}

/// A character is one code unit if it fits and otherwise a surrogate pair that
/// holds its code above 0x10000 in two halves of ten bits.
pub proof fn law_code_units_hold_the_character(c: char)
    ensures
        ({
            let u = utf16_units(c);
            if c as int <= 0xFFFF {
                u.len() == 1 && u[0] == c as int
            } else {
                &&& u.len() == 2
                &&& 0xD800 <= u[0] <= 0xDBFF
                &&& 0xDC00 <= u[1] <= 0xDFFF
                &&& c as int == 0x10000 + 0x400 * (u[0] - 0xD800) + (u[1] - 0xDC00)
            }
        }),
{
}

/// A text is encoded character by character, in order.
pub proof fn law_texts_are_encoded_in_order(a: Seq<char>, b: Seq<char>, c: char)
    ensures
        utf16(a + b) == utf16(a) + utf16(b),
        utf16(seq![c]) == utf16_units(c),
        utf16(Seq::<char>::empty()) == Seq::<u16>::empty(),
    decreases b.len(),
{
    reveal_with_fuel(utf16, 2);
    assert(seq![c].drop_last() =~= Seq::<char>::empty());
    assert(utf16(seq![c]) =~= utf16_units(c));
    if b.len() == 0 {
        assert(a + b =~= a);
        assert(utf16(a) + utf16(b) =~= utf16(a));
    } else {
        law_texts_are_encoded_in_order(a, b.drop_last(), c);
        assert((a + b).drop_last() =~= a + b.drop_last());
        assert(utf16(a + b) =~= utf16(a) + utf16(b));
    }
}

} // verus!
