//! Colors: reading them from text and dimming them.

use vstd::prelude::*;

use crate::text;

verus! {

/// Shade of a meter's frame, in sixteenths of its fill.
pub const TRACK_SHADE: u32 = 5;

/// Shade of a chart's grid, in sixteenths of its fill.
pub const GRID_SHADE: u32 = 7;

/// Byte `index` of a color, counted from the least significant one.
pub open spec fn channel(color: int, index: int) -> int {
    if index == 0 {
        color % 256
    } else if index == 1 {
        color / 256 % 256
    } else {
        color / 65536 % 256
    }
}

/// Three channels put together, the first in the least significant byte.
pub open spec fn from_channels(c0: int, c1: int, c2: int) -> int {
    c0 + 256 * c1 + 65536 * c2
}

/// The value of one hexadecimal digit.
pub open spec fn hex_digit(c: char) -> Option<int> {
    if '0' <= c <= '9' {
        Some(c as int - '0' as int)
    } else if 'a' <= c <= 'f' {
        Some(c as int - 'a' as int + 10)
    } else if 'A' <= c <= 'F' {
        Some(c as int - 'A' as int + 10)
    } else {
        None
    }
}

/// Whether `s` holds hexadecimal digits only.
pub open spec fn all_hex(s: Seq<char>) -> bool {
    forall|i: int| 0 <= i < s.len() ==> hex_digit(#[trigger] s[i]) is Some
}

/// The number that the hexadecimal digits of `s` write.
pub open spec fn hex_value(s: Seq<char>) -> int
    decreases s.len(),
{
    if s.len() == 0 {
        0
    } else {
        16 * hex_value(s.drop_last()) + hex_digit(s.last()).unwrap()
    }
}

/// `s` without its leading `#` characters.
pub open spec fn strip_hashes(s: Seq<char>) -> Seq<char>
    decreases s.len(),
{
    if s.len() > 0 && s[0] == '#' {
        strip_hashes(s.skip(1))
    } else {
        s
    }
}

/// The digits of a number that may carry a plus sign.
pub open spec fn strip_plus(s: Seq<char>) -> Seq<char> {
    if s.len() > 0 && s[0] == '+' {
        s.skip(1)
    } else {
        s
    }
}

/// A hexadecimal number of 32 bits, with an optional plus sign.
pub open spec fn hex_number(s: Seq<char>) -> Option<int> {
    let digits = strip_plus(s);
    if digits.len() > 0 && all_hex(digits) && hex_value(digits) <= u32::MAX {
        Some(hex_value(digits))
    } else {
        None
    }
}

/// Red, green and blue in reverse order; anything above 24 bits is dropped.
pub open spec fn swap_channels(rgb: int) -> int {
    from_channels(channel(rgb, 2), channel(rgb, 1), channel(rgb, 0))
}

/// What a color text means: its channels swapped, or white if it is no number.
pub open spec fn color_of(hex: Seq<char>) -> int {
    match hex_number(strip_hashes(hex)) {
        Some(rgb) => swap_channels(rgb),
        None => 0xFFFFFF,
    }
}

proof fn lemma_hex_value_bounds(s: Seq<char>)
    requires
        all_hex(s),
    ensures
        hex_value(s) >= 0,
    decreases s.len(),
{
    if s.len() > 0 {
        assert(hex_digit(s[s.len() - 1]) is Some);
        assert forall|i: int| 0 <= i < s.drop_last().len() implies hex_digit(
            #[trigger] s.drop_last()[i],
        ) is Some by {
            assert(s.drop_last()[i] == s[i]);
        }
        lemma_hex_value_bounds(s.drop_last());
    }
}

proof fn lemma_hex_value_grows(s: Seq<char>, n: int)
    requires
        all_hex(s),
        0 <= n <= s.len(),
    ensures
        0 <= hex_value(s.take(n)) <= hex_value(s),
    decreases s.len(),
{
    assert forall|i: int| 0 <= i < s.take(n).len() implies hex_digit(
        #[trigger] s.take(n)[i],
    ) is Some by {
        assert(s.take(n)[i] == s[i]);
    }
    lemma_hex_value_bounds(s.take(n));
    if n == s.len() {
        assert(s.take(n) =~= s);
    } else {
        let front = s.drop_last();
        assert forall|i: int| 0 <= i < front.len() implies hex_digit(
            #[trigger] front[i],
        ) is Some by {
            assert(front[i] == s[i]);
        }
        assert(hex_digit(s[s.len() - 1]) is Some);
        lemma_hex_value_grows(front, n);
        assert(front.take(n) =~= s.take(n));
    }
}

fn hex_digit_value(c: char) -> (d: Option<u64>)
    ensures
        match d {
            Some(v) => hex_digit(c) == Some(v as int),
            None => hex_digit(c) is None,
        },
        d matches Some(v) ==> v < 16,
{
    if '0' <= c && c <= '9' {
        Some(c as u64 - '0' as u64)
    } else if 'a' <= c && c <= 'f' {
        Some(c as u64 - 'a' as u64 + 10)
    } else if 'A' <= c && c <= 'F' {
        Some(c as u64 - 'A' as u64 + 10)
    } else {
        None
    }
}

/// The hexadecimal number that stands in `chars` from `start` on.
fn hex_number_from(chars: &Vec<char>, start: usize) -> (n: Option<u32>)
    requires
        start <= chars@.len(),
    ensures
        match n {
            Some(v) => hex_number(chars@.skip(start as int)) == Some(v as int),
            None => hex_number(chars@.skip(start as int)) is None,
        },
{
    let mut from: usize = start;
    if from < chars.len() && chars[from] == '+' {
        from = from + 1;
    }
    let ghost digits = strip_plus(chars@.skip(start as int));
    assert(digits =~= chars@.skip(from as int));
    if from == chars.len() {
        return None;
    }
    let mut value: u64 = 0;
    let mut i: usize = from;
    while i < chars.len()
        invariant
            from <= i <= chars@.len(),
            from < chars@.len(),
            digits == chars@.skip(from as int),
            digits == strip_plus(chars@.skip(start as int)),
            value <= u32::MAX,
            all_hex(digits.take(i - from)),
            value == hex_value(digits.take(i - from)),
        decreases chars@.len() - i,
    {
        let ghost k = i - from;
        assert(digits[k] == chars@[i as int]);
        match hex_digit_value(chars[i]) {
            None => {
                assert(hex_digit(digits[k]) is None);
                return None;
            },
            Some(d) => {
                value = value * 16 + d;
                proof {
                    assert(digits.take(k + 1).drop_last() =~= digits.take(k));
                    assert(digits.take(k + 1).last() == digits[k]);
                    assert forall|j: int| 0 <= j < digits.take(k + 1).len() implies hex_digit(
                        #[trigger] digits.take(k + 1)[j],
                    ) is Some by {
                        if j < k {
                            assert(digits.take(k + 1)[j] == digits.take(k)[j]);
                        }
                    }
                }
                if value > 0xFFFF_FFFF {
                    proof {
                        if all_hex(digits) {
                            lemma_hex_value_grows(digits, k + 1);
                        }
                    }
                    return None;
                }
            },
        }
        i = i + 1;
    }
    assert(digits.take(digits.len() as int) =~= digits);
    Some(value as u32)
}

/// "RRGGBB" -> 0x00BBGGRR, the order in which the window system keeps a color.
/// Leading `#` characters are skipped, and text that is no hexadecimal number
/// of 32 bits reads as white.
pub fn parse_hex_color(hex: &str) -> (color: u32)
    ensures
        color == color_of(hex@),
{
    let chars = text::char_vec(hex);
    let mut start: usize = 0;
    assert(chars@.skip(0) =~= chars@);
    while start < chars.len() && chars[start] == '#'
        invariant
            start <= chars@.len(),
            strip_hashes(chars@.skip(start as int)) == strip_hashes(chars@),
        decreases chars@.len() - start,
    {
        assert(chars@.skip(start as int).skip(1) =~= chars@.skip(start + 1));
        start = start + 1;
    }
    let rgb: u32 = match hex_number_from(&chars, start) {
        Some(n) => n,
        None => 0x00FFFFFF,
    };
    assert(((rgb & 0xFF) << 16) | (rgb & 0xFF00) | ((rgb >> 16) & 0xFF) == (rgb / 65536 % 256) + 256
        * (rgb / 256 % 256) + 65536 * (rgb % 256)) by (bit_vector);
    ((rgb & 0xFF) << 16) | (rgb & 0xFF00) | ((rgb >> 16) & 0xFF)
}

/// One channel at `num` sixteenths of its intensity.
pub open spec fn dimmed(c: int, num: u32) -> int {
    c * num / 16
}

/// Every channel at `num` sixteenths of its intensity, put side by side.
pub open spec fn shade_of(rgb: u32, num: u32) -> u32 {
    (dimmed(channel(rgb as int, 0), num) as u32) | ((dimmed(channel(rgb as int, 1), num) as u32)
        << 8) | ((dimmed(channel(rgb as int, 2), num) as u32) << 16)
}

/// Whether dimming a color by `num` stays within the machine's arithmetic.
pub open spec fn shade_fits(rgb: u32, num: u32) -> bool {
    &&& channel(rgb as int, 0) * num <= u32::MAX
    &&& channel(rgb as int, 1) * num <= u32::MAX
    &&& channel(rgb as int, 2) * num <= u32::MAX
}

/// `num/16` of full intensity, per channel.
pub fn shade(rgb: u32, num: u32) -> (color: u32)
    requires
        shade_fits(rgb, num),
    ensures
        color == shade_of(rgb, num),
        num <= 16 ==> color == from_channels(
            dimmed(channel(rgb as int, 0), num),
            dimmed(channel(rgb as int, 1), num),
            dimmed(channel(rgb as int, 2), num),
        ),
{
    assert(rgb & 0xFF == rgb % 256) by (bit_vector);
    assert((rgb >> 8) & 0xFF == rgb / 256 % 256) by (bit_vector);
    assert((rgb >> 16) & 0xFF == rgb / 65536 % 256) by (bit_vector);
    let c0: u32 = (rgb & 0xFF) * num / 16;
    let c1: u32 = ((rgb >> 8) & 0xFF) * num / 16;
    let c2: u32 = ((rgb >> 16) & 0xFF) * num / 16;
    proof {
        if num <= 16 {
            lemma_dimmed_is_a_channel(channel(rgb as int, 0), num);
            lemma_dimmed_is_a_channel(channel(rgb as int, 1), num);
            lemma_dimmed_is_a_channel(channel(rgb as int, 2), num);
            lemma_channels_side_by_side(c0, c1, c2);
        }
    }
    c0 | (c1 << 8) | (c2 << 16)
}

proof fn lemma_dimmed_is_a_channel(c: int, num: u32)
    requires
        0 <= c < 256,
        num <= 16,
    ensures
        0 <= dimmed(c, num) <= c,
{
    assert(0 <= c * num <= c * 16) by (nonlinear_arith)
        requires
            0 <= c,
            0 <= num <= 16,
    ;
}

proof fn lemma_channels_side_by_side(c0: u32, c1: u32, c2: u32)
    requires
        c0 < 256,
        c1 < 256,
        c2 < 256,
    ensures
        c0 | (c1 << 8) | (c2 << 16) == from_channels(c0 as int, c1 as int, c2 as int),
{
    assert(c0 | (c1 << 8) | (c2 << 16) == c0 + 256 * c1 + 65536 * c2) by (bit_vector)
        requires
            c0 < 256,
            c1 < 256,
            c2 < 256,
    ;
}

proof fn lemma_channels_of_parts(c0: int, c1: int, c2: int)
    requires
        0 <= c0 < 256,
        0 <= c1 < 256,
        0 <= c2 < 256,
    ensures
        channel(from_channels(c0, c1, c2), 0) == c0,
        channel(from_channels(c0, c1, c2), 1) == c1,
        channel(from_channels(c0, c1, c2), 2) == c2,
{
}

/// A color may be written with or without a leading `#`.
pub proof fn law_leading_hash_is_optional(hex: Seq<char>)
    ensures
        color_of(seq!['#'] + hex) == color_of(hex),
{
    assert((seq!['#'] + hex).skip(1) =~= hex);
    reveal_with_fuel(strip_hashes, 2);
}

/// Six digits are red, green and blue: the first pair ends up in the lowest
/// byte, the last pair in the third one.
pub proof fn law_six_digits_are_red_green_blue(hex: Seq<char>)
    requires
        hex.len() == 6,
        all_hex(hex),
    ensures
        color_of(hex) == from_channels(
            hex_value(hex.subrange(0, 2)),
            hex_value(hex.subrange(2, 4)),
            hex_value(hex.subrange(4, 6)),
        ),
{
    let d = |i: int| hex_digit(hex[i]).unwrap();
    assert forall|i: int| 0 <= i < 6 implies 0 <= #[trigger] d(i) < 16 by {
        assert(hex_digit(hex[i]) is Some);
    }
    assert(0 <= d(0) < 16 && 0 <= d(1) < 16 && 0 <= d(2) < 16);
    assert(0 <= d(3) < 16 && 0 <= d(4) < 16 && 0 <= d(5) < 16);
    assert(hex_digit(hex[0]) is Some);
    assert(strip_hashes(hex) == hex);
    assert(strip_plus(hex) == hex);
    reveal_with_fuel(hex_value, 7);
    assert(hex_value(hex) == 16 * (16 * (16 * (16 * (16 * d(0) + d(1)) + d(2)) + d(3)) + d(4)) + d(
        5,
    ));
    assert(hex_value(hex.subrange(0, 2)) == 16 * d(0) + d(1));
    assert(hex_value(hex.subrange(2, 4)) == 16 * d(2) + d(3));
    assert(hex_value(hex.subrange(4, 6)) == 16 * d(4) + d(5));
    let (r, g, b) = (16 * d(0) + d(1), 16 * d(2) + d(3), 16 * d(4) + d(5));
    assert(hex_value(hex) == from_channels(b, g, r));
    lemma_channels_of_parts(b, g, r);
}

/// Swapping the channels of a 24-bit color twice gives it back.
pub proof fn law_swapping_twice_restores(rgb: int)
    requires
        0 <= rgb < 0x1000000,
    ensures
        swap_channels(swap_channels(rgb)) == rgb,
{
    lemma_channels_of_parts(channel(rgb, 2), channel(rgb, 1), channel(rgb, 0));
}

/// A shade of grey reads the same in either channel order.
pub proof fn law_grey_is_not_affected_by_the_swap(c: int)
    requires
        0 <= c < 256,
    ensures
        swap_channels(from_channels(c, c, c)) == from_channels(c, c, c),
{
    lemma_channels_of_parts(c, c, c);
}

/// Dimming keeps each channel to itself: a channel of the result is that
/// channel dimmed, and never brighter than it was.
pub proof fn law_shades_do_not_bleed_between_channels(rgb: u32, num: u32, index: int)
    requires
        num <= 16,
        0 <= index <= 2,
    ensures
        channel(shade_of(rgb, num) as int, index) == dimmed(channel(rgb as int, index), num),
        0 <= dimmed(channel(rgb as int, index), num) <= channel(rgb as int, index),
{
    let c0 = channel(rgb as int, 0);
    let c1 = channel(rgb as int, 1);
    let c2 = channel(rgb as int, 2);
    lemma_dimmed_is_a_channel(c0, num);
    lemma_dimmed_is_a_channel(c1, num);
    lemma_dimmed_is_a_channel(c2, num);
    lemma_channels_side_by_side(
        dimmed(c0, num) as u32,
        dimmed(c1, num) as u32,
        dimmed(c2, num) as u32,
    );
    lemma_channels_of_parts(dimmed(c0, num), dimmed(c1, num), dimmed(c2, num));
}

/// The frame is never brighter than the grid, nor the grid than the fill; on
/// any channel that is bright enough to tell, the steps are strict.
pub proof fn law_frame_grid_and_fill_step_up(rgb: u32, index: int)
    requires
        0 <= index <= 2,
    ensures
        ({
            let track = channel(shade_of(rgb, TRACK_SHADE) as int, index);
            let grid = channel(shade_of(rgb, GRID_SHADE) as int, index);
            let fill = channel(rgb as int, index);
            &&& track <= grid <= fill
            &&& fill >= 8 ==> track < grid < fill
        }),
{
    law_shades_do_not_bleed_between_channels(rgb, TRACK_SHADE, index);
    law_shades_do_not_bleed_between_channels(rgb, GRID_SHADE, index);
}

/// The character that writes a hexadecimal digit, as a small or a capital
/// letter where it is one.
pub open spec fn hex_char(d: int, capital: bool) -> char {
    if d < 10 {
        ('0' as int + d) as char
    } else if capital {
        ('A' as int + d - 10) as char
    } else {
        ('a' as int + d - 10) as char
    }
}

/// The sixteen digits have their values: `0` to `9` count from zero, `a` to `f`
/// and `A` to `F` go on from ten.
pub proof fn law_hexadecimal_digits_have_their_values(d: int)
    ensures
        0 <= d < 10 ==> hex_digit(('0' as int + d) as char) == Some(d),
        0 <= d < 6 ==> hex_digit(('a' as int + d) as char) == Some(10 + d),
        0 <= d < 6 ==> hex_digit(('A' as int + d) as char) == Some(10 + d),
{
}

/// Only the characters that write a hexadecimal digit have a value.
pub proof fn law_nothing_else_is_a_hexadecimal_digit(c: char)
    ensures
        match hex_digit(c) {
            Some(d) => 0 <= d < 16 && (c == hex_char(d, false) || c == hex_char(d, true)),
            None => forall|d: int, capital: bool|
                0 <= d < 16 ==> c != #[trigger] hex_char(d, capital),
        },
{
}

proof fn lemma_hex_char(d: int, capital: bool)
    requires
        0 <= d < 16,
    ensures
        hex_digit(hex_char(d, capital)) == Some(d),
        hex_char(d, capital) != '#',
        hex_char(d, capital) != '+',
{
}

/// Red, green and blue as six hexadecimal digits; digit `i` is a capital letter
/// where it is one and `capital[i]` says so.
pub open spec fn written_color(r: int, g: int, b: int, capital: Seq<bool>) -> Seq<char> {
    seq![
        hex_char(r / 16, capital[0]),
        hex_char(r % 16, capital[1]),
        hex_char(g / 16, capital[2]),
        hex_char(g % 16, capital[3]),
        hex_char(b / 16, capital[4]),
        hex_char(b % 16, capital[5]),
    ]
}

proof fn lemma_six_hex_chars(s: Seq<char>, d: Seq<int>)
    requires
        s.len() == 6,
        d.len() == 6,
        forall|i: int| 0 <= i < 6 ==> 0 <= #[trigger] d[i] < 16,
        forall|i: int| 0 <= i < 6 ==> hex_digit(#[trigger] s[i]) == Some(d[i]),
    ensures
        color_of(s) == (16 * d[0] + d[1]) + 256 * (16 * d[2] + d[3]) + 65536 * (16 * d[4] + d[5]),
{
    assert(hex_digit(s[0]) == Some(d[0]) && hex_digit(s[1]) == Some(d[1]));
    assert(hex_digit(s[2]) == Some(d[2]) && hex_digit(s[3]) == Some(d[3]));
    assert(hex_digit(s[4]) == Some(d[4]) && hex_digit(s[5]) == Some(d[5]));
    law_six_digits_are_red_green_blue(s);
    reveal_with_fuel(hex_value, 3);
    assert(hex_value(s.subrange(0, 2)) == 16 * d[0] + d[1]);
    assert(hex_value(s.subrange(2, 4)) == 16 * d[2] + d[3]);
    assert(hex_value(s.subrange(4, 6)) == 16 * d[4] + d[5]);
}

/// Any red, green and blue, written as six hexadecimal digits in either case,
/// read back with red in the lowest byte and blue in the third one.
pub proof fn law_written_colors_read_back(r: int, g: int, b: int, capital: Seq<bool>)
    requires
        0 <= r < 256,
        0 <= g < 256,
        0 <= b < 256,
    ensures
        color_of(written_color(r, g, b, capital)) == r + 256 * g + 65536 * b,
        color_of(seq!['#'] + written_color(r, g, b, capital)) == r + 256 * g + 65536 * b,
{
    let s = written_color(r, g, b, capital);
    let d = seq![r / 16, r % 16, g / 16, g % 16, b / 16, b % 16];
    assert forall|i: int| 0 <= i < 6 implies 0 <= #[trigger] d[i] < 16 by {}
    assert forall|i: int| 0 <= i < 6 implies hex_digit(#[trigger] s[i]) == Some(d[i]) by {
        lemma_hex_char(d[i], capital[i]);
    }
    lemma_six_hex_chars(s, d);
    law_leading_hash_is_optional(s);
}

proof fn lemma_leading_zero_adds_nothing(s: Seq<char>)
    ensures
        hex_value(seq!['0'] + s) == hex_value(s),
    decreases s.len(),
{
    let longer = seq!['0'] + s;
    if s.len() == 0 {
        assert(longer.drop_last() =~= Seq::<char>::empty());
        assert(hex_value(Seq::<char>::empty()) == 0);
        assert(longer.last() == '0');
    } else {
        lemma_leading_zero_adds_nothing(s.drop_last());
        assert(longer.drop_last() =~= seq!['0'] + s.drop_last());
        assert(longer.last() == s.last());
    }
}

/// Fewer than six digits are the last ones: zeros in front of any number leave
/// its color as it is.
pub proof fn law_leading_zeros_do_not_matter(digits: Seq<char>)
    requires
        digits.len() > 0,
        forall|i: int|
            0 <= i < digits.len() ==> exists|d: int, capital: bool|
                0 <= d < 16 && #[trigger] digits[i] == #[trigger] hex_char(d, capital),
    ensures
        color_of(seq!['0'] + digits) == color_of(digits),
{
    assert forall|i: int| 0 <= i < digits.len() implies hex_digit(#[trigger] digits[i]) is Some by {
        let (d, capital) = choose|d: int, capital: bool|
            0 <= d < 16 && digits[i] == #[trigger] hex_char(d, capital);
        lemma_hex_char(d, capital);
    }
    let longer = seq!['0'] + digits;
    assert forall|i: int| 0 <= i < longer.len() implies hex_digit(#[trigger] longer[i]) is Some by {
        if i > 0 {
            assert(longer[i] == digits[i - 1]);
        }
    }
    assert(hex_digit(digits[0]) is Some);
    assert(longer[0] == '0');
    lemma_leading_zero_adds_nothing(digits);
}

/// Two digits in front of six change nothing: there is no fourth channel.
pub proof fn law_only_the_last_six_digits_count(
    high: int,
    r: int,
    g: int,
    b: int,
    capital: Seq<bool>,
    first: bool,
    second: bool,
)
    requires
        0 <= high < 256,
        0 <= r < 256,
        0 <= g < 256,
        0 <= b < 256,
    ensures
        color_of(
            seq![hex_char(high / 16, first), hex_char(high % 16, second)] + written_color(
                r,
                g,
                b,
                capital,
            ),
        ) == r + 256 * g + 65536 * b,
{
    let s = seq![hex_char(high / 16, first), hex_char(high % 16, second)] + written_color(
        r,
        g,
        b,
        capital,
    );
    let d = seq![high / 16, high % 16, r / 16, r % 16, g / 16, g % 16, b / 16, b % 16];
    let flags = seq![first, second] + seq![
        capital[0],
        capital[1],
        capital[2],
        capital[3],
        capital[4],
        capital[5],
    ];
    assert forall|i: int| 0 <= i < 8 implies 0 <= #[trigger] d[i] < 16 by {}
    assert forall|i: int| 0 <= i < 8 implies hex_digit(#[trigger] s[i]) == Some(d[i]) by {
        lemma_hex_char(d[i], flags[i]);
    }
    lemma_eight_digits(s, d);
    lemma_number_of_four_bytes(high, r, g, b);
}

proof fn lemma_number_of_four_bytes(high: int, r: int, g: int, b: int)
    requires
        0 <= high < 256,
        0 <= r < 256,
        0 <= g < 256,
        0 <= b < 256,
    ensures
        swap_channels(16777216 * high + 65536 * r + 256 * g + b) == r + 256 * g + 65536 * b,
{
    let n = 16777216 * high + 65536 * r + 256 * g + b;
    assert(n % 256 == b);
    assert(n / 256 == 65536 * high + 256 * r + g);
    assert(n / 65536 == 256 * high + r);
}

proof fn lemma_eight_digits(s: Seq<char>, d: Seq<int>)
    requires
        s.len() == 8,
        d.len() == 8,
        forall|i: int| 0 <= i < 8 ==> 0 <= #[trigger] d[i] < 16,
        forall|i: int| 0 <= i < 8 ==> hex_digit(#[trigger] s[i]) == Some(d[i]),
    ensures
        color_of(s) == swap_channels(
            16777216 * (16 * d[0] + d[1]) + 65536 * (16 * d[2] + d[3]) + 256 * (16 * d[4] + d[5])
                + (16 * d[6] + d[7]),
        ),
{
    assert(0 <= d[0] < 16 && 0 <= d[1] < 16 && 0 <= d[2] < 16 && 0 <= d[3] < 16);
    assert(0 <= d[4] < 16 && 0 <= d[5] < 16 && 0 <= d[6] < 16 && 0 <= d[7] < 16);
    assert(hex_digit(s[0]) == Some(d[0]) && hex_digit(s[1]) == Some(d[1]));
    assert(hex_digit(s[2]) == Some(d[2]) && hex_digit(s[3]) == Some(d[3]));
    assert(hex_digit(s[4]) == Some(d[4]) && hex_digit(s[5]) == Some(d[5]));
    assert(hex_digit(s[6]) == Some(d[6]) && hex_digit(s[7]) == Some(d[7]));
    assert(hex_value(s) == 16777216 * (16 * d[0] + d[1]) + 65536 * (16 * d[2] + d[3]) + 256 * (16
        * d[4] + d[5]) + (16 * d[6] + d[7])) by {
        reveal_with_fuel(hex_value, 9);
    }
    assert(strip_hashes(s) == s);
    assert(strip_plus(s) == s);
    assert(all_hex(s));
}

/// Text that is no number is white: nothing at all, or anything with a
/// character in it that is no hexadecimal digit, past the `#` and the one plus
/// sign that may stand in front.
pub proof fn law_text_that_is_no_number_is_white(hex: Seq<char>, i: int)
    requires
        hex.len() > 0 ==> hex[0] != '#',
        hex.len() > 0 ==> 0 <= i < hex.len() && (i > 0 || hex[0] != '+'),
        hex.len() > 0 ==> forall|d: int, capital: bool|
            0 <= d < 16 ==> hex[i] != #[trigger] hex_char(d, capital),
    ensures
        color_of(hex) == 0xFFFFFF,
{
    if hex.len() > 0 {
        law_nothing_else_is_a_hexadecimal_digit(hex[i]);
        assert(hex_digit(hex[i]) is None) by {
            if hex_digit(hex[i]) is Some {
                let d = hex_digit(hex[i]).unwrap();
                assert(hex[i] == hex_char(d, false) || hex[i] == hex_char(d, true));
            }
        }
        let digits = strip_plus(hex);
        if hex[0] == '+' {
            assert(digits[i - 1] == hex[i]);
        } else {
            assert(digits[i] == hex[i]);
        }
    }
}

proof fn lemma_long_number(s: Seq<char>, n: int)
    requires
        all_hex(s),
        0 < n <= s.len(),
        hex_digit(s[0]).unwrap() > 0,
    ensures
        hex_value(s.take(1)) >= 1,
        n >= 9 ==> hex_value(s) > 0xFFFF_FFFF,
{
    assert(hex_digit(s[0]) is Some);
    reveal_with_fuel(hex_value, 2);
    assert(s.take(1).drop_last() =~= Seq::<char>::empty());
    assert(s.take(1).last() == s[0]);
    if n >= 9 {
        lemma_take_grows(s, 1);
        lemma_take_grows(s, 2);
        lemma_take_grows(s, 3);
        lemma_take_grows(s, 4);
        lemma_take_grows(s, 5);
        lemma_take_grows(s, 6);
        lemma_take_grows(s, 7);
        lemma_take_grows(s, 8);
        lemma_hex_value_grows(s, 9);
    }
}

proof fn lemma_take_grows(s: Seq<char>, n: int)
    requires
        all_hex(s),
        0 <= n < s.len(),
    ensures
        hex_value(s.take(n + 1)) >= 16 * hex_value(s.take(n)),
{
    assert(hex_digit(s[n]) is Some);
    assert(s.take(n + 1).drop_last() =~= s.take(n));
    assert(s.take(n + 1).last() == s[n]);
}

/// A number of more than eight digits that does not start with a zero is too
/// large to be a color, and reads as white.
pub proof fn law_long_numbers_are_white(hex: Seq<char>)
    requires
        hex.len() > 8,
        hex[0] != '0',
        hex[0] != '#',
        hex[0] != '+',
    ensures
        color_of(hex) == 0xFFFFFF,
{
    if all_hex(hex) {
        assert(hex_digit(hex[0]) is Some);
        lemma_long_number(hex, hex.len() as int);
    }
}

/// A plus sign in front of digits changes nothing.
pub proof fn law_plus_sign_is_optional(hex: Seq<char>)
    requires
        hex.len() > 0 ==> hex[0] != '#' && hex[0] != '+',
    ensures
        color_of(seq!['+'] + hex) == color_of(hex),
{
    assert((seq!['+'] + hex).skip(1) =~= hex);
}

/// A shade takes each of red, green and blue by itself: sixteenths of it,
/// rounded down.
pub proof fn law_shades_are_sixteenths(c0: int, c1: int, c2: int, high: int, num: u32)
    requires
        0 <= c0 < 256,
        0 <= c1 < 256,
        0 <= c2 < 256,
        0 <= high < 256,
        num <= 16,
    ensures
        shade_of((c0 + 256 * c1 + 65536 * c2 + 16777216 * high) as u32, num) == c0 * num / 16 + 256
            * (c1 * num / 16) + 65536 * (c2 * num / 16),
{
    let rgb = (c0 + 256 * c1 + 65536 * c2 + 16777216 * high) as u32;
    assert(rgb as int / 256 == c1 + 256 * c2 + 65536 * high);
    assert(rgb as int / 65536 == c2 + 256 * high);
    assert(channel(rgb as int, 0) == c0);
    assert(channel(rgb as int, 1) == c1);
    assert(channel(rgb as int, 2) == c2);
    lemma_dimmed_is_a_channel(c0, num);
    lemma_dimmed_is_a_channel(c1, num);
    lemma_dimmed_is_a_channel(c2, num);
    lemma_channels_side_by_side(
        dimmed(c0, num) as u32,
        dimmed(c1, num) as u32,
        dimmed(c2, num) as u32,
    );
    assert(shade_of(rgb, num) == from_channels(
        dimmed(c0, num),
        dimmed(c1, num),
        dimmed(c2, num),
    ));
}

/// Whatever the text, its color has 24 bits.
pub proof fn law_colors_have_three_bytes(hex: Seq<char>)
    ensures
        0 <= color_of(hex) <= 0xFFFFFF,
{
}

/// Every color can be dimmed by every number of sixteenths up to all of them.
pub proof fn law_every_color_can_be_dimmed(rgb: u32, num: u32)
    requires
        num <= 16,
    ensures
        shade_fits(rgb, num),
{
    lemma_dimmed_is_a_channel(channel(rgb as int, 0), num);
    lemma_dimmed_is_a_channel(channel(rgb as int, 1), num);
    lemma_dimmed_is_a_channel(channel(rgb as int, 2), num);
    assert(channel(rgb as int, 0) * num <= 255 * 16) by (nonlinear_arith)
        requires
            0 <= channel(rgb as int, 0) <= 255,
            num <= 16,
    ;
    assert(channel(rgb as int, 1) * num <= 255 * 16) by (nonlinear_arith)
        requires
            0 <= channel(rgb as int, 1) <= 255,
            num <= 16,
    ;
    assert(channel(rgb as int, 2) * num <= 255 * 16) by (nonlinear_arith)
        requires
            0 <= channel(rgb as int, 2) <= 255,
            num <= 16,
    ;
}

} // verus!
