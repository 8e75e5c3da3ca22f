//! Lengths: logical pixels to physical ones, and the size of the window.

use vstd::prelude::*;

use crate::config::Config;

verus! {

/// Text insets inside the window, logical pixels.
pub const PAD_LEFT: i32 = 8;

pub const PAD_RIGHT: i32 = 6;

/// Space on either side of a meter, between its label and its percentage.
pub const METER_GAP: i32 = 6;

/// Preferred chart grid cell, logical pixels. The drawing code snaps it to a
/// divisor of the meter height so the cells come out square and fit exactly.
pub const GRID_CELL: i32 = 5;

/// The DPI at which a logical pixel is a physical one.
pub const BASE_DPI: i32 = 96;

/// Whether `v` is a 32-bit coordinate.
pub open spec fn fits(v: int) -> bool {
    i32::MIN <= v <= i32::MAX
}

/// Quotient rounded toward zero.
pub open spec fn quot(a: int, b: int) -> int
    recommends
        b != 0,
{
    if b < 0 {
        -toward_zero(a, -b)
    } else {
        toward_zero(a, b)
    }
}

/// Quotient by a positive number, rounded toward zero.
pub open spec fn toward_zero(a: int, b: int) -> int
    recommends
        b > 0,
{
    if a >= 0 {
        a / b
    } else {
        -((-a) / b)
    }
}

/// The larger of two numbers.
pub open spec fn max(a: int, b: int) -> int {
    if a > b {
        a
    } else {
        b
    }
}

/// Whether scaling `value` stays within the machine's arithmetic.
pub open spec fn scale_fits(value: int, dpi: u32) -> bool {
    fits(value * (dpi as i32))
}

/// `value` logical pixels in physical ones.
pub open spec fn scaled(value: int, dpi: u32) -> int {
    quot(value * (dpi as i32), BASE_DPI as int)
}

/// Settings are logical pixels at 96 DPI; everything the window system sees is
/// physical.
pub fn scale(value: i32, dpi: u32) -> (px: i32)
    requires
        scale_fits(value as int, dpi),
    ensures
        px == scaled(value as int, dpi),
{
    value * dpi as i32 / BASE_DPI
}

/// Product of two 32-bit numbers, in 64 bits.
pub fn wide_product(a: i32, b: i32) -> (p: i64)
    ensures
        p == a * b,
{
    assert(-0x4000_0000_0000_0000 <= a * b <= 0x4000_0000_0000_0000) by (nonlinear_arith)
        requires
            i32::MIN <= a <= i32::MAX,
            i32::MIN <= b <= i32::MAX,
    ;
    a as i64 * b as i64
}

/// Quotient rounded toward zero, in 64 bits.
pub fn wide_quot(a: i64, b: i64) -> (q: i64)
    requires
        b != 0,
        b > i64::MIN,
        a > i64::MIN,
    ensures
        q == quot(a as int, b as int),
{
    let size: i64 = if b < 0 {
        -b
    } else {
        b
    };
    let q: i64 = a / size;
    proof {
        lemma_quotient_is_smaller(a as int, size as int);
    }
    if b < 0 {
        -q
    } else {
        q
    }
}

proof fn lemma_quotient_is_smaller(a: int, b: int)
    requires
        b > 0,
    ensures
        a >= 0 ==> 0 <= toward_zero(a, b) <= a,
        a < 0 ==> a <= toward_zero(a, b) <= 0,
{
    let size = if a >= 0 {
        a
    } else {
        -a
    };
    assert(0 <= size / b <= size) by (nonlinear_arith)
        requires
            b > 0,
            size >= 0,
    ;
}

/// Quotient of two coordinates, rounded toward zero.
pub fn divide(a: i32, b: i32) -> (q: i32)
    requires
        b != 0,
        fits(quot(a as int, b as int)),
    ensures
        q == quot(a as int, b as int),
{
    wide_quot(a as i64, b as i64) as i32
}

/// Whether `v` is a 32-bit coordinate.
pub fn in_range(v: i64) -> (b: bool)
    ensures
        b == fits(v as int),
{
    -0x8000_0000 <= v && v <= 0x7FFF_FFFF
}

/// Whether scaling `value` stays within the machine's arithmetic.
pub fn can_scale(value: i32, dpi: u32) -> (b: bool)
    ensures
        b == scale_fits(value as int, dpi),
{
    in_range(wide_product(value, dpi as i32))
}

/// Whether the height of a line stays within the machine's arithmetic.
pub open spec fn line_height_fits(font_size: i32, dpi: u32) -> bool {
    &&& fits(font_size * 3)
    &&& scale_fits(max(quot(font_size * 3, 2), 24), dpi)
}

/// Height of one line: one and a half times the font, and never under 24
/// logical pixels.
pub open spec fn line_height_of(font_size: i32, dpi: u32) -> int {
    scaled(max(quot(font_size * 3, 2), 24), dpi)
}

/// Height of one line, physical pixels.
pub fn line_height(cfg: &Config, dpi: u32) -> (px: i32)
    requires
        line_height_fits(cfg.font_size, dpi),
    ensures
        px == line_height_of(cfg.font_size, dpi),
{
    scale((cfg.font_size * 3 / 2).max(24), dpi)
}

/// Whether the height of a line stays within the machine's arithmetic.
pub fn can_line_height(cfg: &Config, dpi: u32) -> (b: bool)
    ensures
        b == line_height_fits(cfg.font_size, dpi),
{
    in_range(wide_product(cfg.font_size, 3)) && can_scale((cfg.font_size * 3 / 2).max(24), dpi)
}

/// At 96 DPI a logical pixel is a physical one.
pub proof fn law_base_dpi_keeps_lengths(value: int)
    ensures
        scaled(value, 96) == value,
{
    assert(96u32 as i32 == 96);
    assert(value * (96u32 as i32) == value * 96);
}

/// A longer length is never scaled to a shorter one.
pub proof fn law_scaling_keeps_the_order(a: int, b: int, dpi: u32)
    requires
        a <= b,
        dpi <= i32::MAX,
    ensures
        scaled(a, dpi) <= scaled(b, dpi),
{
    assert(a * (dpi as i32) <= b * (dpi as i32)) by (nonlinear_arith)
        requires
            a <= b,
            (dpi as i32) >= 0,
    ;
}

/// Lengths that are not negative stay so.
pub proof fn law_scaling_keeps_the_sign(value: int, dpi: u32)
    requires
        dpi <= i32::MAX,
    ensures
        value >= 0 ==> scaled(value, dpi) >= 0,
        scaled(-value, dpi) == -scaled(value, dpi),
{
    assert((-value) * (dpi as i32) == -(value * (dpi as i32))) by (nonlinear_arith);
    if value >= 0 {
        law_scaling_keeps_the_order(0, value, dpi);
    }
}

/// A quotient leaves less than the divisor over, on the side of the dividend.
pub proof fn law_quotients_round_toward_zero(a: int, b: int)
    requires
        b != 0,
    ensures
        ({
            let rest = a - b * quot(a, b);
            &&& b > 0 ==> -b < rest < b
            &&& b < 0 ==> b < rest < -b
            &&& a >= 0 ==> rest >= 0
            &&& a <= 0 ==> rest <= 0
        }),
{
    let (m, d) = (
        if a >= 0 {
            a
        } else {
            -a
        },
        if b >= 0 {
            b
        } else {
            -b
        },
    );
    vstd::arithmetic::div_mod::lemma_fundamental_div_mod(m, d);
    assert(0 <= m % d < d) by {
        vstd::arithmetic::div_mod::lemma_mod_bound(m, d);
    }
    let q = m / d;
    assert((-d) * q == -(d * q) && d * (-q) == -(d * q) && (-d) * (-q) == d * q) by (
    nonlinear_arith);
}

/// A scaled length is the length times the DPI over 96, rounded down: it is in
/// proportion to both.
pub proof fn law_scaling_is_in_proportion(value: int, dpi: u32)
    requires
        value >= 0,
        dpi <= i32::MAX,
    ensures
        96 * scaled(value, dpi) <= value * dpi < 96 * scaled(value, dpi) + 96,
{
    assert(value * dpi >= 0) by (nonlinear_arith)
        requires
            value >= 0,
    ;
}

/// A length can be scaled exactly if its product with the DPI is a 32-bit
/// number.
pub proof fn law_what_can_be_scaled(value: int, dpi: u32)
    requires
        dpi <= i32::MAX,
    ensures
        scale_fits(value, dpi) <==> -0x8000_0000 <= value * dpi <= 0x7FFF_FFFF,
{
}

/// A line is one and a half times as high as its font, rounded down to whole
/// logical pixels, or 24 of them if that is more.
pub proof fn law_lines_are_one_and_a_half_times_the_font(font_size: i32, dpi: u32)
    requires
        dpi <= i32::MAX,
    ensures
        font_size <= 16 ==> line_height_of(font_size, dpi) == scaled(24, dpi),
        font_size >= 16 && font_size % 2 == 0 ==> line_height_of(font_size, dpi) == scaled(
            font_size + font_size / 2,
            dpi,
        ),
        font_size >= 16 && font_size % 2 == 1 ==> line_height_of(font_size, dpi) == scaled(
            font_size + (font_size - 1) / 2,
            dpi,
        ),
{
}

/// Lengths of up to a hundred thousand logical pixels can be scaled up to ten
/// times, and stay within ten times their size.
pub proof fn law_everyday_lengths_can_be_scaled(value: int, dpi: u32)
    requires
        -100_000 <= value <= 100_000,
        dpi <= 960,
    ensures
        scale_fits(value, dpi),
        -1_000_000 <= scaled(value, dpi) <= 1_000_000,
        value >= 0 ==> scaled(value, dpi) <= 10 * value,
{
    assert(-100_000 * 960 <= value * dpi <= 100_000 * 960) by (nonlinear_arith)
        requires
            -100_000 <= value <= 100_000,
            0 <= dpi <= 960,
    ;
    if value >= 0 {
        assert(0 <= value * dpi <= value * 960) by (nonlinear_arith)
            requires
                value >= 0,
                0 <= dpi <= 960,
        ;
    }
}

/// Lines of fonts of up to ten thousand logical pixels have a height.
pub proof fn law_everyday_fonts_have_a_line_height(font_size: i32, dpi: u32)
    requires
        -10_000 <= font_size <= 10_000,
        dpi <= 960,
    ensures
        line_height_fits(font_size, dpi),
        0 <= line_height_of(font_size, dpi) <= 150_000,
{
    let h = max(quot(font_size * 3, 2), 24);
    law_everyday_lengths_can_be_scaled(h, dpi);
    law_scaling_keeps_the_sign(h, dpi);
}

} // verus!
