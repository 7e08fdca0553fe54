//! Colour model: HSV to RGB over exact fractions.

use vstd::prelude::*;

verus! {

/// An RGB colour.
#[derive(Clone, Copy, PartialEq, Eq, Structural, Debug)]
pub struct Rgb {
    pub red: u8,
    pub green: u8,
    pub blue: u8,
}

impl Rgb {
    pub fn new(red: u8, green: u8, blue: u8) -> (r: Rgb)
        ensures
            r == (Rgb { red, green, blue }),
    {
        Rgb { red, green, blue }
    }
}

/// The non-negative fraction `num / den`.
#[derive(Clone, Copy, PartialEq, Eq, Structural, Debug)]
pub struct Ratio {
    pub num: u128,
    pub den: u64,
}

/// An HSV colour: `hue` in degrees, in `[0, 360)`; `saturation` and
/// `brightness` in `[0, 1]`.
#[derive(Clone, Copy, PartialEq, Eq, Structural, Debug)]
pub struct Hsv {
    pub hue: Ratio,
    pub saturation: Ratio,
    pub brightness: Ratio,
}

/// The three components are in range, and the product of their denominators
/// fits in 64 bits.
pub open spec fn hsv_valid(hue: Ratio, saturation: Ratio, brightness: Ratio) -> bool {
    &&& hue.den > 0 && saturation.den > 0 && brightness.den > 0
    &&& hue.num < 360 * hue.den
    &&& saturation.num <= saturation.den
    &&& brightness.num <= brightness.den
    &&& hue.den * saturation.den * brightness.den <= u64::MAX
}

pub open spec fn abs_diff(a: int, b: int) -> int {
    if a >= b {
        a - b
    } else {
        b - a
    }
}

/// Channel `255 (u + m)` truncated, for a component `u` and the offset `m`,
/// both written over the denominator `d`.
pub open spec fn channel(u: int, m: int, d: int) -> int {
    255 * (u + m) / d
}

/// The HSV to RGB formula over exact fractions. With `h` the hue, `s` the
/// saturation and `v` the brightness:
/// `c = v s`, `x = c (1 - |(h / 60 mod 2) - 1|)`, `m = v - c`, and
/// `(r, g, b)` is `(c, x, 0)`, `(x, c, 0)`, `(0, c, x)`, `(0, x, c)`,
/// `(x, 0, c)` or `(c, 0, x)` by the 60-degree sextant of `h`, each channel
/// `255 (r + m)` truncated. Every quantity is written here over the common
/// denominator `d = 60 · h.den · s.den · v.den`; `q / unit` is
/// `1 - |(h / 60 mod 2) - 1|`, with `unit = 60 · h.den`.
pub open spec fn hsv_to_rgb(h: Ratio, s: Ratio, v: Ratio) -> Rgb {
    let (hn, hd) = (h.num as int, h.den as int);
    let (sn, sd) = (s.num as int, s.den as int);
    let (vn, vd) = (v.num as int, v.den as int);
    let unit = 60 * hd;
    let d = vd * sd * unit;
    let c = vn * sn * unit;
    let q = unit - abs_diff(hn % (2 * unit), unit);
    let x = vn * sn * q;
    let m = vn * (sd - sn) * unit;
    let sextant = hn / unit;
    let (r, g, b) = if sextant == 0 {
        (c, x, 0)
    } else if sextant == 1 {
        (x, c, 0)
    } else if sextant == 2 {
        (0, c, x)
    } else if sextant == 3 {
        (0, x, c)
    } else if sextant == 4 {
        (x, 0, c)
    } else {
        (c, 0, x)
    };
    Rgb {
        red: channel(r, m, d) as u8,
        green: channel(g, m, d) as u8,
        blue: channel(b, m, d) as u8,
    }
}

proof fn lemma_hsv_bounds(hn: int, hd: int, sn: int, sd: int, vn: int, vd: int, r: int)
    requires
        0 < hd,
        0 < sd,
        0 < vd,
        0 <= hn < 360 * hd,
        0 <= sn <= sd,
        0 <= vn <= vd,
        hd * sd * vd <= u64::MAX,
        0 <= r < 120 * hd,
    ensures
        0 < vd * sd * (60 * hd) <= 60 * u64::MAX,
        vd * sd <= u64::MAX,
        vn * sn <= vd * sd,
        vn * sn * (60 * hd) <= vd * sd * (60 * hd),
        vn * (sd - sn) <= vd * sd,
        vn * (sd - sn) * (60 * hd) + vn * sn * (60 * hd) <= vd * sd * (60 * hd),
        0 <= 60 * hd - abs_diff(r, 60 * hd) <= 60 * hd,
        0 <= vn * sn * (60 * hd - abs_diff(r, 60 * hd)) <= vn * sn * (60 * hd),
        0 <= hn / (60 * hd) < 6,
        0 <= vn * (sd - sn) * (60 * hd),
{
    assert(0 < vd * sd * (60 * hd) <= 60 * u64::MAX) by (nonlinear_arith)
        requires
            0 < hd,
            0 < sd,
            0 < vd,
            hd * sd * vd <= u64::MAX,
    ;
    assert(vd * sd <= u64::MAX) by (nonlinear_arith)
        requires
            0 < hd,
            0 < sd,
            0 < vd,
            hd * sd * vd <= u64::MAX,
    ;
    assert(vn * sn <= vd * sd) by (nonlinear_arith)
        requires
            0 <= sn <= sd,
            0 <= vn <= vd,
    ;
    assert(vn * sn * (60 * hd) <= vd * sd * (60 * hd)) by (nonlinear_arith)
        requires
            vn * sn <= vd * sd,
            0 < hd,
    ;
    assert(vn * (sd - sn) + vn * sn <= vd * sd) by (nonlinear_arith)
        requires
            0 <= sn <= sd,
            0 <= vn <= vd,
    ;
    assert(vn * (sd - sn) * (60 * hd) + vn * sn * (60 * hd) <= vd * sd * (60 * hd)) by (nonlinear_arith)
        requires
            vn * (sd - sn) + vn * sn <= vd * sd,
            0 < hd,
    ;
    assert(0 <= vn * sn * (60 * hd - abs_diff(r, 60 * hd)) <= vn * sn * (60 * hd)) by (nonlinear_arith)
        requires
            0 <= 60 * hd - abs_diff(r, 60 * hd) <= 60 * hd,
            0 <= sn,
            0 <= vn,
    ;
    assert(0 <= hn / (60 * hd) < 6) by (nonlinear_arith)
        requires
            0 <= hn < 360 * hd,
            0 < hd,
    ;
    assert(0 <= vn * (sd - sn) * (60 * hd)) by (nonlinear_arith)
        requires
            0 <= sn <= sd,
            0 <= vn,
            0 < hd,
    ;
}

proof fn lemma_channel_byte(u: int, m: int, d: int)
    requires
        0 <= u,
        0 <= m,
        u + m <= d,
        0 < d,
    ensures
        0 <= channel(u, m, d) <= 255,
{
    assert(0 <= 255 * (u + m) / d <= 255) by (nonlinear_arith)
        requires
            0 <= u + m <= d,
            0 < d,
    ;
}

impl Hsv {
    /// A colour from its three components, which must be in range.
    pub fn new(hue: Ratio, saturation: Ratio, brightness: Ratio) -> (r: Hsv)
        requires
            hsv_valid(hue, saturation, brightness),
        ensures
            r == (Hsv { hue, saturation, brightness }),
    {
        Hsv { hue, saturation, brightness }
    }

    /// A colour from its three components, or `None` when one is out of range.
    pub fn try_new(hue: Ratio, saturation: Ratio, brightness: Ratio) -> (r: Option<Hsv>)
        ensures
            hsv_valid(hue, saturation, brightness) ==> r == Some(Hsv { hue, saturation, brightness }),
            !hsv_valid(hue, saturation, brightness) ==> r is None,
    {
        if hue.den == 0 || saturation.den == 0 || brightness.den == 0 {
            return None;
        }
        if hue.num >= 360 * (hue.den as u128) || saturation.num > saturation.den as u128
            || brightness.num > brightness.den as u128 {
            return None;
        }
        proof {
            assert(hue.den as int * saturation.den as int <= u64::MAX as int * u64::MAX as int) by (nonlinear_arith)
                requires
                    hue.den <= u64::MAX,
                    saturation.den <= u64::MAX,
            ;
        }
        let hs: u128 = hue.den as u128 * saturation.den as u128;
        if hs > u64::MAX as u128 {
            proof {
                assert(hue.den * saturation.den * brightness.den >= hue.den * saturation.den) by (nonlinear_arith)
                    requires
                        brightness.den > 0,
                        hue.den * saturation.den >= 0,
                ;
            }
            return None;
        }
        proof {
            assert(hs as int * brightness.den as int <= u64::MAX as int * u64::MAX as int) by (nonlinear_arith)
                requires
                    hs <= u64::MAX,
                    brightness.den <= u64::MAX,
            ;
        }
        let all: u128 = hs * brightness.den as u128;
        if all > u64::MAX as u128 {
            return None;
        }
        Some(Hsv { hue, saturation, brightness })
    }

    /// The same colour in RGB.
    pub fn to_rgb(&self) -> (r: Rgb)
        requires
            hsv_valid(self.hue, self.saturation, self.brightness),
        ensures
            r == hsv_to_rgb(self.hue, self.saturation, self.brightness),
    {
        let hn: u128 = self.hue.num;
        let hd: u128 = self.hue.den as u128;
        let sn: u128 = self.saturation.num;
        let sd: u128 = self.saturation.den as u128;
        let vn: u128 = self.brightness.num;
        let vd: u128 = self.brightness.den as u128;
        let unit: u128 = 60 * hd;
        let rem: u128 = hn % (2 * unit);
        proof {
            lemma_hsv_bounds(hn as int, hd as int, sn as int, sd as int, vn as int, vd as int, rem as int);
        }
        let d: u128 = vd * sd * unit;
        let vs: u128 = vn * sn;
        let c: u128 = vs * unit;
        let q: u128 = if rem >= unit {
            unit - (rem - unit)
        } else {
            unit - (unit - rem)
        };
        let x: u128 = vs * q;
        let m: u128 = vn * (sd - sn) * unit;
        let sextant: u128 = hn / unit;
        let (r, g, b) = if sextant == 0 {
            (c, x, 0)
        } else if sextant == 1 {
            (x, c, 0)
        } else if sextant == 2 {
            (0, c, x)
        } else if sextant == 3 {
            (0, x, c)
        } else if sextant == 4 {
            (x, 0, c)
        } else {
            (c, 0, x)
        };
        proof {
            lemma_channel_byte(r as int, m as int, d as int);
            lemma_channel_byte(g as int, m as int, d as int);
            lemma_channel_byte(b as int, m as int, d as int);
        }
        Rgb {
            red: (255 * (r + m) / d) as u8,
            green: (255 * (g + m) / d) as u8,
            blue: (255 * (b + m) / d) as u8,
        }
    }
}

/// At full saturation and brightness, hues 0, 120 and 240 degrees are pure
/// red, green and blue.
pub proof fn lemma_primary_hues()
    ensures
        hsv_to_rgb(Ratio { num: 0, den: 1 }, Ratio { num: 1, den: 1 }, Ratio { num: 1, den: 1 })
            == (Rgb { red: 255, green: 0, blue: 0 }),
        hsv_to_rgb(Ratio { num: 120, den: 1 }, Ratio { num: 1, den: 1 }, Ratio { num: 1, den: 1 })
            == (Rgb { red: 0, green: 255, blue: 0 }),
        hsv_to_rgb(Ratio { num: 240, den: 1 }, Ratio { num: 1, den: 1 }, Ratio { num: 1, den: 1 })
            == (Rgb { red: 0, green: 0, blue: 255 }),
{
    assert(channel(60, 0, 60) == 255);
    assert(channel(0, 0, 60) == 0);
    assert(0int % 120 == 0 && 0int / 60 == 0);
    assert(120int % 120 == 0 && 120int / 60 == 2);
    assert(240int % 120 == 0 && 240int / 60 == 4);
}

/// Without saturation the three channels are equal, whatever the hue.
pub proof fn lemma_unsaturated_is_gray(hue: Ratio, saturation: Ratio, brightness: Ratio)
    requires
        hsv_valid(hue, saturation, brightness),
        saturation.num == 0,
    ensures
        hsv_to_rgb(hue, saturation, brightness).red == hsv_to_rgb(hue, saturation, brightness).green,
        hsv_to_rgb(hue, saturation, brightness).green == hsv_to_rgb(hue, saturation, brightness).blue,
{
    let (vn, hn, hd) = (brightness.num as int, hue.num as int, hue.den as int);
    let unit = 60 * hd;
    let q = unit - abs_diff(hn % (2 * unit), unit);
    assert(vn * 0 * unit == 0 && vn * 0 * q == 0) by (nonlinear_arith);
}

} // verus!
