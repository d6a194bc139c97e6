//! Color model: additive RGB and perceptual HSL forms.
//!
//! An `Rgb` is a byte triple.  An `Hsl` stores hue in milli-degrees
//! (`0 ..= 359_999`) and saturation and lightness in milli-percent
//! (`0 ..= 100_000`), the same three-decimal fixed-point convention the
//! rest of the simulation uses.  The conversions follow the standard
//! colorimetric formulas with round-to-nearest integer arithmetic; the
//! precision is fine enough that a round trip reproduces the original
//! bytes exactly (`lemma_rgb_hsl_round_trip`).

use vstd::prelude::*;

verus! {

/// An additive color: one byte per channel.
#[derive(Clone, Copy, Debug, PartialEq, Eq, Structural)]
pub struct Rgb {
    pub r: u8,
    pub g: u8,
    pub b: u8,
}

/// A perceptual color: hue in milli-degrees, saturation and lightness in
/// milli-percent.
#[derive(Clone, Copy, Debug, PartialEq, Eq, Structural)]
pub struct Hsl {
    pub h: i64,
    pub s: i64,
    pub l: i64,
}

/// The domain of a well-formed `Hsl` value.
pub open spec fn hsl_wf(c: Hsl) -> bool {
    &&& 0 <= c.h < 360000
    &&& 0 <= c.s <= 100000
    &&& 0 <= c.l <= 100000
}

/// Clamp a milli-percent value into `[0, 100_000]`.
pub open spec fn spec_pct_clamp(x: int) -> int {
    if x < 0 {
        0
    } else if x > 100000 {
        100000
    } else {
        x
    }
}

/// Divide by a positive divisor, rounding half away from zero.
pub open spec fn div_round(a: int, d: int) -> int
    recommends
        d > 0,
{
    if a >= 0 {
        (a + d / 2) / d
    } else {
        -((-a + d / 2) / d)
    }
}

/// RGB to HSL, the standard hexcone formulas over milli-units.
pub open spec fn spec_rgb_to_hsl(c: Rgb) -> Hsl {
    let r = c.r as int;
    let g = c.g as int;
    let b = c.b as int;
    let mx = if r >= g && r >= b {
        r
    } else if g >= b {
        g
    } else {
        b
    };
    let mn = if r <= g && r <= b {
        r
    } else if g <= b {
        g
    } else {
        b
    };
    let sum = mx + mn;
    let d = mx - mn;
    let l = (sum * 100000 + 255) / 510;
    if d == 0 {
        Hsl { h: 0, s: 0, l: l as i64 }
    } else {
        let sden = if sum <= 255 {
            sum
        } else {
            510 - sum
        };
        let s = (d * 100000 + sden / 2) / sden;
        let h0 = if mx == r {
            div_round(60000 * (g - b), d)
        } else if mx == g {
            120000 + div_round(60000 * (b - r), d)
        } else {
            240000 + div_round(60000 * (r - g), d)
        };
        let h = if h0 < 0 {
            h0 + 360000
        } else {
            h0
        };
        Hsl { h: h as i64, s: s as i64, l: l as i64 }
    }
}

/// One output channel of the HSL to RGB conversion, from doubled
/// milli-percent components: `v` is the sector value (chroma, the middle
/// value, or zero) and `2l - ch` is twice the additive offset.
pub open spec fn spec_channel(v: int, l: int, ch: int) -> int {
    let x = ((2 * v + 2 * l - ch) * 255 + 100000) / 200000;
    if x < 0 {
        0
    } else if x > 255 {
        255
    } else {
        x
    }
}

/// HSL to RGB, the standard hexcone formulas over milli-units.
pub open spec fn spec_hsl_to_rgb(c: Hsl) -> Rgb {
    let h = c.h as int;
    let s = c.s as int;
    let l = c.l as int;
    let span = if 2 * l <= 100000 {
        2 * l
    } else {
        200000 - 2 * l
    };
    let ch = (span * s + 50000) / 100000;
    let sect = h / 60000;
    let rem = h % 120000;
    let t = if rem <= 60000 {
        rem
    } else {
        120000 - rem
    };
    let x = (ch * t + 30000) / 60000;
    let rv = if sect == 0 || sect == 5 {
        ch
    } else if sect == 1 || sect == 4 {
        x
    } else {
        0
    };
    let gv = if sect == 0 || sect == 3 {
        x
    } else if sect == 1 || sect == 2 {
        ch
    } else {
        0
    };
    let bv = if sect == 2 || sect == 5 {
        x
    } else if sect == 3 || sect == 4 {
        ch
    } else {
        0
    };
    Rgb {
        r: spec_channel(rv, l, ch) as u8,
        g: spec_channel(gv, l, ch) as u8,
        b: spec_channel(bv, l, ch) as u8,
    }
}

/// Clamp a milli-percent value into `[0, 100_000]`.
pub fn pct_clamp(x: i64) -> (r: i64)
    ensures
        r == spec_pct_clamp(x as int),
{
    if x < 0 {
        0
    } else if x > 100000 {
        100000
    } else {
        x
    }
}

impl Rgb {
    /// Build a color from its three byte channels.
    pub fn from_rgb(r: u8, g: u8, b: u8) -> (c: Rgb)
        ensures
            c == (Rgb { r, g, b }),
    {
        Rgb { r, g, b }
    }

    /// The perceptual form of this color.
    pub fn as_hsl(&self) -> (c: Hsl)
        ensures
            c == spec_rgb_to_hsl(*self),
            hsl_wf(c),
    {
        let r = self.r as i64;
        let g = self.g as i64;
        let b = self.b as i64;
        let mx = if r >= g && r >= b {
            r
        } else if g >= b {
            g
        } else {
            b
        };
        let mn = if r <= g && r <= b {
            r
        } else if g <= b {
            g
        } else {
            b
        };
        let sum = mx + mn;
        let d = mx - mn;
        let l = (sum * 100000 + 255) / 510;
        if d == 0 {
            Hsl { h: 0, s: 0, l }
        } else {
            let sden = if sum <= 255 {
                sum
            } else {
                510 - sum
            };
            let s = (d * 100000 + sden / 2) / sden;
            proof {
                let di = d as int;
                let sdi = sden as int;
                assert(di <= sdi);
                assert(di * 100000 + sdi / 2 < (100000 + 1) * sdi) by (nonlinear_arith)
                    requires
                        1 <= di <= sdi,
                ;
                assert((di * 100000 + sdi / 2) / sdi < 100001) by (nonlinear_arith)
                    requires
                        sdi >= 1,
                        di * 100000 + sdi / 2 < (100000 + 1) * sdi,
                ;
                assert(0 <= (di * 100000 + sdi / 2) / sdi) by (nonlinear_arith)
                    requires
                        sdi >= 1,
                        0 <= di * 100000 + sdi / 2,
                ;
                assert(0 <= di * 100000) by (nonlinear_arith)
                    requires
                        0 <= di,
                ;
            }
            proof {
                div_round_bound(60000 * (g as int - b as int), d as int, 60000);
                div_round_bound(60000 * (b as int - r as int), d as int, 60000);
                div_round_bound(60000 * (r as int - g as int), d as int, 60000);
            }
            let h0 = if mx == r {
                div_round_exec(60000 * (g - b), d)
            } else if mx == g {
                120000 + div_round_exec(60000 * (b - r), d)
            } else {
                240000 + div_round_exec(60000 * (r - g), d)
            };
            let h = if h0 < 0 {
                h0 + 360000
            } else {
                h0
            };
            Hsl { h, s, l }
        }
    }
}

impl Hsl {
    /// Build a perceptual color from hue, saturation and lightness.
    pub fn new(h: i64, s: i64, l: i64) -> (c: Hsl)
        ensures
            c == (Hsl { h, s, l }),
    {
        Hsl { h, s, l }
    }

    /// The additive form of this color.
    pub fn as_rgb(&self) -> (c: Rgb)
        requires
            hsl_wf(*self),
        ensures
            c == spec_hsl_to_rgb(*self),
    {
        let h = self.h;
        let s = self.s;
        let l = self.l;
        let span = if 2 * l <= 100000 {
            2 * l
        } else {
            200000 - 2 * l
        };
        proof {
            let spi = span as int;
            let si = s as int;
            assert(spi * si <= 100000 * 100000) by (nonlinear_arith)
                requires
                    0 <= spi <= 100000,
                    0 <= si <= 100000,
            ;
            assert(0 <= spi * si) by (nonlinear_arith)
                requires
                    0 <= spi,
                    0 <= si,
            ;
        }
        let ch = (span * s + 50000) / 100000;
        proof {
            let spi = span as int;
            let si = s as int;
            assert((spi * si + 50000) / 100000 <= 10000050000int / 100000) by {
                vstd::arithmetic::div_mod::lemma_div_is_ordered(
                    spi * si + 50000,
                    10000050000int,
                    100000,
                );
            };
            assert(0int <= (spi * si + 50000) / 100000) by {
                vstd::arithmetic::div_mod::lemma_div_is_ordered(0, spi * si + 50000, 100000);
            };
        }
        let sect = h / 60000;
        let rem = h % 120000;
        let t = if rem <= 60000 {
            rem
        } else {
            120000 - rem
        };
        proof {
            let ci = ch as int;
            let ti = t as int;
            assert(0 <= ci * ti <= ci * 60000) by (nonlinear_arith)
                requires
                    0 <= ti <= 60000,
                    0 <= ci,
            ;
        }
        let x = (ch * t + 30000) / 60000;
        proof {
            let ci = ch as int;
            let ti = t as int;
            assert((ci * ti + 30000) / 60000 <= (ci * 60000 + 30000) / 60000) by {
                vstd::arithmetic::div_mod::lemma_div_is_ordered(
                    ci * ti + 30000,
                    ci * 60000 + 30000,
                    60000,
                );
            };
            assert((ci * 60000 + 30000) / 60000 == ci) by (nonlinear_arith);
        }
        let rv = if sect == 0 || sect == 5 {
            ch
        } else if sect == 1 || sect == 4 {
            x
        } else {
            0
        };
        let gv = if sect == 0 || sect == 3 {
            x
        } else if sect == 1 || sect == 2 {
            ch
        } else {
            0
        };
        let bv = if sect == 2 || sect == 5 {
            x
        } else if sect == 3 || sect == 4 {
            ch
        } else {
            0
        };
        Rgb {
            r: channel(rv, l, ch),
            g: channel(gv, l, ch),
            b: channel(bv, l, ch),
        }
    }
}

/// The chroma reconstructed from the rounded saturation and lightness
/// differs from the scaled spread `d` by less than two thousandths of
/// the full scale: `|255 * ch - 100000 * d| <= 636`.
proof fn lemma_chroma(sum: int, d: int, sden: int, l: int, s: int, span: int, ch: int)
    requires
        1 <= d <= sden,
        sden <= 255,
        1 <= sum <= 509,
        sden == if sum <= 255 {
            sum
        } else {
            510 - sum
        },
        l == (sum * 100000 + 255) / 510,
        s == (d * 100000 + sden / 2) / sden,
        span == if 2 * l <= 100000 {
            2 * l
        } else {
            200000 - 2 * l
        },
        ch == (span * s + 50000) / 100000,
    ensures
        -636 <= 255 * ch - 100000 * d <= 636,
        0 <= ch,
        0 <= s <= 100000,
        0 <= l <= 100000,
{
    let k = 100000int;
    vstd::arithmetic::div_mod::lemma_fundamental_div_mod(sum * k + 255, 510);
    vstd::arithmetic::div_mod::lemma_mod_bound(sum * k + 255, 510);
    let rl = (sum * k + 255) % 510;
    assert(510 * l == sum * k + 255 - rl);
    assert(0 <= l <= k);
    // The halved-lightness span carries the same fraction as `sden`.
    if sum <= 255 {
        assert(510 * l <= 255 * k + 255);
        assert(2 * l <= k);
    } else {
        assert(510 * l >= 256 * k - 254);
        assert(2 * l > k);
    }
    let e1 = 255 * span - sden * k;
    assert(-255 <= e1 <= 255);
    // Saturation as an exact fraction of `sden`.
    let hden = sden / 2;
    assert(0 <= hden <= 127 && hden <= sden - 1);
    vstd::arithmetic::div_mod::lemma_fundamental_div_mod(d * k + hden, sden);
    vstd::arithmetic::div_mod::lemma_mod_bound(d * k + hden, sden);
    let rs = (d * k + hden) % sden;
    assert(sden * s == d * k + hden - rs);
    assert(0 <= s <= k) by {
        assert(d * k <= sden * k);
        assert(sden * s <= sden * k + sden - 1);
        assert(s <= k) by (nonlinear_arith)
            requires
                sden >= 1,
                sden * s <= sden * k + sden - 1,
                k == 100000,
        ;
        assert(sden * s >= k - 254);
        assert(s >= 0) by (nonlinear_arith)
            requires
                sden >= 1,
                sden * s >= k - 254,
                k == 100000,
        ;
    }
    // Chroma as an exact fraction.
    vstd::arithmetic::div_mod::lemma_fundamental_div_mod(span * s + 50000, k);
    vstd::arithmetic::div_mod::lemma_mod_bound(span * s + 50000, k);
    let rc = (span * s + 50000) % k;
    assert(k * ch == span * s + 50000 - rc);
    let ec = 255 * ch - k * d;
    assert(k * ec == k * (hden - rs) + e1 * s + 255 * (50000 - rc)) by (nonlinear_arith)
        requires
            k * ch == span * s + 50000 - rc,
            255 * span == sden * k + e1,
            sden * s == d * k + hden - rs,
            ec == 255 * ch - k * d,
    ;
    assert(-255 * k <= e1 * s <= 255 * k) by (nonlinear_arith)
        requires
            -255 <= e1 <= 255,
            0 <= s <= k,
            k == 100000,
    ;
    assert(-254 <= hden - rs <= 127);
    assert(-(255 * k) <= k * (hden - rs) <= 255 * k);
    assert(-12750000 <= 255 * (50000 - rc) <= 12750000);
    assert(-63650000 <= k * ec <= 63650000);
    assert(-636 <= ec <= 636);
    assert(0 <= span * s) by (nonlinear_arith)
        requires
            0 <= span,
            0 <= s,
    ;
    assert(0 <= ch);
}

/// A rounded division by a small positive divisor lands within one
/// divisor of the true fraction: `|d * ((a + d/2) / d) - a| <= 254`.
proof fn lemma_hue_fraction(a: int, d: int)
    requires
        0 <= a,
        1 <= d <= 255,
    ensures
        -254 <= d * ((a + d / 2) / d) - a <= 127,
{
    vstd::arithmetic::div_mod::lemma_fundamental_div_mod(a + d / 2, d);
    vstd::arithmetic::div_mod::lemma_mod_bound(a + d / 2, d);
}

/// With the exact fractions for lightness, chroma and the hue tent in
/// hand, each of the three channel evaluations recovers its original
/// byte exactly: every accumulated rounding error stays strictly under
/// half a channel unit.
proof fn lemma_channels(
    mx: int,
    mid: int,
    mn: int,
    l: int,
    ch: int,
    t: int,
    x: int,
    ec: int,
    eh: int,
)
    requires
        0 <= mn <= mid <= mx <= 255,
        1 <= mx - mn,
        l == ((mx + mn) * 100000 + 255) / 510,
        ec == 255 * ch - 100000 * (mx - mn),
        -636 <= ec <= 636,
        (mx - mn) * t == 60000 * (mid - mn) + eh,
        -254 <= eh <= 254,
        0 <= t <= 60000,
        0 <= ch,
        x == (ch * t + 30000) / 60000,
    ensures
        spec_channel(ch, l, ch) == mx,
        spec_channel(x, l, ch) == mid,
        spec_channel(0, l, ch) == mn,
{
    let k = 100000int;
    let d = mx - mn;
    vstd::arithmetic::div_mod::lemma_fundamental_div_mod((mx + mn) * k + 255, 510);
    vstd::arithmetic::div_mod::lemma_mod_bound((mx + mn) * k + 255, 510);
    let rl = ((mx + mn) * k + 255) % 510;
    assert(510 * l == (mx + mn) * k + 255 - rl);
    vstd::arithmetic::div_mod::lemma_fundamental_div_mod(ch * t + 30000, 60000);
    vstd::arithmetic::div_mod::lemma_mod_bound(ch * t + 30000, 60000);
    let rx = (ch * t + 30000) % 60000;
    assert(60000 * x == ch * t + 30000 - rx);
    // The middle sector value as an exact fraction of the mid channel.
    let ex = 255 * x - k * (mid - mn);
    assert(60000 * ex == k * eh + ec * t + 255 * (30000 - rx)) by (nonlinear_arith)
        requires
            60000 * x == ch * t + 30000 - rx,
            255 * ch == k * d + ec,
            d * t == 60000 * (mid - mn) + eh,
            ex == 255 * x - k * (mid - mn),
            k == 100000,
    ;
    assert(-38160000 <= ec * t <= 38160000) by (nonlinear_arith)
        requires
            -636 <= ec <= 636,
            0 <= t <= 60000,
    ;
    assert(-71310000 <= 60000 * ex <= 71310000);
    assert(-1189 <= ex <= 1189);
    // Max channel: the numerator is within half a unit of `2k * mx`.
    let e_max = ec + 255 - rl;
    assert((2 * ch + 2 * l - ch) * 255 + k == mx * 200000 + (k + e_max));
    assert(0 <= k + e_max < 200000);
    vstd::arithmetic::div_mod::lemma_fundamental_div_mod_converse(
        (2 * ch + 2 * l - ch) * 255 + k,
        200000,
        mx,
        k + e_max,
    );
    // Min channel.
    let e_min = 255 - rl - ec;
    assert((2 * 0 + 2 * l - ch) * 255 + k == mn * 200000 + (k + e_min));
    assert(0 <= k + e_min < 200000);
    vstd::arithmetic::div_mod::lemma_fundamental_div_mod_converse(
        (2 * 0 + 2 * l - ch) * 255 + k,
        200000,
        mn,
        k + e_min,
    );
    // Mid channel.
    let e_mid = 2 * ex + 255 - rl - ec;
    assert((2 * x + 2 * l - ch) * 255 + k == mid * 200000 + (k + e_mid));
    assert(0 <= k + e_mid < 200000);
    vstd::arithmetic::div_mod::lemma_fundamental_div_mod_converse(
        (2 * x + 2 * l - ch) * 255 + k,
        200000,
        mid,
        k + e_mid,
    );
}

/// The color model round-trip law: converting any color to HSL and
/// back yields the original bytes exactly.  The forward conversion
/// rounds each component to the nearest milli-unit, which keeps every
/// accumulated error strictly under half a channel unit, so the final
/// rounding recovers each byte.
pub proof fn lemma_rgb_hsl_round_trip(c: Rgb)
    ensures
        spec_hsl_to_rgb(spec_rgb_to_hsl(c)) == c,
{
    let r = c.r as int;
    let g = c.g as int;
    let b = c.b as int;
    let mx = if r >= g && r >= b {
        r
    } else if g >= b {
        g
    } else {
        b
    };
    let mn = if r <= g && r <= b {
        r
    } else if g <= b {
        g
    } else {
        b
    };
    let sum = mx + mn;
    let d = mx - mn;
    if d == 0 {
        assert(c.r == c.g && c.g == c.b);
        lemma_gray_round_trip(c);
    } else {
        let k = 100000int;
        let sden = if sum <= 255 {
            sum
        } else {
            510 - sum
        };
        let l = (sum * k + 255) / 510;
        let s = (d * k + sden / 2) / sden;
        let span = if 2 * l <= k {
            2 * l
        } else {
            200000 - 2 * l
        };
        let ch = (span * s + 50000) / k;
        assert(d <= sden && sden <= 255 && 1 <= sum <= 509);
        lemma_chroma(sum, d, sden, l, s, span, ch);
        let ec = 255 * ch - k * d;
        let hsl = spec_rgb_to_hsl(c);
        if r >= g && r >= b {
            // The red channel is the maximum.
            if g >= b {
                assert(mn == b);
                let dd = 60000 * (g - b);
                lemma_hue_fraction(dd, d);
                div_round_bound(dd, d, 60000);
                let q = (dd + d / 2) / d;
                let eh = d * q - dd;
                let h = q;
                assert(hsl == (Hsl { h: h as i64, s: s as i64, l: l as i64 }));
                let x = (ch * q + 30000) / 60000;
                lemma_channels(mx, g, b, l, ch, q, x, ec, eh);
                if q < 60000 {
                    vstd::arithmetic::div_mod::lemma_fundamental_div_mod_converse(h, 60000, 0, q);
                    vstd::arithmetic::div_mod::lemma_fundamental_div_mod_converse(h, 120000, 0, q);
                    assert(spec_hsl_to_rgb(hsl) == c);
                } else {
                    assert(g - b == d);
                    vstd::arithmetic::div_mod::lemma_fundamental_div_mod_converse(h, 60000, 1, 0);
                    vstd::arithmetic::div_mod::lemma_fundamental_div_mod_converse(
                        h,
                        120000,
                        0,
                        60000,
                    );
                    vstd::arithmetic::div_mod::lemma_fundamental_div_mod_converse(
                        ch * 60000 + 30000,
                        60000,
                        ch,
                        30000,
                    );
                    assert(spec_hsl_to_rgb(hsl) == c);
                }
            } else {
                assert(mn == g);
                let a = 60000 * (b - g);
                lemma_hue_fraction(a, d);
                div_round_bound(60000 * (g - b), d, 60000);
                let tq = (a + d / 2) / d;
                assert(div_round(60000 * (g - b), d) == -tq);
                let eh = d * tq - a;
                vstd::arithmetic::div_mod::lemma_fundamental_div_mod_converse(d, d, 1, 0);
                vstd::arithmetic::div_mod::lemma_div_is_ordered(d, a + d / 2, d);
                assert(1 <= tq <= 60000);
                let h = 360000 - tq;
                assert(hsl == (Hsl { h: h as i64, s: s as i64, l: l as i64 }));
                let x = (ch * tq + 30000) / 60000;
                lemma_channels(mx, b, g, l, ch, tq, x, ec, eh);
                vstd::arithmetic::div_mod::lemma_fundamental_div_mod_converse(
                    h,
                    60000,
                    5,
                    60000 - tq,
                );
                vstd::arithmetic::div_mod::lemma_fundamental_div_mod_converse(
                    h,
                    120000,
                    2,
                    120000 - tq,
                );
                assert(spec_hsl_to_rgb(hsl) == c);
            }
        } else if g >= b {
            // The green channel is the maximum.
            assert(r < g && mx == g);
            if b >= r {
                assert(mn == r);
                let dd = 60000 * (b - r);
                lemma_hue_fraction(dd, d);
                div_round_bound(dd, d, 60000);
                let q = (dd + d / 2) / d;
                let eh = d * q - dd;
                let h = 120000 + q;
                assert(hsl == (Hsl { h: h as i64, s: s as i64, l: l as i64 }));
                let x = (ch * q + 30000) / 60000;
                lemma_channels(mx, b, r, l, ch, q, x, ec, eh);
                if q < 60000 {
                    vstd::arithmetic::div_mod::lemma_fundamental_div_mod_converse(h, 60000, 2, q);
                    vstd::arithmetic::div_mod::lemma_fundamental_div_mod_converse(h, 120000, 1, q);
                    assert(spec_hsl_to_rgb(hsl) == c);
                } else {
                    assert(b - r == d);
                    vstd::arithmetic::div_mod::lemma_fundamental_div_mod_converse(h, 60000, 3, 0);
                    vstd::arithmetic::div_mod::lemma_fundamental_div_mod_converse(
                        h,
                        120000,
                        1,
                        60000,
                    );
                    vstd::arithmetic::div_mod::lemma_fundamental_div_mod_converse(
                        ch * 60000 + 30000,
                        60000,
                        ch,
                        30000,
                    );
                    assert(spec_hsl_to_rgb(hsl) == c);
                }
            } else {
                assert(mn == b);
                let a = 60000 * (r - b);
                lemma_hue_fraction(a, d);
                div_round_bound(60000 * (b - r), d, 60000);
                let tq = (a + d / 2) / d;
                assert(div_round(60000 * (b - r), d) == -tq);
                let eh = d * tq - a;
                vstd::arithmetic::div_mod::lemma_fundamental_div_mod_converse(d, d, 1, 0);
                vstd::arithmetic::div_mod::lemma_div_is_ordered(d, a + d / 2, d);
                assert(1 <= tq <= 60000);
                let h = 120000 - tq;
                assert(hsl == (Hsl { h: h as i64, s: s as i64, l: l as i64 }));
                let x = (ch * tq + 30000) / 60000;
                lemma_channels(mx, r, b, l, ch, tq, x, ec, eh);
                vstd::arithmetic::div_mod::lemma_fundamental_div_mod_converse(
                    h,
                    60000,
                    1,
                    60000 - tq,
                );
                vstd::arithmetic::div_mod::lemma_fundamental_div_mod_converse(h, 120000, 0, h);
                assert(spec_hsl_to_rgb(hsl) == c);
            }
        } else {
            // The blue channel is the maximum.
            assert(g < b && r < b && mx == b);
            if r >= g {
                assert(mn == g);
                let dd = 60000 * (r - g);
                lemma_hue_fraction(dd, d);
                div_round_bound(dd, d, 60000);
                let q = (dd + d / 2) / d;
                let eh = d * q - dd;
                let h = 240000 + q;
                assert(hsl == (Hsl { h: h as i64, s: s as i64, l: l as i64 }));
                let x = (ch * q + 30000) / 60000;
                lemma_channels(mx, r, g, l, ch, q, x, ec, eh);
                if q < 60000 {
                    vstd::arithmetic::div_mod::lemma_fundamental_div_mod_converse(h, 60000, 4, q);
                    vstd::arithmetic::div_mod::lemma_fundamental_div_mod_converse(h, 120000, 2, q);
                    assert(spec_hsl_to_rgb(hsl) == c);
                } else {
                    assert(r - g == d);
                    vstd::arithmetic::div_mod::lemma_fundamental_div_mod_converse(h, 60000, 5, 0);
                    vstd::arithmetic::div_mod::lemma_fundamental_div_mod_converse(
                        h,
                        120000,
                        2,
                        60000,
                    );
                    vstd::arithmetic::div_mod::lemma_fundamental_div_mod_converse(
                        ch * 60000 + 30000,
                        60000,
                        ch,
                        30000,
                    );
                    assert(spec_hsl_to_rgb(hsl) == c);
                }
            } else {
                assert(mn == r);
                let a = 60000 * (g - r);
                lemma_hue_fraction(a, d);
                div_round_bound(60000 * (r - g), d, 60000);
                let tq = (a + d / 2) / d;
                assert(div_round(60000 * (r - g), d) == -tq);
                let eh = d * tq - a;
                vstd::arithmetic::div_mod::lemma_fundamental_div_mod_converse(d, d, 1, 0);
                vstd::arithmetic::div_mod::lemma_div_is_ordered(d, a + d / 2, d);
                assert(1 <= tq <= 60000);
                let h = 240000 - tq;
                assert(hsl == (Hsl { h: h as i64, s: s as i64, l: l as i64 }));
                let x = (ch * tq + 30000) / 60000;
                lemma_channels(mx, g, r, l, ch, tq, x, ec, eh);
                vstd::arithmetic::div_mod::lemma_fundamental_div_mod_converse(
                    h,
                    60000,
                    3,
                    60000 - tq,
                );
                vstd::arithmetic::div_mod::lemma_fundamental_div_mod_converse(
                    h,
                    120000,
                    1,
                    120000 - tq,
                );
                assert(spec_hsl_to_rgb(hsl) == c);
            }
        }
    }
}

/// Round trip on the gray diagonal: a color with equal channels comes
/// back from HSL exactly as it was.
pub proof fn lemma_gray_round_trip(c: Rgb)
    requires
        c.r == c.g && c.g == c.b,
    ensures
        spec_hsl_to_rgb(spec_rgb_to_hsl(c)) == c,
{
    let v = c.r as int;
    let l = (2 * v * 100000 + 255) / 510;
    assert(spec_rgb_to_hsl(c) == (Hsl { h: 0, s: 0, l: l as i64 })) by {
        assert((v + v) * 100000 == 2 * v * 100000);
    }
    vstd::arithmetic::div_mod::lemma_fundamental_div_mod(2 * v * 100000 + 255, 510);
    vstd::arithmetic::div_mod::lemma_mod_bound(2 * v * 100000 + 255, 510);
    let rho = (2 * v * 100000 + 255) % 510;
    assert(510 * l == 2 * v * 100000 + 255 - rho);
    assert(0 <= l <= 100000) by {
        assert(0 <= 2 * v * 100000 + 255 <= 510 * 100000 + 255);
        assert((510 * 100000 + 255) / 510 == 100000);
        vstd::arithmetic::div_mod::lemma_div_is_ordered(0, 2 * v * 100000 + 255, 510);
        vstd::arithmetic::div_mod::lemma_div_is_ordered(
            2 * v * 100000 + 255,
            51000255int,
            510,
        );
    }
    let back = spec_hsl_to_rgb(spec_rgb_to_hsl(c));
    // With zero saturation the chroma is zero and every channel reads
    // the lightness back; the rounding slack stays strictly inside one
    // half unit, so the division recovers the original byte.
    assert(spec_channel(0, l, 0) == v) by {
        let num = (2 * 0 + 2 * l - 0) * 255 + 100000;
        assert(num == 510 * l + 100000);
        assert(num == 200000 * v + 100000 + 255 - rho);
        assert(num / 200000 == v) by {
            vstd::arithmetic::div_mod::lemma_fundamental_div_mod_converse(
                num,
                200000,
                v,
                100000 + 255 - rho,
            );
        }
    }
}

/// Divide by a positive divisor, rounding half away from zero.
fn div_round_exec(a: i64, d: i64) -> (r: i64)
    requires
        0 < d <= 255,
        -20000000 <= a <= 20000000,
    ensures
        r == div_round(a as int, d as int),
        -21000000 <= r <= 21000000,
{
    proof {
        div_round_bound(a as int, d as int, 21000000);
    }
    if a >= 0 {
        (a + d / 2) / d
    } else {
        -((-a + d / 2) / d)
    }
}

/// `|a| <= bound * d` bounds the rounded quotient by `bound`.
proof fn div_round_bound(a: int, d: int, bound: int)
    requires
        0 < d,
        0 <= bound,
        -(bound * d) <= a <= bound * d,
    ensures
        -bound <= div_round(a, d) <= bound,
{
    if a >= 0 {
        assert(a + d / 2 < (bound + 1) * d) by (nonlinear_arith)
            requires
                0 < d,
                a <= bound * d,
        ;
        assert((a + d / 2) / d < bound + 1) by (nonlinear_arith)
            requires
                0 < d,
                a + d / 2 < (bound + 1) * d,
        ;
        assert(0 <= (a + d / 2) / d) by (nonlinear_arith)
            requires
                0 < d,
                0 <= a + d / 2,
        ;
    } else {
        assert(-a + d / 2 < (bound + 1) * d) by (nonlinear_arith)
            requires
                0 < d,
                -a <= bound * d,
        ;
        assert((-a + d / 2) / d < bound + 1) by (nonlinear_arith)
            requires
                0 < d,
                -a + d / 2 < (bound + 1) * d,
        ;
        assert(0 <= (-a + d / 2) / d) by (nonlinear_arith)
            requires
                0 < d,
                0 <= -a + d / 2,
        ;
    }
}

/// One output channel of the HSL to RGB conversion.
fn channel(v: i64, l: i64, ch: i64) -> (r: u8)
    requires
        0 <= v <= 100000,
        0 <= l <= 100000,
        0 <= ch <= 100000,
    ensures
        r == spec_channel(v as int, l as int, ch as int),
{
    let num = (2 * v + 2 * l - ch) * 255 + 100000;
    if num < 0 {
        0
    } else {
        let q = num / 200000;
        if q > 255 {
            255
        } else {
            q as u8
        }
    }
}

} // verus!
