use vstd::prelude::*;
use vstd::arithmetic::div_mod::lemma_div_is_ordered;

verus! {

/// An RGBA colour with eight bits per channel.
#[derive(Debug, Clone, Copy, PartialEq, Eq, Structural)]
pub struct PixelColor {
    pub r: u8,
    pub g: u8,
    pub b: u8,
    pub a: u8,
}

/// The clamp on the normalised position: `p <= CLAMP_NUM / CLAMP_DEN`.
pub const CLAMP_NUM: u64 = 9999;

pub const CLAMP_DEN: u64 = 10000;

/// Denominator of the normalised position `p = n / max_iter`, scaled so that the clamp is exact.
pub open spec fn scale(max_iter: nat) -> nat {
    max_iter * (CLAMP_DEN as nat)
}

/// Numerator of `clamp(n / max_iter, 0, 0.9999)` over `scale(max_iter)`.
pub open spec fn clamped_pos(n: nat, max_iter: nat) -> nat {
    if n * (CLAMP_DEN as nat) <= (CLAMP_NUM as nat) * max_iter {
        n * (CLAMP_DEN as nat)
    } else {
        (CLAMP_NUM as nat) * max_iter
    }
}

/// Index of the first of the two stops that `n` falls between.
pub open spec fn stop_index(n: nat, max_iter: nat, stops: nat) -> nat {
    (clamped_pos(n, max_iter) * (stops - 1) as nat) / scale(max_iter)
}

/// Fraction between the two stops, as a numerator over `scale(max_iter)`.
pub open spec fn stop_frac(n: nat, max_iter: nat, stops: nat) -> nat {
    (clamped_pos(n, max_iter) * (stops - 1) as nat) % scale(max_iter)
}

/// One channel interpolated from `c0` towards `c1` by `f / d`, truncated.
pub open spec fn lerp(c0: u8, c1: u8, f: nat, d: nat) -> int {
    (c0 * (d - f) + c1 * f) / (d as int)
}

/// The colour at iteration count `n` of a gradient through `colors`.
pub open spec fn gradient_spec(n: nat, max_iter: nat, colors: Seq<PixelColor>) -> PixelColor {
    let i = stop_index(n, max_iter, colors.len()) as int;
    let f = stop_frac(n, max_iter, colors.len());
    let d = scale(max_iter);
    let c0 = colors[i];
    let c1 = colors[i + 1];
    PixelColor {
        r: lerp(c0.r, c1.r, f, d) as u8,
        g: lerp(c0.g, c1.g, f, d) as u8,
        b: lerp(c0.b, c1.b, f, d) as u8,
        a: lerp(c0.a, c1.a, f, d) as u8,
    }
}

/// The gradient table: entry `n` is the colour of iteration count `n`, for `n` in `0..=max_iter`.
pub open spec fn gradient_table_spec(max_iter: nat, colors: Seq<PixelColor>) -> Seq<PixelColor> {
    Seq::new(max_iter + 1, |n: int| gradient_spec(n as nat, max_iter, colors))
}

proof fn lemma_stop_index_bounds(n: nat, max_iter: nat, stops: nat)
    requires
        max_iter >= 1,
        stops >= 2,
    ensures
        stop_index(n, max_iter, stops) < stops - 1,
        stop_frac(n, max_iter, stops) < scale(max_iter),
{
    let d = scale(max_iter);
    let p = clamped_pos(n, max_iter);
    let k = (stops - 1) as nat;
    assert(d > 0) by (nonlinear_arith)
        requires
            d == max_iter * 10000,
            max_iter >= 1,
    ;
    assert(p < d) by (nonlinear_arith)
        requires
            d == max_iter * 10000,
            max_iter >= 1,
            p <= 9999 * max_iter,
    ;
    assert(p * k < d * k) by (nonlinear_arith)
        requires
            p < d,
            k >= 1,
    ;
    assert((p * k) / d < k) by (nonlinear_arith)
        requires
            p * k < d * k,
            d > 0,
    ;
}

proof fn lemma_lerp_bounds(c0: u8, c1: u8, f: nat, d: nat)
    requires
        f < d,
    ensures
        0 <= lerp(c0, c1, f, d) <= 255,
{
    let num = c0 * (d - f) + c1 * f;
    assert(0 <= num <= 255 * d) by (nonlinear_arith)
        requires
            num == c0 * (d - f) + c1 * f,
            0 <= c0 <= 255,
            0 <= c1 <= 255,
            f < d,
    ;
    assert(0 <= num / (d as int) <= 255) by (nonlinear_arith)
        requires
            0 <= num <= 255 * d,
            d > 0,
    ;
}

fn lerp_channel(c0: u8, c1: u8, f: u64, d: u64) -> (r: u8)
    requires
        f < d,
        d <= 0x1_0000_0000_0000,
    ensures
        r == lerp(c0, c1, f as nat, d as nat),
{
    proof {
        lemma_lerp_bounds(c0, c1, f as nat, d as nat);
    }
    let lo: u64 = d - f;
    assert(c0 as u64 * lo <= 255 * 0x1_0000_0000_0000) by (nonlinear_arith)
        requires
            c0 <= 255,
            lo <= 0x1_0000_0000_0000,
    ;
    assert(c1 as u64 * f <= 255 * 0x1_0000_0000_0000) by (nonlinear_arith)
        requires
            c1 <= 255,
            f <= 0x1_0000_0000_0000,
    ;
    let num: u64 = c0 as u64 * lo + c1 as u64 * f;
    (num / d) as u8
}

impl PixelColor {
    pub fn black() -> (c: PixelColor)
        ensures
            c == (PixelColor { r: 0, g: 0, b: 0, a: 255 }),
    {
        PixelColor { r: 0, g: 0, b: 0, a: 255 }
    }

    pub fn white() -> (c: PixelColor)
        ensures
            c == (PixelColor { r: 255, g: 255, b: 255, a: 255 }),
    {
        PixelColor { r: 255, g: 255, b: 255, a: 255 }
    }

    pub fn red() -> (c: PixelColor)
        ensures
            c == (PixelColor { r: 255, g: 0, b: 0, a: 255 }),
    {
        PixelColor { r: 255, g: 0, b: 0, a: 255 }
    }

    pub fn green() -> (c: PixelColor)
        ensures
            c == (PixelColor { r: 0, g: 255, b: 0, a: 255 }),
    {
        PixelColor { r: 0, g: 255, b: 0, a: 255 }
    }

    pub fn blue() -> (c: PixelColor)
        ensures
            c == (PixelColor { r: 0, g: 0, b: 255, a: 255 }),
    {
        PixelColor { r: 0, g: 0, b: 255, a: 255 }
    }

    pub fn cyan() -> (c: PixelColor)
        ensures
            c == (PixelColor { r: 0, g: 255, b: 255, a: 255 }),
    {
        PixelColor { r: 0, g: 255, b: 255, a: 255 }
    }

    pub fn magenta() -> (c: PixelColor)
        ensures
            c == (PixelColor { r: 255, g: 0, b: 255, a: 255 }),
    {
        PixelColor { r: 255, g: 0, b: 255, a: 255 }
    }

    pub fn yellow() -> (c: PixelColor)
        ensures
            c == (PixelColor { r: 255, g: 255, b: 0, a: 255 }),
    {
        PixelColor { r: 255, g: 255, b: 0, a: 255 }
    }

    pub fn new(r: u8, g: u8, b: u8, a: u8) -> (c: PixelColor)
        ensures
            c == (PixelColor { r, g, b, a }),
    {
        PixelColor { r, g, b, a }
    }

    /// The colour of iteration count `n`: the position `n / max_iter`, clamped to
    /// `[0, 0.9999]`, is spread over the stops, and each channel is interpolated
    /// linearly between the two neighbouring stops and truncated.
    pub fn gradient(n: u32, max_iter: u32, colors: &Vec<PixelColor>) -> (c: PixelColor)
        requires
            max_iter >= 1,
            colors.len() >= 2,
        ensures
            c == gradient_spec(n as nat, max_iter as nat, colors@),
    {
        let ghost stops = colors.len() as nat;
        proof {
            lemma_stop_index_bounds(n as nat, max_iter as nat, stops);
        }
        let d: u64 = max_iter as u64 * CLAMP_DEN;
        let p: u64 = if (n as u64) * CLAMP_DEN <= CLAMP_NUM * (max_iter as u64) {
            (n as u64) * CLAMP_DEN
        } else {
            CLAMP_NUM * (max_iter as u64)
        };
        assert(p as nat == clamped_pos(n as nat, max_iter as nat));
        let k: u128 = (colors.len() - 1) as u128;
        assert((p as u128) * k < 0x1_0000_0000_0000_0000_0000_0000_0000) by (nonlinear_arith)
            requires
                p <= 0x1_0000_0000_0000,
                k <= 0xffff_ffff_ffff_ffff,
        ;
        let t: u128 = (p as u128) * k;
        let idx: usize = (t / (d as u128)) as usize;
        let f: u64 = (t % (d as u128)) as u64;
        let c0 = colors[idx];
        let c1 = colors[idx + 1];
        PixelColor {
            r: lerp_channel(c0.r, c1.r, f, d),
            g: lerp_channel(c0.g, c1.g, f, d),
            b: lerp_channel(c0.b, c1.b, f, d),
            a: lerp_channel(c0.a, c1.a, f, d),
        }
    }

    /// The gradient table for counts `0..=max_iter`.
    pub fn compute_gradient_table(max_iter: u32, colors: &Vec<PixelColor>) -> (t: Vec<PixelColor>)
        requires
            max_iter >= 1,
            colors.len() >= 2,
        ensures
            t@ == gradient_table_spec(max_iter as nat, colors@),
    {
        let mut t: Vec<PixelColor> = Vec::new();
        let mut n: u64 = 0;
        while n <= max_iter as u64
            invariant
                n <= max_iter + 1,
                max_iter >= 1,
                colors.len() >= 2,
                t@.len() == n,
                forall|i: int| 0 <= i < n ==> t@[i] == gradient_spec(i as nat, max_iter as nat, colors@),
            decreases max_iter + 1 - n,
        {
            t.push(PixelColor::gradient(n as u32, max_iter, colors));
            n = n + 1;
        }
        assert(t@ =~= gradient_table_spec(max_iter as nat, colors@));
        t
    }
}

proof fn lemma_lerp_monotone(c0: u8, c1: u8, f1: nat, f2: nat, d: nat)
    requires
        c0 <= c1,
        f1 <= f2 < d,
    ensures
        lerp(c0, c1, f1, d) <= lerp(c0, c1, f2, d),
        lerp(c0, c1, 0, d) == c0,
{
    let n1 = c0 * (d - f1) + c1 * f1;
    let n2 = c0 * (d - f2) + c1 * f2;
    assert(n1 <= n2) by (nonlinear_arith)
        requires
            n1 == c0 * (d - f1) + c1 * f1,
            n2 == c0 * (d - f2) + c1 * f2,
            c0 <= c1,
            f1 <= f2,
    ;
    lemma_div_is_ordered(n1, n2, d as int);
    assert((c0 * d) / (d as int) == c0) by (nonlinear_arith)
        requires
            d > 0,
    ;
}

/// With two stops whose channels rise from the first to the second, the table
/// starts at the first stop and no channel falls as the count grows.
pub proof fn lemma_two_stop_gradient_monotone(c0: PixelColor, c1: PixelColor, max_iter: nat, n1: nat, n2: nat)
    requires
        max_iter >= 1,
        c0.r <= c1.r,
        c0.g <= c1.g,
        c0.b <= c1.b,
        c0.a <= c1.a,
        n1 <= n2 <= max_iter,
    ensures
        gradient_spec(0, max_iter, seq![c0, c1]) == c0,
        gradient_spec(n1, max_iter, seq![c0, c1]).r <= gradient_spec(n2, max_iter, seq![c0, c1]).r,
        gradient_spec(n1, max_iter, seq![c0, c1]).g <= gradient_spec(n2, max_iter, seq![c0, c1]).g,
        gradient_spec(n1, max_iter, seq![c0, c1]).b <= gradient_spec(n2, max_iter, seq![c0, c1]).b,
        gradient_spec(n1, max_iter, seq![c0, c1]).a <= gradient_spec(n2, max_iter, seq![c0, c1]).a,
{
    let colors = seq![c0, c1];
    let d = scale(max_iter);
    let p1 = clamped_pos(n1, max_iter);
    let p2 = clamped_pos(n2, max_iter);
    lemma_stop_index_bounds(0, max_iter, 2);
    lemma_stop_index_bounds(n1, max_iter, 2);
    lemma_stop_index_bounds(n2, max_iter, 2);
    assert(n1 * 10000 <= n2 * 10000) by (nonlinear_arith)
        requires
            n1 <= n2,
    ;
    assert(p1 <= p2);
    assert(stop_index(n1, max_iter, 2) == 0);
    assert(stop_index(n2, max_iter, 2) == 0);
    assert(stop_index(0, max_iter, 2) == 0);
    vstd::arithmetic::div_mod::lemma_small_mod(p1, d);
    vstd::arithmetic::div_mod::lemma_small_mod(p2, d);
    vstd::arithmetic::div_mod::lemma_small_mod(0, d);
    assert(stop_frac(n1, max_iter, 2) == p1);
    assert(stop_frac(n2, max_iter, 2) == p2);
    assert(clamped_pos(0, max_iter) == 0);
    let p0 = clamped_pos(0, max_iter);
    let k = (2 - 1) as nat;
    assert(k == 1);
    assert(p0 * k == 0 && p1 * k == p1 && p2 * k == p2) by (nonlinear_arith)
        requires
            p0 == 0,
            k == 1,
    ;
    assert(stop_frac(0, max_iter, 2) == 0);
    lemma_lerp_monotone(c0.r, c1.r, p1, p2, d);
    lemma_lerp_monotone(c0.g, c1.g, p1, p2, d);
    lemma_lerp_monotone(c0.b, c1.b, p1, p2, d);
    lemma_lerp_monotone(c0.a, c1.a, p1, p2, d);
    lemma_lerp_bounds(c0.r, c1.r, p1, d);
    lemma_lerp_bounds(c0.g, c1.g, p1, d);
    lemma_lerp_bounds(c0.b, c1.b, p1, d);
    lemma_lerp_bounds(c0.a, c1.a, p1, d);
    lemma_lerp_bounds(c0.r, c1.r, p2, d);
    lemma_lerp_bounds(c0.g, c1.g, p2, d);
    lemma_lerp_bounds(c0.b, c1.b, p2, d);
    lemma_lerp_bounds(c0.a, c1.a, p2, d);
}

} // verus!
