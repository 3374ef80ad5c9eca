//! RGBA colours and the source-over compositing operator.

use vstd::prelude::*;

verus! {

/// A colour of four 8-bit channels in the order red, green, blue, alpha.
/// Alpha 255 is fully opaque, alpha 0 fully transparent.
#[derive(Clone, Copy, Debug, PartialEq, Eq)]
pub struct Rgba(pub [u8; 4]);

/// One colour channel of `src` laid over `dst` with weight `alpha / 255`,
/// rounded down.
pub open spec fn mix(src: int, dst: int, alpha: int) -> int {
    (src * alpha + dst * (255 - alpha)) / 255
}

/// The alpha that results from laying alpha `src` over alpha `dst`.
pub open spec fn accumulate(src: int, dst: int) -> int {
    src + dst * (255 - src) / 255
}

/// An alpha scaled by the coverage `num / den`, rounded down.
pub open spec fn scale(alpha: int, num: int, den: int) -> int {
    alpha * num / den
}

impl Rgba {
    /// The red channel.
    pub open spec fn r(self) -> int {
        self.0[0] as int
    }

    /// The green channel.
    pub open spec fn g(self) -> int {
        self.0[1] as int
    }

    /// The blue channel.
    pub open spec fn b(self) -> int {
        self.0[2] as int
    }

    /// The alpha channel.
    pub open spec fn a(self) -> int {
        self.0[3] as int
    }

    /// This colour with its alpha replaced by `alpha`.
    pub open spec fn with_alpha(self, alpha: int) -> Rgba {
        Rgba([self.0[0], self.0[1], self.0[2], alpha as u8])
    }

    /// This colour as it shows through a pixel of which it covers the
    /// fraction `num / den`: the alpha is scaled, the other channels stay.
    pub open spec fn covered(self, num: int, den: int) -> Rgba {
        self.with_alpha(scale(self.a(), num, den))
    }

    /// Porter-Duff "over": this colour composited onto `dst`.
    pub open spec fn over(self, dst: Rgba) -> Rgba {
        Rgba(
            [
                mix(self.r(), dst.r(), self.a()) as u8,
                mix(self.g(), dst.g(), self.a()) as u8,
                mix(self.b(), dst.b(), self.a()) as u8,
                accumulate(self.a(), dst.a()) as u8,
            ],
        )
    }

    /// Scales the alpha by the coverage `num / den`.
    pub fn with_coverage(self, num: u32, den: u32) -> (out: Rgba)
        requires
            0 < den,
            num <= den,
        ensures
            out == self.covered(num as int, den as int),
            out.a() <= self.a(),
    {
        proof {
            lemma_scale_bounds(self.a(), num as int, den as int);
        }
        let product: u64 = self.0[3] as u64 * num as u64;
        let alpha: u64 = product / den as u64;
        Rgba([self.0[0], self.0[1], self.0[2], alpha as u8])
    }
}

/// Composites `src` over the pixel `dst` and returns the new pixel.
pub fn blend(dst: Rgba, src: Rgba) -> (out: Rgba)
    ensures
        out == src.over(dst),
{
    let alpha: u32 = src.0[3] as u32;
    let rest: u32 = 255 - alpha;
    proof {
        lemma_mix_bounds(src.r(), dst.r(), src.a());
        lemma_mix_bounds(src.g(), dst.g(), src.a());
        lemma_mix_bounds(src.b(), dst.b(), src.a());
        lemma_accumulate_bounds(src.a(), dst.a());
        assert(src.r() * src.a() <= 255 * 255 && dst.r() * (255 - src.a()) <= 255 * 255
            && src.g() * src.a() <= 255 * 255 && dst.g() * (255 - src.a()) <= 255 * 255
            && src.b() * src.a() <= 255 * 255 && dst.b() * (255 - src.a()) <= 255 * 255
            && dst.a() * (255 - src.a()) <= 255 * 255) by (nonlinear_arith)
            requires
                0 <= src.r() <= 255,
                0 <= src.g() <= 255,
                0 <= src.b() <= 255,
                0 <= src.a() <= 255,
                0 <= dst.r() <= 255,
                0 <= dst.g() <= 255,
                0 <= dst.b() <= 255,
                0 <= dst.a() <= 255,
        ;
    }
    let r: u32 = (src.0[0] as u32 * alpha + dst.0[0] as u32 * rest) / 255;
    let g: u32 = (src.0[1] as u32 * alpha + dst.0[1] as u32 * rest) / 255;
    let b: u32 = (src.0[2] as u32 * alpha + dst.0[2] as u32 * rest) / 255;
    let a: u32 = alpha + dst.0[3] as u32 * rest / 255;
    Rgba([r as u8, g as u8, b as u8, a as u8])
}

/// A mixed channel is again a channel value.
pub proof fn lemma_mix_bounds(src: int, dst: int, alpha: int)
    requires
        0 <= src <= 255,
        0 <= dst <= 255,
        0 <= alpha <= 255,
    ensures
        0 <= mix(src, dst, alpha) <= 255,
{
    assert(0 <= src * alpha + dst * (255 - alpha) <= 255 * 255) by (nonlinear_arith)
        requires
            0 <= src <= 255,
            0 <= dst <= 255,
            0 <= alpha <= 255,
    ;
}

/// An accumulated alpha is again an alpha, and no smaller than the source's.
pub proof fn lemma_accumulate_bounds(src: int, dst: int)
    requires
        0 <= src <= 255,
        0 <= dst <= 255,
    ensures
        src <= accumulate(src, dst) <= 255,
{
    assert(0 <= dst * (255 - src) <= 255 * (255 - src)) by (nonlinear_arith)
        requires
            0 <= src <= 255,
            0 <= dst <= 255,
    ;
}

/// A coverage of at most one never raises the alpha.
pub proof fn lemma_scale_bounds(alpha: int, num: int, den: int)
    requires
        0 <= alpha <= 255,
        0 <= num <= den,
        0 < den,
    ensures
        0 <= scale(alpha, num, den) <= alpha,
        alpha * num <= 255 * den,
{
    assert(0 <= alpha * num <= alpha * den && alpha * num <= 255 * den) by (nonlinear_arith)
        requires
            0 <= alpha <= 255,
            0 <= num <= den,
    ;
    vstd::arithmetic::div_mod::lemma_div_is_ordered(alpha * num, alpha * den, den);
    vstd::arithmetic::div_mod::lemma_div_multiples_vanish(alpha, den);
    vstd::arithmetic::div_mod::lemma_div_pos_is_pos(alpha * num, den);
    assert(alpha * den == den * alpha) by (nonlinear_arith);
}

/// Two colours with the same four channels are the same colour.
pub proof fn lemma_same_channels(p: Rgba, q: Rgba)
    requires
        p.r() == q.r(),
        p.g() == q.g(),
        p.b() == q.b(),
        p.a() == q.a(),
    ensures
        p == q,
{
    assert(p.0 =~= q.0);
}

/// Compositing a fully opaque colour over any pixel yields exactly that
/// colour.
pub proof fn lemma_opaque_over(src: Rgba, dst: Rgba)
    requires
        src.a() == 255,
    ensures
        src.over(dst) == src,
{
    lemma_same_channels(src.over(dst), src);
}

/// Compositing a fully transparent colour leaves the pixel as it was.
pub proof fn lemma_transparent_over(src: Rgba, dst: Rgba)
    requires
        src.a() == 0,
    ensures
        src.over(dst) == dst,
{
    lemma_same_channels(src.over(dst), dst);
}

/// Where `255 * t == 127 * x - rho` with a remainder `rho` of 253 or 254,
/// `x` is 4, 2 or -251, as far as it lies between -251 and 255.
proof fn lemma_near_carry(x: int, t: int, rho: int)
    requires
        -251 <= x <= 255,
        253 <= rho <= 254,
        255 * t == 127 * x - rho,
    ensures
        (x == 4 && rho == 253) || (x == -251 && rho == 253) || (x == 2 && rho == 254),
{
    let m = x - 2 * t;
    assert(x + 2 * rho == 255 * m);
    assert(1 <= m <= 2);
}

/// One channel of two colours of alpha 128, laid over a pixel in both
/// orders: where the channel values differ by at least 4, the colour that
/// is laid last leaves the larger or the smaller value, as it is itself the
/// larger or the smaller.
proof fn lemma_channel_order(low: int, high: int, under: int)
    requires
        0 <= low,
        low + 4 <= high <= 255,
        0 <= under <= 255,
    ensures
        mix(high, mix(low, under, 128), 128) > mix(low, mix(high, under, 128), 128),
{
    let first = 128 * low + 127 * under;
    let second = 128 * high + 127 * under;
    let fa = first / 255;
    let fb = second / 255;
    let rho = first % 255;
    let e = fb - fa;
    let n1 = 128 * high + 127 * fa;
    let n2 = 128 * low + 127 * fb;
    assert(first == 255 * fa + rho && 0 <= rho < 255);
    assert(second == first + 128 * (high - low));
    assert(255 * e <= rho + 128 * (high - low) < 255 * e + 255);
    assert(n1 - n2 == 128 * (high - low) - 127 * e);
    if n1 - n2 >= 255 {
        assert(n1 / 255 > n2 / 255);
    } else {
        assert(high == low + 4 && e == 3 && rho >= 253);
        let t = fa - low;
        assert(255 * t == 127 * (under - low) - rho);
        lemma_near_carry(under - low, t, rho);
        if under - low == 4 {
            assert(fa == low + 1);
            assert(n2 == 255 * low + 508);
            assert(n1 == 255 * low + 639);
        } else if under - low == 2 {
            assert(fa == low);
            assert(n2 == 255 * low + 381);
            assert(n1 == 255 * low + 512);
        } else {
            assert(low == 251 && under == 0 && high == 255);
        }
        assert(n1 / 255 > n2 / 255);
    }
}

/// Whether two colours differ by at least 4 in their red, green or blue
/// channel.
pub open spec fn tell_apart(p: Rgba, q: Rgba) -> bool {
    ||| p.r() + 4 <= q.r() || q.r() + 4 <= p.r()
    ||| p.g() + 4 <= q.g() || q.g() + 4 <= p.g()
    ||| p.b() + 4 <= q.b() || q.b() + 4 <= p.b()
}

/// Compositing depends on the order. Two colours of alpha 128 that differ
/// by at least 4 in some colour channel leave one pixel when the first is
/// laid down before the second and another when it is laid down after it.
/// (Closer colours may or may not: rounding can hide a difference of up to
/// 3.)
pub proof fn lemma_order_matters(first: Rgba, second: Rgba, under: Rgba)
    requires
        first.a() == 128,
        second.a() == 128,
        tell_apart(first, second),
    ensures
        second.over(first.over(under)) != first.over(second.over(under)),
{
    lemma_mix_bounds(first.r(), under.r(), 128);
    lemma_mix_bounds(first.g(), under.g(), 128);
    lemma_mix_bounds(first.b(), under.b(), 128);
    lemma_mix_bounds(second.r(), under.r(), 128);
    lemma_mix_bounds(second.g(), under.g(), 128);
    lemma_mix_bounds(second.b(), under.b(), 128);
    let one = second.over(first.over(under));
    let other = first.over(second.over(under));
    lemma_mix_bounds(second.r(), first.over(under).r(), 128);
    lemma_mix_bounds(second.g(), first.over(under).g(), 128);
    lemma_mix_bounds(second.b(), first.over(under).b(), 128);
    lemma_mix_bounds(first.r(), second.over(under).r(), 128);
    lemma_mix_bounds(first.g(), second.over(under).g(), 128);
    lemma_mix_bounds(first.b(), second.over(under).b(), 128);
    if first.r() + 4 <= second.r() {
        lemma_channel_order(first.r(), second.r(), under.r());
        assert(one.r() != other.r());
    } else if second.r() + 4 <= first.r() {
        lemma_channel_order(second.r(), first.r(), under.r());
        assert(one.r() != other.r());
    } else if first.g() + 4 <= second.g() {
        lemma_channel_order(first.g(), second.g(), under.g());
        assert(one.g() != other.g());
    } else if second.g() + 4 <= first.g() {
        lemma_channel_order(second.g(), first.g(), under.g());
        assert(one.g() != other.g());
    } else if first.b() + 4 <= second.b() {
        lemma_channel_order(first.b(), second.b(), under.b());
        assert(one.b() != other.b());
    } else {
        lemma_channel_order(second.b(), first.b(), under.b());
        assert(one.b() != other.b());
    }
}

/// Two equal colours leave the same pixel in whichever order they are laid
/// down.
pub proof fn lemma_order_of_equals(first: Rgba, second: Rgba, under: Rgba)
    requires
        first == second,
    ensures
        second.over(first.over(under)) == first.over(second.over(under)),
{
}

/// A fully opaque colour laid over itself, at whatever coverage, stays as
/// it is.
pub proof fn lemma_over_itself(color: Rgba, shade: Rgba)
    requires
        color.a() == 255,
        shade.r() == color.r(),
        shade.g() == color.g(),
        shade.b() == color.b(),
    ensures
        shade.over(color) == color,
{
    let a = shade.a();
    assert(forall|c: int| #![trigger mix(c, c, a)] mix(c, c, a) == c) by {
        assert forall|c: int| #![trigger mix(c, c, a)] mix(c, c, a) == c by {
            assert(c * a + c * (255 - a) == 255 * c) by (nonlinear_arith);
        }
    }
    assert(accumulate(a, 255) == 255) by {
        assert(255 * (255 - a) / 255 == 255 - a);
    }
    lemma_same_channels(shade.over(color), color);
}

} // verus!
