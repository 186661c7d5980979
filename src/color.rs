//! Resource colours: hues stepped by the golden ratio conjugate from a
//! seed, turned into RGB. Fractions in `[0, 1)` are held as multiples of
//! 2^-32 in a `u32`.
use vstd::arithmetic::div_mod::{
    lemma_add_mod_noop, lemma_div_is_ordered, lemma_div_multiples_vanish, lemma_mod_multiples_vanish,
    lemma_mul_mod_noop_left,
};
use vstd::prelude::*;

verus! {

/// 2^32: the fraction 1.
pub const ONE: u64 = 0x1_0000_0000;

/// The golden ratio conjugate, 0.6180339887..., as a fraction of 2^32.
pub const GOLDEN_RATIO_CONJUGATE: u32 = 0x9E37_79B9;

/// One half, the saturation and the value of every resource colour.
pub const HALF: u32 = 0x8000_0000;

/// `v * x` with `x` a fraction, truncated.
pub open spec fn scale(v: int, x: int) -> int {
    v * x / (ONE as int)
}

/// An 8-bit channel of a fraction.
pub open spec fn channel(c: int) -> int {
    c * 256 / (ONE as int)
}

pub open spec fn pack(r: int, g: int, b: int) -> int {
    channel(r) * 0x10000 + channel(g) * 0x100 + channel(b)
}

/// The colour of hue `h`, saturation `s` and value `v`, as 0xRRGGBB: the six
/// sectors of the hue circle each blend two of the channels.
pub open spec fn hsv_rgb(h: int, s: int, v: int) -> int {
    let one = ONE as int;
    let sector = h * 6 / one;
    let f = h * 6 % one;
    let p = scale(v, one - s);
    let q = scale(v, one - scale(f, s));
    let t = scale(v, one - scale(one - f, s));
    if sector == 0 {
        pack(v, t, p)
    } else if sector == 1 {
        pack(q, v, p)
    } else if sector == 2 {
        pack(p, v, t)
    } else if sector == 3 {
        pack(p, q, v)
    } else if sector == 4 {
        pack(t, p, v)
    } else {
        pack(v, p, q)
    }
}

proof fn lemma_scale(v: int, x: int)
    requires
        0 <= v <= ONE,
        0 <= x <= ONE,
        v < ONE || x < ONE,
    ensures
        0 <= scale(v, x) <= v,
        v * x < 0x1_0000_0000_0000_0000,
{
    let one = ONE as int;
    assert(0 <= v * x <= v * one && v * x < one * one) by (nonlinear_arith)
        requires 0 <= v <= one, 0 <= x <= one, v < one || x < one;
    lemma_div_is_ordered(v * x, v * one, one);
    lemma_div_multiples_vanish(v, one);
    lemma_div_is_ordered(0, v * x, one);
}

proof fn lemma_channel(c: int)
    requires
        0 <= c < ONE,
    ensures
        0 <= channel(c) < 256,
{
    lemma_div_is_ordered(0, c * 256, ONE as int);
    lemma_div_is_ordered(c * 256, (ONE as int - 1) * 256, ONE as int);
}

fn scale_exec(v: u64, x: u64) -> (r: u64)
    requires
        v <= ONE,
        x <= ONE,
        v < ONE || x < ONE,
    ensures
        r as int == scale(v as int, x as int),
        r <= v,
{
    proof {
        lemma_scale(v as int, x as int);
    }
    v * x / ONE
}

fn pack_exec(r: u64, g: u64, b: u64) -> (res: u32)
    requires
        r < ONE,
        g < ONE,
        b < ONE,
    ensures
        res as int == pack(r as int, g as int, b as int),
{
    proof {
        lemma_channel(r as int);
        lemma_channel(g as int);
        lemma_channel(b as int);
    }
    let cr = r * 256 / ONE;
    let cg = g * 256 / ONE;
    let cb = b * 256 / ONE;
    (cr * 0x10000 + cg * 0x100 + cb) as u32
}

/// Converts a colour from hue, saturation and value, each a fraction of
/// 2^32, to 0xRRGGBB with 8 bits for each channel.
pub fn hsv_to_rgb(h: u32, s: u32, v: u32) -> (r: u32)
    ensures
        r as int == hsv_rgb(h as int, s as int, v as int),
{
    let h6: u64 = h as u64 * 6;
    let sector = h6 / ONE;
    let f = h6 % ONE;
    let v = v as u64;
    let s = s as u64;
    let p = scale_exec(v, ONE - s);
    let q = scale_exec(v, ONE - scale_exec(f, s));
    let t = scale_exec(v, ONE - scale_exec(ONE - f, s));
    if sector == 0 {
        pack_exec(v, t, p)
    } else if sector == 1 {
        pack_exec(q, v, p)
    } else if sector == 2 {
        pack_exec(p, v, t)
    } else if sector == 3 {
        pack_exec(p, q, v)
    } else if sector == 4 {
        pack_exec(t, p, v)
    } else {
        pack_exec(v, p, q)
    }
}

/// The hue of the resource at `index` when the first has hue `seed`.
pub open spec fn hue(seed: int, index: int) -> int {
    (seed + index * GOLDEN_RATIO_CONJUGATE) % (ONE as int)
}

/// The colour shared by the two styles of one resource: filled while a task
/// is closed, outlined while it is open.
#[derive(Clone, Copy, Debug, PartialEq, Eq)]
pub struct ResourceStyle {
    pub resource_index: usize,
    pub rgb: u32,
}

pub open spec fn resource_rgb(seed: int, index: int) -> int {
    hsv_rgb(hue(seed, index), HALF as int, HALF as int)
}

/// One style for each of `count` resources, the first with hue `seed`, each
/// next one a golden ratio conjugate further round the hue circle.
pub fn resource_styles(seed: u32, count: usize) -> (r: Vec<ResourceStyle>)
    ensures
        r.len() == count,
        forall|i: int|
            0 <= i < count ==> (#[trigger] r[i]).resource_index == i && r[i].rgb as int == resource_rgb(
                seed as int,
                i,
            ),
{
    let mut styles: Vec<ResourceStyle> = Vec::new();
    let mut h: u32 = seed;
    let mut i: usize = 0;
    assert(hue(seed as int, 0) == seed) by {
        vstd::arithmetic::div_mod::lemma_small_mod(seed as nat, ONE as nat);
    }
    while i < count
        invariant
            i <= count,
            styles.len() == i,
            h as int == hue(seed as int, i as int),
            forall|j: int|
                0 <= j < i ==> (#[trigger] styles@[j]).resource_index == j && styles@[j].rgb as int
                    == resource_rgb(seed as int, j),
        decreases count - i,
    {
        let rgb = hsv_to_rgb(h, HALF, HALF);
        let ghost old_styles = styles@;
        styles.push(ResourceStyle { resource_index: i, rgb });
        proof {
            assert forall|j: int| 0 <= j < i + 1 implies styles@[j].resource_index == j
                && styles@[j].rgb as int == resource_rgb(seed as int, j) by {
                if j < i {
                    assert(styles@[j] == old_styles[j]);
                }
            }
            let g = GOLDEN_RATIO_CONJUGATE as int;
            lemma_add_mod_noop(seed as int + i * g, g, ONE as int);
            lemma_small_mod_g();
            assert(seed as int + i * g + g == seed as int + (i + 1) * g) by (nonlinear_arith);
        }
        h = ((h as u64 + GOLDEN_RATIO_CONJUGATE as u64) % ONE) as u32;
        i = i + 1;
    }
    styles
}

proof fn lemma_small_mod_g()
    ensures
        GOLDEN_RATIO_CONJUGATE as int % (ONE as int) == GOLDEN_RATIO_CONJUGATE as int,
{
    vstd::arithmetic::div_mod::lemma_small_mod(GOLDEN_RATIO_CONJUGATE as nat, ONE as nat);
}

/// Resources whose indices differ by less than 2^32 never share a hue,
/// whatever the seed.
pub proof fn lemma_hues_distinct(seed: u32, i: nat, j: nat)
    requires
        i < j < ONE,
    ensures
        hue(seed as int, i as int) != hue(seed as int, j as int),
{
    let one = ONE as int;
    let g = GOLDEN_RATIO_CONJUGATE as int;
    let inv: int = 340573321;
    let k: int = j - i;
    let a = seed + i * g;
    assert(seed + j * g == a + k * g) by (nonlinear_arith)
        requires k == j - i, a == seed + i * g;
    if hue(seed as int, i as int) == hue(seed as int, j as int) {
        lemma_add_mod_noop(a, k * g, one);
        lemma_add_mod_noop(a, 0, one);
        vstd::arithmetic::div_mod::lemma_mod_bound(a, one);
        vstd::arithmetic::div_mod::lemma_mod_bound(k * g, one);
        // ((a % one) + (k*g % one)) % one == (a % one) % one forces k*g % one == 0
        assert((k * g) % one == 0) by {
            let x = a % one;
            let y = (k * g) % one;
            vstd::arithmetic::div_mod::lemma_small_mod(x as nat, one as nat);
            if y != 0 {
                if x + y < one {
                    vstd::arithmetic::div_mod::lemma_small_mod((x + y) as nat, one as nat);
                } else {
                    lemma_mod_multiples_vanish(-1, x + y, one);
                    vstd::arithmetic::div_mod::lemma_small_mod((x + y - one) as nat, one as nat);
                }
            }
        }
        lemma_mul_mod_noop_left(k * g, inv, one);
        assert(k * g * inv == k + (k * 210485888) * one) by (nonlinear_arith)
            requires g == 2654435769, inv == 340573321, one == 0x1_0000_0000;
        lemma_mod_multiples_vanish(k * 210485888, k, one);
        vstd::arithmetic::div_mod::lemma_small_mod(k as nat, one as nat);
        assert(0 * inv % one == 0);
    }
}

} // verus!
