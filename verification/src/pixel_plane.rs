//! The pixel grid of a window or an image, and its aspect ratio in lowest terms.

use vstd::arithmetic::div_mod::{lemma_fundamental_div_mod, lemma_mod_multiples_basic};
use vstd::prelude::*;

verus! {

/// Whether `g` is the greatest common divisor of `a` and `b`: the largest
/// number that divides both, and 0 when both are 0.
pub open spec fn is_greatest_common_divisor(a: nat, b: nat, g: nat) -> bool {
    if a == 0 && b == 0 {
        g == 0
    } else {
        &&& g > 0
        &&& a % g == 0
        &&& b % g == 0
        &&& forall|d: nat| d > 0 && #[trigger] (a % d) == 0 && b % d == 0 ==> d <= g
    }
}

/// Whether `ratio_width : ratio_height` is the proportion `width : height`
/// written in lowest terms.
pub open spec fn is_aspect_ratio(ratio_width: nat, ratio_height: nat, width: nat, height: nat) -> bool {
    &&& ratio_width * height == ratio_height * width
    &&& is_greatest_common_divisor(ratio_width, ratio_height, 1)
}

/// `num::integer::gcd` on `usize`: the result is the greatest common divisor
/// of the two arguments, 0 when both are 0.
#[verifier::external_body]
fn greatest_common_divisor(a: usize, b: usize) -> (g: usize)
    ensures
        is_greatest_common_divisor(a as nat, b as nat, g as nat),
{
    num::integer::gcd(a, b)
}

/// A multiple of `g` whose quotient by `g` is a multiple of `d` is a multiple of `d * g`.
proof fn lemma_divisor_of_quotient(n: nat, g: nat, d: nat)
    requires
        g > 0,
        d > 0,
        n % g == 0,
        (n / g) % d == 0,
    ensures
        d * g > 0,
        n % (d * g) == 0,
{
    let q = n / g;
    let k = q / d;
    lemma_fundamental_div_mod(n as int, g as int);
    lemma_fundamental_div_mod(q as int, d as int);
    assert(d * g > 0) by (nonlinear_arith)
        requires
            d > 0,
            g > 0,
    ;
    assert(n == k * (d * g)) by (nonlinear_arith)
        requires
            n == g * q,
            q == d * k,
    ;
    lemma_mod_multiples_basic(k as int, (d * g) as int);
}

/// Dividing two numbers by their greatest common divisor leaves their
/// proportion in lowest terms.
pub proof fn lemma_quotients_are_aspect_ratio(width: nat, height: nat, g: nat)
    requires
        width > 0 || height > 0,
        is_greatest_common_divisor(width, height, g),
    ensures
        is_aspect_ratio(width / g, height / g, width, height),
{
    let rw = width / g;
    let rh = height / g;
    lemma_fundamental_div_mod(width as int, g as int);
    lemma_fundamental_div_mod(height as int, g as int);
    assert(rw * height == rh * width) by (nonlinear_arith)
        requires
            width == g * rw,
            height == g * rh,
    ;
    assert(rw > 0 || rh > 0) by (nonlinear_arith)
        requires
            width == g * rw,
            height == g * rh,
            width > 0 || height > 0,
    ;
    assert forall|d: nat| d > 0 && #[trigger] (rw % d) == 0 && rh % d == 0 implies d <= 1 by {
        lemma_divisor_of_quotient(width, g, d);
        lemma_divisor_of_quotient(height, g, d);
        assert(d * g <= g);
        assert(d <= 1) by (nonlinear_arith)
            requires
                d * g <= g,
                g > 0,
        ;
    }
}

/// The size of a pixel grid, with its aspect ratio in lowest terms.
#[derive(Clone, Copy, Debug, PartialEq, Eq, Structural)]
pub struct PixelPlane {
    pub width: usize,
    pub height: usize,
    pub aspect_ratio_width: usize,
    pub aspect_ratio_height: usize,
}

impl PixelPlane {
    /// A plane of `width` by `height` pixels, of which at least one is not 0.
    pub fn new(width: usize, height: usize) -> (plane: PixelPlane)
        requires
            width > 0 || height > 0,
        ensures
            plane.width == width,
            plane.height == height,
            is_aspect_ratio(
                plane.aspect_ratio_width as nat,
                plane.aspect_ratio_height as nat,
                width as nat,
                height as nat,
            ),
    {
        let gcd = greatest_common_divisor(width, height);
        proof {
            lemma_quotients_are_aspect_ratio(width as nat, height as nat, gcd as nat);
        }
        PixelPlane { width, height, aspect_ratio_width: width / gcd, aspect_ratio_height: height / gcd }
    }
}

} // verus!
