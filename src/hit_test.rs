use vstd::prelude::*;

verus! {

/// Where a cursor lies relative to the resize border of a borderless window.
#[derive(Clone, Copy, Debug, PartialEq, Eq, Structural)]
pub enum HitTestResult {
    Client,
    Left,
    Right,
    Top,
    Bottom,
    TopLeft,
    TopRight,
    BottomLeft,
    BottomRight,
    NoWhere,
}

/// A display scale factor, held exactly as `numerator / denominator`.
#[derive(Clone, Copy, Debug, PartialEq, Eq, Structural)]
pub struct ScaleFactor {
    pub numerator: u32,
    pub denominator: u32,
}

impl ScaleFactor {
    pub open spec fn valid(self) -> bool {
        self.numerator > 0 && self.denominator > 0
    }
}

/// Width of the resize border, in logical units before scaling.
pub const BORDER_INSET: i128 = 5;

pub const LEFT: u8 = 1;
pub const RIGHT: u8 = 2;
pub const TOP: u8 = 4;
pub const BOTTOM: u8 = 8;

// With scale s = n / d, the logical window size is the physical size divided
// by s, and the inset is BORDER_INSET * s; the predicates below compare after
// multiplying through by the positive n * d, so they hold exactly.

/// `x < inset`.
pub open spec fn in_low_band(p: int, s: ScaleFactor) -> bool {
    p * s.denominator < BORDER_INSET * s.numerator
}

/// `p >= size / s - inset`.
pub open spec fn in_high_band(size: int, p: int, s: ScaleFactor) -> bool {
    p * s.numerator * s.denominator >= size * s.denominator * s.denominator - BORDER_INSET
        * s.numerator * s.numerator
}

pub open spec fn band_mask(width: u32, height: u32, x: i32, y: i32, s: ScaleFactor) -> u8 {
    ((if in_low_band(x as int, s) { LEFT } else { 0 }) + (if in_high_band(width as int, x as int, s) {
        RIGHT
    } else {
        0
    }) + (if in_low_band(y as int, s) { TOP } else { 0 }) + (if in_high_band(
        height as int,
        y as int,
        s,
    ) {
        BOTTOM
    } else {
        0
    })) as u8
}

/// The result that a combined band mask stands for.
pub open spec fn result_of_mask(mask: u8) -> HitTestResult {
    if mask == 0 {
        HitTestResult::Client
    } else if mask == LEFT {
        HitTestResult::Left
    } else if mask == RIGHT {
        HitTestResult::Right
    } else if mask == TOP {
        HitTestResult::Top
    } else if mask == BOTTOM {
        HitTestResult::Bottom
    } else if mask == TOP + LEFT {
        HitTestResult::TopLeft
    } else if mask == TOP + RIGHT {
        HitTestResult::TopRight
    } else if mask == BOTTOM + LEFT {
        HitTestResult::BottomLeft
    } else if mask == BOTTOM + RIGHT {
        HitTestResult::BottomRight
    } else {
        HitTestResult::NoWhere
    }
}

pub open spec fn hit(width: u32, height: u32, x: i32, y: i32, s: ScaleFactor) -> HitTestResult {
    result_of_mask(band_mask(width, height, x, y, s))
}

proof fn lemma_product_bound(a: int, b: int, ma: int, mb: int)
    requires
        -ma <= a <= ma,
        0 <= b <= mb,
    ensures
        -(ma * mb) <= a * b <= ma * mb,
{
    assert(-(ma * mb) <= a * b <= ma * mb) by (nonlinear_arith)
        requires
            -ma <= a <= ma,
            0 <= b <= mb,
    ;
}

fn low_band(p: i32, s: ScaleFactor) -> (r: bool)
    requires
        s.valid(),
    ensures
        r == in_low_band(p as int, s),
{
    proof {
        lemma_product_bound(p as int, s.denominator as int, 0x8000_0000, 0xffff_ffff);
    }
    (p as i128) * (s.denominator as i128) < BORDER_INSET * (s.numerator as i128)
}

fn high_band(size: u32, p: i32, s: ScaleFactor) -> (r: bool)
    requires
        s.valid(),
    ensures
        r == in_high_band(size as int, p as int, s),
{
    let n = s.numerator as i128;
    let d = s.denominator as i128;
    let pv = p as i128;
    let sz = size as i128;
    proof {
        let m: int = 0xffff_ffff;
        lemma_product_bound(pv as int, n as int, 0x8000_0000, m);
        lemma_product_bound((pv * n) as int, d as int, 0x8000_0000 * m, m);
        lemma_product_bound(sz as int, d as int, m, m);
        lemma_product_bound((sz * d) as int, d as int, m * m, m);
        lemma_product_bound(n as int, n as int, m, m);
        lemma_product_bound(5, n as int, 5, m);
        lemma_product_bound((5 * n) as int, n as int, 5 * m, m);
    }
    pv * n * d >= sz * d * d - BORDER_INSET * n * n
}

/// Classifies the cursor position `(x, y)`, in logical units, against the
/// resize border of a window whose physical size is `width` by `height`.
pub fn hit_test(width: u32, height: u32, x: i32, y: i32, scale: ScaleFactor) -> (r: HitTestResult)
    requires
        scale.valid(),
    ensures
        r == hit(width, height, x, y, scale),
{
    let left = if low_band(x, scale) { LEFT } else { 0 };
    let right = if high_band(width, x, scale) { RIGHT } else { 0 };
    let top = if low_band(y, scale) { TOP } else { 0 };
    let bottom = if high_band(height, y, scale) { BOTTOM } else { 0 };
    let mask: u8 = left + right + top + bottom;
    if mask == 0 {
        HitTestResult::Client
    } else if mask == LEFT {
        HitTestResult::Left
    } else if mask == RIGHT {
        HitTestResult::Right
    } else if mask == TOP {
        HitTestResult::Top
    } else if mask == BOTTOM {
        HitTestResult::Bottom
    } else if mask == TOP + LEFT {
        HitTestResult::TopLeft
    } else if mask == TOP + RIGHT {
        HitTestResult::TopRight
    } else if mask == BOTTOM + LEFT {
        HitTestResult::BottomLeft
    } else if mask == BOTTOM + RIGHT {
        HitTestResult::BottomRight
    } else {
        HitTestResult::NoWhere
    }
}

/// A cursor that lies in the border band of exactly one edge gets that edge,
/// one in the bands of a horizontal and a vertical edge gets their corner,
/// and one in no band is in the client area. Where the window is so small
/// that the bands of opposite edges overlap, nothing is claimed.
pub proof fn lemma_hit_test_bands(width: u32, height: u32, x: i32, y: i32, s: ScaleFactor)
    requires
        s.valid(),
        !(in_low_band(x as int, s) && in_high_band(width as int, x as int, s)),
        !(in_low_band(y as int, s) && in_high_band(height as int, y as int, s)),
    ensures
        ({
            let l = in_low_band(x as int, s);
            let r = in_high_band(width as int, x as int, s);
            let t = in_low_band(y as int, s);
            let b = in_high_band(height as int, y as int, s);
            let res = hit(width, height, x, y, s);
            &&& (!l && !r && !t && !b ==> res == HitTestResult::Client)
            &&& (l && !t && !b ==> res == HitTestResult::Left)
            &&& (r && !t && !b ==> res == HitTestResult::Right)
            &&& (t && !l && !r ==> res == HitTestResult::Top)
            &&& (b && !l && !r ==> res == HitTestResult::Bottom)
            &&& (t && l ==> res == HitTestResult::TopLeft)
            &&& (t && r ==> res == HitTestResult::TopRight)
            &&& (b && l ==> res == HitTestResult::BottomLeft)
            &&& (b && r ==> res == HitTestResult::BottomRight)
        }),
{
}

} // verus!
