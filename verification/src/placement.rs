//! Random placement of a popup so that every pixel of every screen is
//! equally likely to be covered.
use bevy_rand::prelude::WyRand;
use rand::RngExt;
use vstd::prelude::*;

verus! {

/// The random number generator the overlay draws from.
#[verifier::external_type_specification]
#[verifier::external_body]
pub struct ExWyRand(WyRand);

/// A number drawn uniformly from `0..bound`: calls `RngExt::random_range`
/// with a `RangeTo`, which the `rand` documentation promises to return a
/// value in the range (it panics only on an empty range, excluded here).
#[verifier::external_body]
fn random_below(rng: &mut WyRand, bound: u64) -> (r: u64)
    requires
        bound > 0,
    ensures
        r < bound,
{
    rng.random_range(..bound)
}

/// A number drawn uniformly from `low..=high`: calls `RngExt::random_range`
/// with a `RangeInclusive`, documented to return a value in the range (it
/// panics only on an empty range, excluded here).
#[verifier::external_body]
fn random_between(rng: &mut WyRand, low: u64, high: u64) -> (r: u64)
    requires
        low <= high,
    ensures
        low <= r <= high,
{
    rng.random_range(low..=high)
}

/// Pixel rectangle of a screen in the global pixel space.
#[derive(Clone, Copy, Debug, PartialEq, Eq)]
pub struct ScreenPixels {
    pub min_x: i32,
    pub min_y: i32,
    pub width: u32,
    pub height: u32,
}

/// Number of pixels of a screen.
pub open spec fn area(s: ScreenPixels) -> nat {
    (s.width as nat) * (s.height as nat)
}

/// Number of pixels of all screens.
pub open spec fn total_area(screens: Seq<ScreenPixels>) -> nat
    decreases screens.len(),
{
    if screens.len() == 0 {
        0
    } else {
        total_area(screens.drop_last()) + area(screens.last())
    }
}

/// Where the drawn pixel number lands: the screen, the remainder of the
/// number on it, and the image size clipped on the way to 0 in each axis
/// where some screen up to this one is smaller than the image.
pub struct PickModel {
    pub index: int,
    pub rem: int,
    pub image_x: int,
    pub image_y: int,
}

/// Walks the screens from `i` with the pixel number `r` and image size
/// `(ix, iy)`: a screen with fewer pixels than `r` is skipped and its pixels
/// subtracted; the first other one is picked.
pub open spec fn spec_pick_from(screens: Seq<ScreenPixels>, i: int, ix: int, iy: int, r: int) -> Option<PickModel>
    decreases screens.len() - i,
{
    if i < 0 || i >= screens.len() {
        None
    } else {
        let s = screens[i];
        let ix2 = if ix > s.width { 0 } else { ix };
        let iy2 = if iy > s.height { 0 } else { iy };
        if area(s) < r {
            spec_pick_from(screens, i + 1, ix2, iy2, r - area(s))
        } else {
            Some(PickModel { index: i, rem: r, image_x: ix2, image_y: iy2 })
        }
    }
}

/// The pick for pixel number `r` and an image of `image` pixels.
pub open spec fn spec_pick(screens: Seq<ScreenPixels>, image: (u64, u64), r: int) -> Option<PickModel> {
    spec_pick_from(screens, 0, image.0 as int, image.1 as int, r)
}

/// The picked screen, its pixel column range and row range (both inclusive)
/// for the image's top-left corner, and the clipped image size.
#[derive(Clone, Copy, Debug, PartialEq, Eq)]
pub struct PixelPick {
    pub screen: usize,
    pub x_low: u64,
    pub x_high: u64,
    pub y_low: u64,
    pub y_high: u64,
    pub image_x: u64,
    pub image_y: u64,
}

pub open spec fn sat_sub(a: int, b: int) -> int {
    if a >= b { a - b } else { 0 }
}

pub open spec fn min_of(a: int, b: int) -> int {
    if a <= b { a } else { b }
}

/// The pixel pick a pick model gives: the pixel `(rem / height, rem % height)`
/// and every corner within one image size before it that keeps the image on
/// the screen.
pub open spec fn pick_matches(screens: Seq<ScreenPixels>, m: PickModel, p: PixelPick) -> bool {
    let s = screens[m.index];
    let x = m.rem / (s.height as int);
    let y = m.rem % (s.height as int);
    &&& p.screen == m.index
    &&& p.image_x == m.image_x
    &&& p.image_y == m.image_y
    &&& p.x_low == sat_sub(x, m.image_x)
    &&& p.x_high == min_of(s.width - m.image_x, x)
    &&& p.y_low == sat_sub(y, m.image_y)
    &&& p.y_high == min_of(s.height - m.image_y, y)
}

/// The pick model lands on a screen with rows, so the pixel can be computed.
pub open spec fn pick_defined(screens: Seq<ScreenPixels>, image: (u64, u64), r: int) -> bool {
    spec_pick(screens, image, r) matches Some(m) ==> screens[m.index].height > 0
}

/// Picks the screen and the corner ranges for pixel number `r`; `None` when
/// `r` is beyond all screens.
pub fn pick_pixel_ranges(screens: &Vec<ScreenPixels>, image: (u64, u64), r: u64) -> (res: Option<PixelPick>)
    requires
        pick_defined(screens@, image, r as int),
    ensures
        match spec_pick(screens@, image, r as int) {
            None => res is None,
            Some(m) => res matches Some(p) && pick_matches(screens@, m, p),
        },
{
    let mut ix = image.0;
    let mut iy = image.1;
    let mut rand = r;
    let mut i: usize = 0;
    while i < screens.len()
        invariant
            i <= screens@.len(),
            pick_defined(screens@, image, r as int),
            spec_pick(screens@, image, r as int) == spec_pick_from(screens@, i as int, ix as int, iy as int, rand as int),
        decreases screens@.len() - i,
    {
        let s = screens[i];
        let w = s.width as u64;
        let h = s.height as u64;
        if ix > w {
            ix = 0;
        }
        if iy > h {
            iy = 0;
        }
        assert(w * h <= u64::MAX) by (nonlinear_arith)
            requires w <= 0xffff_ffff, h <= 0xffff_ffff;
        let size = w * h;
        assert(size == area(s)) by (nonlinear_arith)
            requires size == w * h, w == s.width, h == s.height;
        if size < rand {
            rand = rand - size;
            i += 1;
        } else {
            let x = rand / h;
            let y = rand % h;
            let x_low = if x >= ix { x - ix } else { 0 };
            let x_high = if w - ix < x { w - ix } else { x };
            let y_low = if y >= iy { y - iy } else { 0 };
            let y_high = if h - iy < y { h - iy } else { y };
            return Some(PixelPick { screen: i, x_low, x_high, y_low, y_high, image_x: ix, image_y: iy });
        }
    }
    None
}

/// Center pixel of an image of the pick's clipped size whose top-left corner
/// is at column `x` and row `y` of the picked screen.
pub open spec fn spec_center(s: ScreenPixels, p: PixelPick, x: u64, y: u64) -> (int, int) {
    (x + s.min_x + p.image_x / 2, y + s.min_y + p.image_y / 2)
}

/// Global center pixel of the image placed at column `x` and row `y` of the
/// picked screen.
pub fn pixel_center(screen: &ScreenPixels, pick: &PixelPick, x: u64, y: u64) -> (c: (i64, i64))
    requires
        x <= screen.width,
        y <= screen.height,
        pick.image_x <= screen.width,
        pick.image_y <= screen.height,
    ensures
        c.0 == spec_center(*screen, *pick, x, y).0,
        c.1 == spec_center(*screen, *pick, x, y).1,
        c.0 - pick.image_x / 2 == x + screen.min_x,
        c.1 - pick.image_y / 2 == y + screen.min_y,
{
    let cx = x as i64 + screen.min_x as i64 + (pick.image_x / 2) as i64;
    let cy = y as i64 + screen.min_y as i64 + (pick.image_y / 2) as i64;
    (cx, cy)
}

/// Sum of the screens' pixel counts, `None` when it exceeds `u64`.
pub fn total_pixels(screens: &Vec<ScreenPixels>) -> (res: Option<u64>)
    ensures
        match res {
            Some(t) => t == total_area(screens@),
            None => total_area(screens@) > u64::MAX,
        },
{
    let mut total: u64 = 0;
    let mut i: usize = 0;
    while i < screens.len()
        invariant
            i <= screens@.len(),
            total == total_area(screens@.take(i as int)),
        decreases screens@.len() - i,
    {
        proof {
            assert(screens@.take(i + 1).drop_last() =~= screens@.take(i as int));
        }
        let s = screens[i];
        let w = s.width as u64;
        let h = s.height as u64;
        assert(w * h <= u64::MAX) by (nonlinear_arith)
            requires w <= 0xffff_ffff, h <= 0xffff_ffff;
        let size = w * h;
        assert(size == area(s)) by (nonlinear_arith)
            requires size == w * h, w == s.width, h == s.height;
        if total > u64::MAX - size {
            proof {
                lemma_total_area_prefix(screens@, i + 1);
            }
            return None;
        }
        total = total + size;
        i += 1;
    }
    proof {
        assert(screens@.take(screens@.len() as int) =~= screens@);
    }
    Some(total)
}

/// The pixel count of a prefix is at most the whole.
pub proof fn lemma_total_area_prefix(screens: Seq<ScreenPixels>, n: int)
    requires
        0 <= n <= screens.len(),
    ensures
        total_area(screens.take(n)) <= total_area(screens),
    decreases screens.len() - n,
{
    if n < screens.len() {
        lemma_total_area_prefix(screens, n + 1);
        assert(screens.take(n + 1).drop_last() =~= screens.take(n));
    } else {
        assert(screens.take(n) =~= screens);
    }
}

/// Pixels of the screens from `i` on.
pub open spec fn suffix_area(screens: Seq<ScreenPixels>, i: int) -> nat
    decreases screens.len() - i,
{
    if i < 0 || i >= screens.len() {
        0
    } else {
        area(screens[i]) + suffix_area(screens, i + 1)
    }
}

/// Pixels before `n` and from `n` on make up all pixels.
pub proof fn lemma_area_split(screens: Seq<ScreenPixels>, n: int)
    requires
        0 <= n <= screens.len(),
    ensures
        total_area(screens.take(n)) + suffix_area(screens, n) == total_area(screens),
    decreases screens.len() - n,
{
    if n == screens.len() {
        assert(screens.take(n) =~= screens);
    } else {
        lemma_area_split(screens, n + 1);
        assert(screens.take(n + 1).drop_last() =~= screens.take(n));
        assert(screens.take(n + 1).last() == screens[n]);
    }
}

/// A screen with a pixel has rows.
pub proof fn lemma_area_positive(s: ScreenPixels)
    requires
        area(s) > 0,
    ensures
        s.height > 0,
        s.width > 0,
{
    if s.height == 0 {
        assert((s.width as nat) * 0 == 0) by (nonlinear_arith);
    }
    if s.width == 0 {
        assert(0 * (s.height as nat) == 0) by (nonlinear_arith);
    }
}

/// What holds of every pick: the clipped image fits the picked screen, and the
/// remainder is one of its pixels (or just past the last one).
pub proof fn lemma_pick_bounds(screens: Seq<ScreenPixels>, i: int, ix: int, iy: int, r: int)
    requires
        0 <= ix,
        0 <= iy,
        0 <= r,
    ensures
        spec_pick_from(screens, i, ix, iy, r) matches Some(m) ==> {
            &&& 0 <= m.index < screens.len()
            &&& 0 <= m.image_x <= screens[m.index].width
            &&& 0 <= m.image_y <= screens[m.index].height
            &&& 0 <= m.rem <= area(screens[m.index])
            &&& (r > 0 ==> m.rem > 0)
        },
        r < suffix_area(screens, i) && 0 <= i ==> spec_pick_from(screens, i, ix, iy, r) is Some,
    decreases screens.len() - i,
{
    if 0 <= i < screens.len() {
        let sc = screens[i];
        let ix2 = if ix > sc.width { 0 } else { ix };
        let iy2 = if iy > sc.height { 0 } else { iy };
        if area(sc) < r {
            lemma_pick_bounds(screens, i + 1, ix2, iy2, r - area(sc));
        }
    }
}

/// Every pixel number below the total lands on a screen, and, unless it is 0
/// and the first screen has no rows, on a screen with rows.
pub proof fn lemma_pick_total(screens: Seq<ScreenPixels>, image: (u64, u64), r: int)
    requires
        0 <= r < total_area(screens),
        screens.len() > 0,
        r > 0 || screens[0].height > 0,
    ensures
        spec_pick(screens, image, r) is Some,
        pick_defined(screens, image, r),
{
    lemma_area_split(screens, 0);
    assert(screens.take(0) =~= Seq::<ScreenPixels>::empty());
    lemma_pick_bounds(screens, 0, image.0 as int, image.1 as int, r);
    let m = spec_pick(screens, image, r)->0;
    if r > 0 {
        lemma_area_positive(screens[m.index]);
    }
    if m.index > 0 {
        let sc = screens[0];
        let ix2 = if image.0 > sc.width { 0 } else { image.0 as int };
        let iy2 = if image.1 > sc.height { 0 } else { image.1 as int };
        assert(area(sc) < r);
        lemma_pick_bounds(screens, 1, ix2, iy2, r - area(sc));
        lemma_area_positive(screens[m.index]);
    }
}

/// Law of the placement: the image placed with its top-left corner anywhere
/// in the picked ranges stays on the picked screen and covers the drawn pixel.
pub proof fn lemma_placement_covers_pixel(
    screens: Seq<ScreenPixels>,
    image: (u64, u64),
    r: int,
    p: PixelPick,
    x: int,
    y: int,
)
    requires
        0 <= r,
        pick_defined(screens, image, r),
        spec_pick(screens, image, r) matches Some(m) && pick_matches(screens, m, p),
        p.x_low <= x <= p.x_high,
        p.y_low <= y <= p.y_high,
    ensures
        0 <= x && x + p.image_x <= screens[p.screen as int].width,
        0 <= y && y + p.image_y <= screens[p.screen as int].height,
        ({
            let m = spec_pick(screens, image, r)->0;
            let h = screens[m.index].height as int;
            &&& x <= m.rem / h <= x + p.image_x
            &&& y <= m.rem % h <= y + p.image_y
        }),
{
    lemma_pick_bounds(screens, 0, image.0 as int, image.1 as int, r);
}

/// The pick ranges are never empty and stay on the screen.
pub proof fn lemma_ranges_nonempty(screens: Seq<ScreenPixels>, image: (u64, u64), r: int, p: PixelPick)
    requires
        0 <= r,
        pick_defined(screens, image, r),
        spec_pick(screens, image, r) matches Some(m) && pick_matches(screens, m, p),
    ensures
        p.x_low <= p.x_high <= screens[p.screen as int].width,
        p.y_low <= p.y_high <= screens[p.screen as int].height,
        p.image_x <= screens[p.screen as int].width,
        p.image_y <= screens[p.screen as int].height,
        p.screen < screens.len(),
{
    lemma_pick_bounds(screens, 0, image.0 as int, image.1 as int, r);
    let m = spec_pick(screens, image, r)->0;
    let sc = screens[m.index];
    let w = sc.width as int;
    let h = sc.height as int;
    assert(m.rem / h <= w) by (nonlinear_arith)
        requires 0 <= m.rem <= w * h, h > 0, w >= 0;
    assert(0 <= m.rem / h) by (nonlinear_arith)
        requires 0 <= m.rem, h > 0;
    assert(0 <= m.rem % h < h) by (nonlinear_arith)
        requires h > 0;
}

/// The center pixel of a popup of `image` pixels placed at random: a pixel
/// number is drawn below the total pixel count, its screen and corner ranges
/// picked, and the corner drawn within them.
pub open spec fn placement_outcome(
    screens: Seq<ScreenPixels>,
    image: (u64, u64),
    r: int,
    x: u64,
    y: u64,
    c: (i64, i64),
) -> bool {
    &&& 0 <= r < total_area(screens)
    &&& pick_defined(screens, image, r)
    &&& spec_pick(screens, image, r) matches Some(m)
    &&& exists|p: PixelPick| {
        &&& #[trigger] pick_matches(screens, m, p)
        &&& p.x_low <= x <= p.x_high
        &&& p.y_low <= y <= p.y_high
        &&& c.0 == spec_center(screens[p.screen as int], p, x, y).0
        &&& c.1 == spec_center(screens[p.screen as int], p, x, y).1
    }
}

/// Places a popup of `image` pixels at random on the screens, every screen
/// pixel equally likely to be covered, and returns its global center pixel.
/// Whatever the generator gives, the result is the center for some drawn
/// pixel number and corner within the picked ranges. The one draw whose pixel
/// cannot be computed, 0 on a first screen without rows, gives `None`.
pub fn place_at_random_position(rng: &mut WyRand, screens: &Vec<ScreenPixels>, image: (u64, u64)) -> (res: Option<(i64, i64)>)
    requires
        0 < total_area(screens@) <= u64::MAX,
    ensures
        res matches Some(c) ==> exists|r: int, x: u64, y: u64| #[trigger] placement_outcome(screens@, image, r, x, y, c),
        res is None ==> screens@[0].height == 0,
        screens@[0].height > 0 ==> res is Some,
{
    let total = match total_pixels(screens) {
        Some(t) => t,
        None => {
            proof {
                assert(false);
            }
            0
        },
    };
    proof {
        assert(screens@.len() > 0) by {
            if screens@.len() == 0 {
                assert(total_area(screens@) == 0);
            }
        }
    }
    let r = random_below(rng, total);
    if r == 0 && screens[0].height == 0 {
        return None;
    }
    proof {
        lemma_pick_total(screens@, image, r as int);
    }
    let pick = match pick_pixel_ranges(screens, image, r) {
        Some(p) => p,
        None => {
            proof {
                assert(false);
            }
            PixelPick { screen: 0, x_low: 0, x_high: 0, y_low: 0, y_high: 0, image_x: 0, image_y: 0 }
        },
    };
    proof {
        lemma_ranges_nonempty(screens@, image, r as int, pick);
    }
    let x = random_between(rng, pick.x_low, pick.x_high);
    let y = random_between(rng, pick.y_low, pick.y_high);
    let c = pixel_center(&screens[pick.screen], &pick, x, y);
    proof {
        let m = spec_pick(screens@, image, r as int)->0;
        assert(pick_matches(screens@, m, pick));
        assert(placement_outcome(screens@, image, r as int, x, y, c));
    }
    let res = Some(c);
    proof {
        let c2 = res->0;
        assert(c2 == c);
        assert(placement_outcome(screens@, image, r as int, x, y, c2));
    }
    res
}

/// Law of the placement: the image of the pick's clipped size centred at
/// the placed centre has its top-left corner at the chosen corner of the
/// picked screen, lies wholly on that screen, and covers the drawn pixel.
pub proof fn lemma_centred_image_covers_pixel(
    screens: Seq<ScreenPixels>,
    image: (u64, u64),
    r: int,
    p: PixelPick,
    x: u64,
    y: u64,
)
    requires
        0 <= r,
        pick_defined(screens, image, r),
        spec_pick(screens, image, r) matches Some(m) && pick_matches(screens, m, p),
        p.x_low <= x <= p.x_high,
        p.y_low <= y <= p.y_high,
    ensures
        ({
            let s = screens[p.screen as int];
            let c = spec_center(s, p, x, y);
            let left = c.0 - p.image_x / 2;
            let top = c.1 - p.image_y / 2;
            let m = spec_pick(screens, image, r)->0;
            let h = s.height as int;
            &&& left == x + s.min_x
            &&& top == y + s.min_y
            &&& s.min_x <= left && left + p.image_x <= s.min_x + s.width
            &&& s.min_y <= top && top + p.image_y <= s.min_y + s.height
            &&& left <= s.min_x + m.rem / h <= left + p.image_x
            &&& top <= s.min_y + m.rem % h <= top + p.image_y
        }),
{
    lemma_placement_covers_pixel(screens, image, r, p, x as int, y as int);
}

} // verus!
