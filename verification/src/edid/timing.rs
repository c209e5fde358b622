//! CVT reduced-blanking (version 1) timing computation.
//!
//! The mode is derived from the VESA CVT 1.2 reduced-blanking rules with
//! exact integer arithmetic: 460 µs minimum vertical blanking, a fixed
//! 160-pixel horizontal blank (48 front porch, 32 sync, 80 back porch),
//! a 3-line vertical front porch, a 6-line minimum back porch, a vsync
//! width chosen from the aspect ratio, and a pixel clock rounded down to
//! a 250 kHz step.

use vstd::prelude::*;
use crate::error::Error;
use crate::text::{decimal, owned, push_decimal, push_str};

verus! {

/// Horizontal/vertical timing of one display mode, in pixels and lines.
#[derive(Clone, Copy, Debug, PartialEq, Eq)]
pub struct Timing {
    pub h_active: u32,
    pub h_front_porch: u32,
    pub h_sync_width: u32,
    pub h_back_porch: u32,
    pub v_active: u32,
    pub v_front_porch: u32,
    pub v_sync_width: u32,
    pub v_back_porch: u32,
    pub pixel_clock_khz: u32,
    pub h_sync_positive: bool,
    pub v_sync_positive: bool,
}

impl Timing {
    pub open spec fn spec_h_total(&self) -> int {
        self.h_active + self.h_front_porch + self.h_sync_width + self.h_back_porch
    }

    pub open spec fn spec_v_total(&self) -> int {
        self.v_active + self.v_front_porch + self.v_sync_width + self.v_back_porch
    }

    /// Total pixels per line (active plus blanking).
    pub fn h_total(&self) -> (r: u32)
        requires
            self.spec_h_total() <= u32::MAX,
        ensures
            r == self.spec_h_total(),
    {
        self.h_active + self.h_front_porch + self.h_sync_width + self.h_back_porch
    }

    /// Total lines per frame (active plus blanking).
    pub fn v_total(&self) -> (r: u32)
        requires
            self.spec_v_total() <= u32::MAX,
        ensures
            r == self.spec_v_total(),
    {
        self.v_active + self.v_front_porch + self.v_sync_width + self.v_back_porch
    }
}

/// Largest pixel clock an EDID 1.4 detailed timing descriptor can carry.
pub const DTD_MAX_PIXEL_CLOCK_KHZ: u32 = 655_350;

/// Inputs accepted by [`cvt_rb_v1`] before any timing is computed.
pub open spec fn dimensions_supported(width: u32, height: u32) -> bool {
    200 <= width <= 8192 && 200 <= height <= 8192
}

pub open spec fn refresh_supported(refresh_hz: u32) -> bool {
    24 <= refresh_hz <= 240
}

/// Vertical sync width in lines, chosen by the CVT aspect-ratio table.
pub open spec fn cvt_vsync_lines(width: int, height: int) -> int {
    if height % 3 == 0 && height * 4 / 3 == width {
        4
    } else if height % 9 == 0 && height * 16 / 9 == width {
        5
    } else if height % 10 == 0 && height * 16 / 10 == width {
        6
    } else if height % 4 == 0 && height * 5 / 4 == width {
        7
    } else if height % 9 == 0 && height * 15 / 9 == width {
        7
    } else {
        10
    }
}

/// `1e6 - 460 * refresh`: the active part of one frame in µs, times the refresh rate.
pub open spec fn rb_active_budget(refresh: int) -> int {
    1_000_000 - 460 * refresh
}

/// Active width rounded down to the 8-pixel character cell.
pub open spec fn cvt_h_active(width: int) -> int {
    width - width % 8
}

/// Vertical blanking lines: enough lines for 460 µs plus one, and never
/// fewer than front porch + sync + minimum back porch.
pub open spec fn cvt_rb_vblank_lines(width: int, height: int, refresh: int) -> int {
    let by_time = 460 * refresh * height / rb_active_budget(refresh) + 1;
    let minimum = 3 + cvt_vsync_lines(width, height) + 6;
    if by_time < minimum { minimum } else { by_time }
}

/// Pixel clock in kHz: total pixels per line over the line period, rounded
/// down to a multiple of 250 kHz.
pub open spec fn cvt_rb_pixel_clock(width: int, height: int, refresh: int) -> int {
    let h_total = cvt_h_active(width) + 160;
    let raw = h_total * 1000 * refresh * height / rb_active_budget(refresh);
    raw - raw % 250
}

/// The CVT-RB v1 timing for a supported width, height and refresh.
pub open spec fn cvt_rb_timing(width: u32, height: u32, refresh: u32) -> Timing {
    let vsync = cvt_vsync_lines(width as int, height as int);
    let vblank = cvt_rb_vblank_lines(width as int, height as int, refresh as int);
    Timing {
        h_active: cvt_h_active(width as int) as u32,
        h_front_porch: 48,
        h_sync_width: 32,
        h_back_porch: 80,
        v_active: height,
        v_front_porch: 3,
        v_sync_width: vsync as u32,
        v_back_porch: (vblank - 3 - vsync) as u32,
        pixel_clock_khz: cvt_rb_pixel_clock(width as int, height as int, refresh as int) as u32,
        h_sync_positive: true,
        v_sync_positive: false,
    }
}

/// Why [`cvt_rb_v1`] refuses these inputs (meaningful when it does).
pub open spec fn cvt_rejection_reason(width: u32, height: u32, refresh: u32) -> Seq<char> {
    if !dimensions_supported(width, height) {
        "dimensions out of supported range (200..=8192)"@
    } else if !refresh_supported(refresh) {
        "refresh out of supported range (24..=240 Hz)"@
    } else {
        "pixel clock "@ + decimal(cvt_rb_pixel_clock(width as int, height as int, refresh as int) as nat)
            + " kHz exceeds EDID 1.4 DTD limit of 655350 kHz (would need a CTA-861 extension block; deferred till later)"@
    }
}

/// True iff [`cvt_rb_v1`] produces a timing for these inputs.
pub open spec fn cvt_accepts(width: u32, height: u32, refresh: u32) -> bool {
    dimensions_supported(width, height) && refresh_supported(refresh)
        && cvt_rb_pixel_clock(width as int, height as int, refresh as int) <= DTD_MAX_PIXEL_CLOCK_KHZ
}

proof fn lemma_cvt_bounds(width: u32, height: u32, refresh: u32)
    requires
        dimensions_supported(width, height),
        refresh_supported(refresh),
    ensures
        889_600 <= rb_active_budget(refresh as int) <= 988_960,
        0 <= 460 * refresh * height <= 460 * 240 * 8192,
        0 <= (cvt_h_active(width as int) + 160) * 1000 * refresh <= 8352 * 1000 * 240,
        0 <= (cvt_h_active(width as int) + 160) * 1000 * refresh * height <= 8352 * 1000 * 240 * 8192,
        0 <= 460 * refresh * height / rb_active_budget(refresh as int) < 1100,
        0 <= cvt_rb_pixel_clock(width as int, height as int, refresh as int) < 20_000_000,
        4 <= cvt_vsync_lines(width as int, height as int) <= 10,
        192 <= cvt_h_active(width as int) <= 8192,
{
    let h_active = cvt_h_active(width as int);
    assert(0 <= 460 * refresh * height <= 460 * 240 * 8192) by (nonlinear_arith)
        requires refresh <= 240, height <= 8192;
    assert(0 <= (h_active + 160) * 1000 * refresh <= 8352 * 1000 * 240) by (nonlinear_arith)
        requires 0 <= h_active <= 8192, refresh <= 240;
    assert(0 <= (h_active + 160) * 1000 * refresh * height <= 8352 * 1000 * 240 * 8192) by (nonlinear_arith)
        requires 0 <= (h_active + 160) * 1000 * refresh <= 8352 * 1000 * 240, height <= 8192;
    let b = rb_active_budget(refresh as int);
    let a = 460 * refresh * height;
    vstd::arithmetic::div_mod::lemma_div_is_ordered_by_denominator(a, 889_600, b);
    vstd::arithmetic::div_mod::lemma_div_is_ordered(a, 904_396_800int, 889_600);
    let p = (h_active + 160) * 1000 * refresh * height;
    vstd::arithmetic::div_mod::lemma_div_is_ordered_by_denominator(p, 889_600, b);
    vstd::arithmetic::div_mod::lemma_div_is_ordered(p, 16_420_700_160_000int, 889_600);
    vstd::arithmetic::div_mod::lemma_div_pos_is_pos(p, b);
    vstd::arithmetic::div_mod::lemma_div_pos_is_pos(a, b);
}

/// Bounds of an accepted timing, as the EDID encoders need them.
pub proof fn lemma_accepted_timing_bounds(width: u32, height: u32, refresh: u32)
    requires
        cvt_accepts(width, height, refresh),
    ensures
        cvt_rb_timing(width, height, refresh).spec_h_total() == cvt_h_active(width as int) + 160,
        352 <= cvt_rb_timing(width, height, refresh).spec_h_total() <= 8352,
        cvt_rb_timing(width, height, refresh).pixel_clock_khz <= DTD_MAX_PIXEL_CLOCK_KHZ,
        cvt_rb_timing(width, height, refresh).v_back_porch <= 1100,
{
    lemma_cvt_bounds(width, height, refresh);
}

proof fn lemma_round_down_250(raw: int)
    requires
        raw >= 0,
    ensures
        (raw - raw % 250) % 250 == 0,
        0 <= raw - raw % 250 <= raw,
{
    vstd::arithmetic::div_mod::lemma_fundamental_div_mod(raw, 250);
    vstd::arithmetic::div_mod::lemma_mod_multiples_basic(raw / 250, 250);
}

/// The shape of a CVT reduced-blanking timing: the active area is the
/// requested height and the requested width rounded down to a multiple of
/// 8; the horizontal blanking is the fixed 48 + 32 + 80 pixels with
/// positive horizontal sync; the vertical front porch is 3 lines with
/// negative vertical sync and a back porch of at least 6 lines; and the
/// pixel clock is a multiple of 250 kHz.
pub proof fn lemma_cvt_rb_shape(width: u32, height: u32, refresh: u32)
    requires
        dimensions_supported(width, height),
        refresh_supported(refresh),
    ensures
        ({
            let t = cvt_rb_timing(width, height, refresh);
            &&& t.h_active % 8 == 0 && t.h_active <= width < t.h_active + 8
            &&& t.v_active == height
            &&& t.h_front_porch == 48 && t.h_sync_width == 32 && t.h_back_porch == 80
            &&& t.h_sync_positive && !t.v_sync_positive
            &&& t.v_front_porch == 3
            &&& t.v_back_porch >= 6
            &&& t.pixel_clock_khz % 250 == 0
        }),
{
    lemma_cvt_bounds(width, height, refresh);
    let w = width as int;
    let h = height as int;
    let r = refresh as int;
    let vsync = cvt_vsync_lines(w, h);
    let vblank = cvt_rb_vblank_lines(w, h, r);
    assert(vblank - 3 - vsync >= 6);
    lemma_pixel_clock_multiple(width, height, refresh);
}

proof fn lemma_pixel_clock_multiple(width: u32, height: u32, refresh: u32)
    requires
        dimensions_supported(width, height),
        refresh_supported(refresh),
    ensures
        cvt_rb_timing(width, height, refresh).pixel_clock_khz % 250 == 0,
{
    lemma_cvt_bounds(width, height, refresh);
    let pc = cvt_rb_pixel_clock(width as int, height as int, refresh as int);
    let num = (cvt_h_active(width as int) + 160) * 1000 * refresh * height;
    let raw = num / rb_active_budget(refresh as int);
    assert(pc == raw - raw % 250);
    vstd::arithmetic::div_mod::lemma_div_pos_is_pos(num, rb_active_budget(refresh as int));
    lemma_round_down_250(raw);
    assert(0 <= pc < 20_000_000);
    assert((pc as u32) as int == pc);
}

/// The vertical sync width follows the CVT aspect-ratio table: 4 lines
/// for 4:3, 5 for 16:9, 6 for 16:10, 7 for 5:4 and 15:9, and 10 for any
/// other shape.
pub proof fn lemma_vsync_by_aspect(width: u32, height: u32, refresh: u32)
    requires
        height > 0,
    ensures
        3 * width == 4 * height ==> cvt_rb_timing(width, height, refresh).v_sync_width == 4,
        9 * width == 16 * height ==> cvt_rb_timing(width, height, refresh).v_sync_width == 5,
        height % 10 == 0 && 10 * width == 16 * height ==> cvt_rb_timing(width, height, refresh).v_sync_width == 6,
        4 * width == 5 * height ==> cvt_rb_timing(width, height, refresh).v_sync_width == 7,
        height % 9 == 0 && 9 * width == 15 * height ==> cvt_rb_timing(width, height, refresh).v_sync_width == 7,
        3 * width != 4 * height && 9 * width != 16 * height && !(height % 10 == 0 && 10 * width == 16 * height)
            && 4 * width != 5 * height && !(height % 9 == 0 && 9 * width == 15 * height)
            ==> cvt_rb_timing(width, height, refresh).v_sync_width == 10,
{
    let w = width as int;
    let h = height as int;
    assert(h % 3 == 0 && h * 4 / 3 == w <==> 3 * w == 4 * h);
    assert(h % 9 == 0 && h * 16 / 9 == w <==> 9 * w == 16 * h);
    assert(h % 10 == 0 && h * 16 / 10 == w <==> h % 10 == 0 && 10 * w == 16 * h);
    assert(h % 4 == 0 && h * 5 / 4 == w <==> 4 * w == 5 * h);
    assert(h % 9 == 0 && h * 15 / 9 == w <==> h % 9 == 0 && 9 * w == 15 * h);
}

fn vsync_lines(width: u32, height: u32) -> (r: u32)
    requires
        dimensions_supported(width, height),
    ensures
        r == cvt_vsync_lines(width as int, height as int),
{
    let w = width as u64;
    let h = height as u64;
    if h % 3 == 0 && h * 4 / 3 == w {
        4
    } else if h % 9 == 0 && h * 16 / 9 == w {
        5
    } else if h % 10 == 0 && h * 16 / 10 == w {
        6
    } else if h % 4 == 0 && h * 5 / 4 == w {
        7
    } else if h % 9 == 0 && h * 15 / 9 == w {
        7
    } else {
        10
    }
}

fn invalid_timing(width: u32, height: u32, refresh_hz: u32, reason: String) -> (e: Error)
    ensures
        e == (Error::InvalidTiming { width, height, refresh: refresh_hz, reason }),
{
    Error::InvalidTiming { width, height, refresh: refresh_hz, reason }
}

/// Compute the CVT reduced-blanking v1 timing for a mode.
///
/// Refuses dimensions outside 200..=8192, refresh rates outside 24..=240 Hz,
/// and modes whose pixel clock does not fit an EDID 1.4 detailed timing
/// descriptor (655350 kHz).
///
/// The timing is derived here in integer arithmetic from the CVT
/// reduced-blanking formula (the active width rounded down to the 8-pixel
/// cell). libxcvt, the C library that computes these modes in floating
/// point, cannot be called from this library; agreement with it is
/// checked only on the canonical modes the tests list.
pub fn cvt_rb_v1(width: u32, height: u32, refresh_hz: u32) -> (r: Result<Timing, Error>)
    ensures
        r is Ok <==> cvt_accepts(width, height, refresh_hz),
        r matches Ok(t) ==> t == cvt_rb_timing(width, height, refresh_hz),
        r matches Err(e) ==> e matches Error::InvalidTiming { width: w, height: h, refresh: f, reason }
            && w == width && h == height && f == refresh_hz
            && reason@ == cvt_rejection_reason(width, height, refresh_hz),
{
    if width < 200 || height < 200 || width > 8192 || height > 8192 {
        return Err(invalid_timing(width, height, refresh_hz,
            owned("dimensions out of supported range (200..=8192)")));
    }
    if !(24 <= refresh_hz && refresh_hz <= 240) {
        return Err(invalid_timing(width, height, refresh_hz,
            owned("refresh out of supported range (24..=240 Hz)")));
    }
    proof {
        lemma_cvt_bounds(width, height, refresh_hz);
    }
    let w = width as u64;
    let h = height as u64;
    let r = refresh_hz as u64;
    let vsync = vsync_lines(width, height) as u64;
    let budget: u64 = 1_000_000 - 460 * r;
    let h_active: u64 = w - w % 8;
    let by_time: u64 = 460 * r * h / budget + 1;
    let minimum: u64 = 3 + vsync + 6;
    let vblank: u64 = if by_time < minimum { minimum } else { by_time };
    let h_total: u64 = h_active + 160;
    let raw: u64 = h_total * 1000 * r * h / budget;
    let pclk: u64 = raw - raw % 250;
    if pclk > 655_350 {
        let mut reason = owned("pixel clock ");
        push_decimal(&mut reason, pclk);
        push_str(&mut reason,
            " kHz exceeds EDID 1.4 DTD limit of 655350 kHz (would need a CTA-861 extension block; deferred till later)");
        return Err(invalid_timing(width, height, refresh_hz, reason));
    }
    Ok(Timing {
        h_active: h_active as u32,
        h_front_porch: 48,
        h_sync_width: 32,
        h_back_porch: 80,
        v_active: height,
        v_front_porch: 3,
        v_sync_width: vsync as u32,
        v_back_porch: (vblank - 3 - vsync) as u32,
        pixel_clock_khz: pclk as u32,
        h_sync_positive: true,
        v_sync_positive: false,
    })
}

} // verus!
