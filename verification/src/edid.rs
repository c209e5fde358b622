//! EDID 1.4 base-block construction.
//!
//! The 128-byte block is laid out as the EDID 1.4 standard fixes it. The
//! display-range-limits, product-name and product-serial descriptors and
//! the manufacturer id are encoded by the `redid` crate.

pub mod timing;

use vstd::prelude::*;
use crate::error::Error;
use crate::text::{decimal, owned, push_char, push_decimal, push_str};
use self::timing::{Timing, cvt_rb_v1, cvt_rb_timing, cvt_accepts, cvt_rejection_reason};
use redid::IntoBytes;
use vstd::string::{StringSliceAdditionalSpecFns, StrSliceExecFns};

verus! {

/// Why an EDID could not be built.
#[derive(Debug)]
pub enum EdidError {
    /// A field value is outside what its EDID encoding can carry.
    Field { field: String, reason: String },
    /// A descriptor string is not ASCII or longer than 13 bytes.
    DescriptorString { field: String, value: String, reason: String },
}

/// What the caller wants the virtual display to advertise.
#[derive(Clone, Copy, Debug)]
pub struct EdidSpec {
    pub width: u32,
    pub height: u32,
    pub refresh_hz: u32,
    /// Used for both the EDID serial number and the product name string
    /// (`fauxput-N`). Lifecycle callers pass 0 as a placeholder; the
    /// configfs-vkms backend re-derives it from the slot it allocates.
    pub instance_index: u32,
}

pub open spec fn spec_refresh_mhz(refresh_hz: u32) -> int {
    if refresh_hz * 1000 <= i32::MAX { refresh_hz * 1000 } else { i32::MAX as int }
}

impl EdidSpec {
    /// The refresh rate in millihertz, as compositors express it
    /// (saturating at `i32::MAX`).
    pub fn refresh_mhz(&self) -> (r: i32)
        ensures
            r == spec_refresh_mhz(self.refresh_hz),
    {
        if self.refresh_hz <= 2_147_483 {
            (self.refresh_hz * 1000) as i32
        } else {
            i32::MAX
        }
    }
}

// ---------------------------------------------------------------------------
// Byte-level specification of the base block
// ---------------------------------------------------------------------------

/// Sum of a byte sequence as an integer.
pub open spec fn byte_sum(s: Seq<u8>) -> int
    decreases s.len(),
{
    if s.len() == 0 { 0 } else { byte_sum(s.drop_last()) + s.last() }
}

/// The byte that makes a block sum to a multiple of 256.
pub open spec fn checksum_byte(s: Seq<u8>) -> u8 {
    ((256 - byte_sum(s) % 256) % 256) as u8
}

pub open spec fn edid_header() -> Seq<u8> {
    seq![0x00u8, 0xff, 0xff, 0xff, 0xff, 0xff, 0xff, 0x00]
}

/// Little-endian 16-bit field.
pub open spec fn le16(x: int) -> Seq<u8> {
    seq![(x % 256) as u8, ((x / 256) % 256) as u8]
}

/// Little-endian 32-bit field.
pub open spec fn le32(x: u32) -> Seq<u8> {
    seq![(x % 256) as u8, ((x / 256) % 256) as u8, ((x / 65536) % 256) as u8, (x / 16777216) as u8]
}

/// Three-letter PNP manufacturer id packed into two big-endian 5-bit
/// groups (`'A'` is 1).
pub open spec fn pnp_id_bytes(a: u8, b: u8, c: u8) -> Seq<u8> {
    seq![
        ((((a - 64) as u8) << 2u8) | (((b - 64) as u8) >> 3u8)) as u8,
        ((((b - 64) as u8) << 5u8) | ((c - 64) as u8)) as u8,
    ]
}

/// Manufacturer id `FXP`.
pub open spec fn manufacturer_bytes() -> Seq<u8> {
    pnp_id_bytes(70, 88, 80)
}

/// Product code 0x0001.
pub open spec fn product_code_bytes() -> Seq<u8> {
    le16(1)
}

/// Manufacture year 2026 without a week.
pub open spec fn date_bytes() -> Seq<u8> {
    seq![0u8, (2026 - 1990) as u8]
}

/// Digital 8 bpc DisplayPort input, undefined image size, gamma 2.2
/// (stored as 100 * gamma - 100), and feature flags: RGB 4:4:4,
/// sRGB default colour space, preferred timing is native, continuous
/// frequency.
pub open spec fn basic_display_params_bytes() -> Seq<u8> {
    seq![0x80u8 | (2u8 << 4u8) | 5u8, 0, 0, 120, (1u8 << 2u8) | (1u8 << 1u8) | 1u8]
}

/// sRGB primaries and D65 white point, each coordinate stored as
/// `round(1024 * value)`: red (0.640, 0.330), green (0.300, 0.600),
/// blue (0.150, 0.060), white (0.3127, 0.3290).
pub open spec fn srgb_raw() -> Seq<int> {
    seq![655, 338, 307, 614, 154, 61, 320, 337]
}

/// Ten chromaticity bytes: the low two bits of every coordinate packed in
/// the first two bytes, then the high eight bits of each.
pub open spec fn chromaticity_bytes(raw: Seq<int>) -> Seq<u8> {
    seq![
        (raw[0] % 4 * 64 + raw[1] % 4 * 16 + raw[2] % 4 * 4 + raw[3] % 4) as u8,
        (raw[4] % 4 * 64 + raw[5] % 4 * 16 + raw[6] % 4 * 4 + raw[7] % 4) as u8,
        (raw[0] / 4) as u8, (raw[1] / 4) as u8, (raw[2] / 4) as u8, (raw[3] / 4) as u8,
        (raw[4] / 4) as u8, (raw[5] / 4) as u8, (raw[6] / 4) as u8, (raw[7] / 4) as u8,
    ]
}

/// Established timings: only 640x480@60.
pub open spec fn established_timings_bytes() -> Seq<u8> {
    seq![0x20u8, 0, 0]
}

/// Eight unused standard-timing slots.
pub open spec fn standard_timings_bytes() -> Seq<u8> {
    Seq::new(16, |i: int| 1u8)
}

/// Field values of a detailed timing descriptor as the 8-, 10- and 16-bit
/// casts of the timing fields see them.
pub open spec fn dtd_h_active(t: Timing) -> int { t.h_active as int % 65536 }
pub open spec fn dtd_h_front(t: Timing) -> int { t.h_front_porch as int % 65536 }
pub open spec fn dtd_h_sync(t: Timing) -> int { t.h_sync_width as int % 65536 }
pub open spec fn dtd_h_back(t: Timing) -> int { t.h_back_porch as int % 65536 }
pub open spec fn dtd_h_blank(t: Timing) -> int { dtd_h_front(t) + dtd_h_sync(t) + dtd_h_back(t) }
pub open spec fn dtd_v_active(t: Timing) -> int { t.v_active as int % 65536 }
pub open spec fn dtd_v_front(t: Timing) -> int { t.v_front_porch as int % 256 }
pub open spec fn dtd_v_sync(t: Timing) -> int { t.v_sync_width as int % 256 }
pub open spec fn dtd_v_back(t: Timing) -> int { t.v_back_porch as int % 65536 }
pub open spec fn dtd_v_blank(t: Timing) -> int { dtd_v_front(t) + dtd_v_sync(t) + dtd_v_back(t) }

/// The first timing field a detailed timing descriptor cannot carry, with
/// its value and allowed range: `(name, value, minimum, maximum)`.
pub open spec fn dtd_rejection(t: Timing) -> Option<(Seq<char>, int, Option<int>, int)> {
    if dtd_h_active(t) > 4095 {
        Some(("h_active"@, dtd_h_active(t), None, 4095))
    } else if dtd_h_front(t) > 1023 {
        Some(("h_front_porch"@, dtd_h_front(t), None, 1023))
    } else if dtd_h_sync(t) > 1023 {
        Some(("h_sync_width"@, dtd_h_sync(t), None, 1023))
    } else if dtd_h_blank(t) > 4095 {
        Some(("h_blanking"@, dtd_h_blank(t), None, 4095))
    } else if dtd_v_active(t) > 4095 {
        Some(("v_active"@, dtd_v_active(t), None, 4095))
    } else if dtd_v_front(t) > 63 {
        Some(("v_front_porch"@, dtd_v_front(t), None, 63))
    } else if dtd_v_sync(t) > 63 {
        Some(("v_sync_width"@, dtd_v_sync(t), None, 63))
    } else if dtd_v_blank(t) > 4095 {
        Some(("v_blanking"@, dtd_v_blank(t), None, 4095))
    } else if !(10 <= t.pixel_clock_khz <= 655_350) {
        Some(("pixel_clock_khz"@, t.pixel_clock_khz as int, Some(10), 655_350))
    } else {
        None
    }
}

/// The 18-byte detailed timing descriptor of a timing that passes
/// [`dtd_rejection`]: digital separate sync, progressive, no stereo, no
/// border, physical size left for the compositor to derive.
pub open spec fn dtd_bytes(t: Timing) -> Seq<u8> {
    let clk = t.pixel_clock_khz / 10;
    let ha = dtd_h_active(t);
    let hb = dtd_h_blank(t);
    let va = dtd_v_active(t);
    let vb = dtd_v_blank(t);
    let hf = dtd_h_front(t);
    let hs = dtd_h_sync(t);
    let vf = dtd_v_front(t);
    let vs = dtd_v_sync(t);
    seq![
        (clk % 256) as u8, (clk / 256) as u8,
        (ha % 256) as u8, (hb % 256) as u8, (ha / 256 * 16 + hb / 256) as u8,
        (va % 256) as u8, (vb % 256) as u8, (va / 256 * 16 + vb / 256) as u8,
        (hf % 256) as u8, (hs % 256) as u8, (vf % 16 * 16 + vs % 16) as u8,
        (hf / 256 * 64 + hs / 256 * 16 + vf / 16 * 4 + vs / 16) as u8,
        0u8, 0u8, 0u8, 0u8, 0u8,
        (0x18 + (if t.v_sync_positive { 4int } else { 0 }) + (if t.h_sync_positive { 2int } else { 0 })) as u8,
    ]
}

/// The timing fields fit the widths a detailed timing descriptor gives
/// them.
pub open spec fn dtd_fits(t: Timing) -> bool {
    &&& t.h_active <= 4095
    &&& t.h_front_porch <= 1023
    &&& t.h_sync_width <= 1023
    &&& t.h_front_porch + t.h_sync_width + t.h_back_porch <= 4095
    &&& t.v_active <= 4095
    &&& t.v_front_porch <= 63
    &&& t.v_sync_width <= 63
    &&& t.v_front_porch + t.v_sync_width + t.v_back_porch <= 4095
    &&& t.pixel_clock_khz <= 655_350
}

proof fn lemma_nibbles(a: int, b: int)
    requires
        0 <= a < 4096,
        0 <= b < 4096,
    ensures
        ((a / 256 * 16 + b / 256) as u8) / 16 == a / 256,
        ((a / 256 * 16 + b / 256) as u8) % 16 == b / 256,
        ((a % 256) as u8) + 256 * (a / 256) == a,
{
    let x = a / 256 * 16 + b / 256;
    assert(0 <= x < 256);
    assert(x as u8 == x);
}

proof fn lemma_low_bits(hf: int, hs: int, vf: int, vs: int)
    requires
        0 <= hf < 1024,
        0 <= hs < 1024,
        0 <= vf < 64,
        0 <= vs < 64,
    ensures
        ({
            let b10 = (vf % 16 * 16 + vs % 16) as u8;
            let b11 = (hf / 256 * 64 + hs / 256 * 16 + vf / 16 * 4 + vs / 16) as u8;
            &&& ((hf % 256) as u8) + 256 * (b11 / 64) == hf
            &&& ((hs % 256) as u8) + 256 * (b11 / 16 % 4) == hs
            &&& b10 / 16 + 16 * (b11 / 4 % 4) == vf
            &&& b10 % 16 + 16 * (b11 % 4) == vs
        }),
{
    let a = hf / 256;
    let b = hs / 256;
    let c = vf / 16;
    let e = vs / 16;
    assert(0 <= a < 4 && 0 <= b < 4 && 0 <= c < 4 && 0 <= e < 4);
    let x11 = a * 64 + b * 16 + c * 4 + e;
    assert(0 <= x11 < 256 && x11 as u8 == x11);
    assert(x11 / 64 == a) by (nonlinear_arith)
        requires x11 == a * 64 + b * 16 + c * 4 + e, 0 <= a < 4, 0 <= b < 4, 0 <= c < 4, 0 <= e < 4;
    assert(x11 / 16 % 4 == b) by (nonlinear_arith)
        requires x11 == a * 64 + b * 16 + c * 4 + e, 0 <= a < 4, 0 <= b < 4, 0 <= c < 4, 0 <= e < 4;
    assert(x11 / 4 % 4 == c) by (nonlinear_arith)
        requires x11 == a * 64 + b * 16 + c * 4 + e, 0 <= a < 4, 0 <= b < 4, 0 <= c < 4, 0 <= e < 4;
    assert(x11 % 4 == e) by (nonlinear_arith)
        requires x11 == a * 64 + b * 16 + c * 4 + e, 0 <= a < 4, 0 <= b < 4, 0 <= c < 4, 0 <= e < 4;
    let p = vf % 16;
    let q = vs % 16;
    let x10 = p * 16 + q;
    assert(0 <= x10 < 256 && x10 as u8 == x10);
    assert(x10 / 16 == p && x10 % 16 == q) by (nonlinear_arith)
        requires x10 == p * 16 + q, 0 <= p < 16, 0 <= q < 16;
    assert((hf % 256) as u8 == hf % 256);
    assert((hs % 256) as u8 == hs % 256);
}

/// The detailed timing descriptor reads back as the timing, in the EDID 1.4
/// layout: the pixel clock in 10 kHz units (little-endian), each active
/// and blanking count as a low byte plus a high nibble, and the porches
/// and sync widths split across bytes 8 to 11.
pub proof fn lemma_dtd_layout(t: Timing)
    requires
        dtd_fits(t),
    ensures
        ({
            let d = dtd_bytes(t);
            &&& d.len() == 18
            &&& d[0] + 256 * d[1] == t.pixel_clock_khz / 10
            &&& d[2] + 256 * (d[4] / 16) == t.h_active
            &&& d[3] + 256 * (d[4] % 16) == t.h_front_porch + t.h_sync_width + t.h_back_porch
            &&& d[5] + 256 * (d[7] / 16) == t.v_active
            &&& d[6] + 256 * (d[7] % 16) == t.v_front_porch + t.v_sync_width + t.v_back_porch
            &&& d[8] + 256 * (d[11] / 64) == t.h_front_porch
            &&& d[9] + 256 * (d[11] / 16 % 4) == t.h_sync_width
            &&& d[10] / 16 + 16 * (d[11] / 4 % 4) == t.v_front_porch
            &&& d[10] % 16 + 16 * (d[11] % 4) == t.v_sync_width
        }),
{
    let ha = dtd_h_active(t);
    let hb = dtd_h_blank(t);
    let va = dtd_v_active(t);
    let vb = dtd_v_blank(t);
    assert(ha == t.h_active && va == t.v_active);
    assert(hb == t.h_front_porch + t.h_sync_width + t.h_back_porch);
    assert(vb == t.v_front_porch + t.v_sync_width + t.v_back_porch);
    lemma_nibbles(ha, hb);
    lemma_nibbles(hb, ha);
    lemma_nibbles(va, vb);
    lemma_nibbles(vb, va);
    let clk = t.pixel_clock_khz / 10;
    assert(0 <= clk <= 65535);
    assert((clk % 256) as u8 == clk % 256 && (clk / 256) as u8 == clk / 256);
    lemma_low_bits(dtd_h_front(t), dtd_h_sync(t), dtd_v_front(t), dtd_v_sync(t));
}

/// Byte 17 of the detailed timing descriptor declares a progressive
/// digital display with separate sync; its bit 1 is the horizontal and
/// bit 2 the vertical sync polarity.
pub proof fn lemma_dtd_flags(t: Timing)
    ensures
        ({
            let f = dtd_bytes(t)[17];
            &&& f & 0x80 == 0
            &&& f & 0x18 == 0x18
            &&& f & 2 == (if t.h_sync_positive { 2u8 } else { 0u8 })
            &&& f & 4 == (if t.v_sync_positive { 4u8 } else { 0u8 })
        }),
{
    let f = dtd_bytes(t)[17];
    if t.v_sync_positive && t.h_sync_positive {
        assert(f == 0x1eu8);
        assert(0x1eu8 & 0x80 == 0 && 0x1eu8 & 0x18 == 0x18 && 0x1eu8 & 2 == 2 && 0x1eu8 & 4 == 4) by (bit_vector);
    } else if t.v_sync_positive {
        assert(f == 0x1cu8);
        assert(0x1cu8 & 0x80 == 0 && 0x1cu8 & 0x18 == 0x18 && 0x1cu8 & 2 == 0 && 0x1cu8 & 4 == 4) by (bit_vector);
    } else if t.h_sync_positive {
        assert(f == 0x1au8);
        assert(0x1au8 & 0x80 == 0 && 0x1au8 & 0x18 == 0x18 && 0x1au8 & 2 == 2 && 0x1au8 & 4 == 0) by (bit_vector);
    } else {
        assert(f == 0x18u8);
        assert(0x18u8 & 0x80 == 0 && 0x18u8 & 0x18 == 0x18 && 0x18u8 & 2 == 0 && 0x18u8 & 4 == 0) by (bit_vector);
    }
}

/// A range-limit frequency byte: values above 255 are stored with a 255
/// offset (and flagged separately).
pub open spec fn rate_byte(x: int) -> u8 {
    (if x > 255 { x - 255 } else { x }) as u8
}

/// The 18-byte display range limits descriptor (EDID 1.4 layout, "range
/// limits only" timing support).
pub open spec fn range_limits_bytes(min_h: int, max_h: int, min_v: int, max_v: int, pclk_mhz: int) -> Seq<u8> {
    let v_flags = if max_v > 255 { 2 + (if min_v > 255 { 1int } else { 0 }) } else { 0 };
    let h_flags = if max_h > 255 { 8 + (if min_h > 255 { 4int } else { 0 }) } else { 0 };
    seq![0u8, 0, 0, 0xfd, (v_flags + h_flags) as u8,
        rate_byte(min_v), rate_byte(max_v), rate_byte(min_h), rate_byte(max_h),
        ((pclk_mhz + 9) / 10) as u8,
        0x01, 0x0a, 0x20, 0x20, 0x20, 0x20, 0x20, 0x20]
}

/// An 18-byte string descriptor: tag, then the ASCII bytes, a line feed
/// when there is room, and space padding to 13 bytes.
pub open spec fn string_descriptor_bytes(tag: u8, s: Seq<char>) -> Seq<u8> {
    seq![0u8, 0, 0, tag, 0]
        + Seq::new(s.len(), |i: int| s[i] as u8)
        + (if s.len() < 13 { seq![0x0au8] + Seq::new((12 - s.len()) as nat, |i: int| 0x20u8) } else { seq![] })
}

pub open spec fn product_name_chars(index: u32) -> Seq<char> {
    "fauxput-"@ + decimal(index as nat)
}

pub open spec fn serial_string_chars(spec: EdidSpec) -> Seq<char> {
    decimal(spec.width as nat) + "x"@ + decimal(spec.height as nat) + "@"@ + decimal(spec.refresh_hz as nat)
}

/// Values of the range-limits descriptor derived from a timing: ±5 kHz
/// around the line rate, ±1 Hz around the refresh rate (never below 1),
/// and the pixel clock rounded up to whole MHz, each cut to 16 bits.
pub open spec fn range_hfreq(t: Timing) -> int { t.pixel_clock_khz as int / t.spec_h_total() }
pub open spec fn range_min_h(t: Timing) -> int {
    (if range_hfreq(t) >= 6 { range_hfreq(t) - 5 } else { 1 }) % 65536
}
pub open spec fn range_max_h(t: Timing) -> int { (range_hfreq(t) + 5) % 65536 }
pub open spec fn range_min_v(refresh: u32) -> int { (if refresh >= 2 { refresh - 1 } else { 1 }) % 65536 }
pub open spec fn range_max_v(refresh: u32) -> int { (refresh + 1) % 65536 }
pub open spec fn range_pclk_mhz(t: Timing) -> int {
    ((t.pixel_clock_khz as int + 999) / 1000) % 65536
}

/// The first range-limit field out of its EDID range, as `(name, value,
/// minimum, maximum)`.
pub open spec fn range_rejection(t: Timing, refresh: u32) -> Option<(Seq<char>, int, Option<int>, int)> {
    if !(1 <= range_min_h(t) <= 510) {
        Some(("hfreq_khz"@, range_min_h(t), Some(1), 510))
    } else if !(1 <= range_max_h(t) <= 510) {
        Some(("hfreq_khz"@, range_max_h(t), Some(1), 510))
    } else if !(1 <= range_min_v(refresh) <= 510) {
        Some(("vfreq_khz"@, range_min_v(refresh), Some(1), 510))
    } else if !(1 <= range_max_v(refresh) <= 510) {
        Some(("vfreq_khz"@, range_max_v(refresh), Some(1), 510))
    } else if !(1 <= range_pclk_mhz(t) <= 2550) {
        Some(("max_pixelclock_mhz"@, range_pclk_mhz(t), Some(1), 2550))
    } else {
        None
    }
}

pub open spec fn range_limits_for(t: Timing, refresh: u32) -> Seq<u8> {
    range_limits_bytes(range_min_h(t), range_max_h(t), range_min_v(refresh), range_max_v(refresh), range_pclk_mhz(t))
}

/// The range limits bracket the mode: the horizontal rate lies within
/// 5 kHz bands below and above the timing's line rate, the vertical rate
/// within 1 Hz of the refresh rate, and the pixel clock under the
/// advertised maximum, rounded up to the next MHz.
pub proof fn lemma_range_limits_bracket(t: Timing, refresh: u32)
    requires
        t.spec_h_total() > 0,
        1 <= range_hfreq(t),
        range_hfreq(t) + 5 < 65536,
        1 <= refresh < 65535,
        t.pixel_clock_khz <= 65_535_000,
    ensures
        range_min_h(t) <= range_hfreq(t) <= range_max_h(t),
        range_hfreq(t) - 5 <= range_min_h(t),
        range_max_h(t) == range_hfreq(t) + 5,
        range_min_v(refresh) <= refresh <= range_max_v(refresh),
        refresh - 1 <= range_min_v(refresh),
        range_max_v(refresh) == refresh + 1,
        range_pclk_mhz(t) * 1000 >= t.pixel_clock_khz,
        range_pclk_mhz(t) * 1000 < t.pixel_clock_khz + 1000,
{
    let pc = t.pixel_clock_khz as int;
    assert(range_hfreq(t) >= 0) by {
        vstd::arithmetic::div_mod::lemma_div_pos_is_pos(pc, t.spec_h_total() as int);
    }
    let q = (pc + 999) / 1000;
    assert(0 <= q <= 65_535);
    assert(q * 1000 >= pc && q * 1000 < pc + 1000) by {
        vstd::arithmetic::div_mod::lemma_fundamental_div_mod(pc + 999, 1000);
    }
}

/// Text of an out-of-range field error.
pub open spec fn range_message(value: int, min: Option<int>, max: int) -> Seq<char> {
    "Value out of range: "@ + decimal(value as nat) + " (Range: "@
        + (match min { Some(m) => decimal(m as nat), None => Seq::empty() })
        + "..="@ + decimal(max as nat) + ")"@
}

/// The first 127 bytes of the block built for `spec` with timing `t`.
#[verifier::opaque]
pub open spec fn edid_body(spec: EdidSpec, t: Timing) -> Seq<u8> {
    edid_header() + manufacturer_bytes() + product_code_bytes() + le32(spec.instance_index)
        + date_bytes() + seq![1u8, 4u8] + basic_display_params_bytes()
        + chromaticity_bytes(srgb_raw()) + established_timings_bytes() + standard_timings_bytes()
        + dtd_bytes(t) + range_limits_for(t, spec.refresh_hz)
        + string_descriptor_bytes(0xfc, product_name_chars(spec.instance_index))
        + string_descriptor_bytes(0xff, serial_string_chars(spec))
        + seq![0u8]
}

/// The complete 128-byte base block.
pub open spec fn edid_block(spec: EdidSpec, t: Timing) -> Seq<u8> {
    edid_body(spec, t).push(checksum_byte(edid_body(spec, t)))
}

/// The error [`build`] reports for a `spec` it refuses: the timing error
/// of [`cvt_rb_v1`], else the first field the detailed timing or range
/// limits descriptor cannot carry, else the name or serial string that
/// does not fit its descriptor.
pub open spec fn build_error_is(spec: EdidSpec, e: Error) -> bool {
    if !cvt_accepts(spec.width, spec.height, spec.refresh_hz) {
        e matches Error::InvalidTiming { width, height, refresh, reason }
            && width == spec.width && height == spec.height && refresh == spec.refresh_hz
            && reason@ == cvt_rejection_reason(spec.width, spec.height, spec.refresh_hz)
    } else {
        let t = cvt_rb_timing(spec.width, spec.height, spec.refresh_hz);
        match dtd_rejection(t) {
            Some((name, value, min, max)) => e matches Error::Edid(EdidError::Field { field, reason })
                && field@ == name && reason@ == range_message(value, min, max),
            None => match range_rejection(t, spec.refresh_hz) {
                Some((name, value, min, max)) => e matches Error::Edid(EdidError::Field { field, reason })
                    && field@ == name && reason@ == range_message(value, min, max),
                None => e matches Error::Edid(EdidError::DescriptorString { field, value, reason })
                    && if product_name_chars(spec.instance_index).len() > 13 {
                        field@ == "product_name"@ && value@ == product_name_chars(spec.instance_index)
                            && reason@ == descriptor_rejection(value@)
                    } else {
                        field@ == "serial_string"@ && value@ == serial_string_chars(spec)
                            && reason@ == descriptor_rejection(value@)
                    },
            },
        }
    }
}

/// True iff [`build`] produces a block for `spec`.
pub open spec fn edid_accepts(spec: EdidSpec) -> bool {
    let t = cvt_rb_timing(spec.width, spec.height, spec.refresh_hz);
    &&& cvt_accepts(spec.width, spec.height, spec.refresh_hz)
    &&& dtd_rejection(t) is None
    &&& range_rejection(t, spec.refresh_hz) is None
    &&& product_name_chars(spec.instance_index).len() <= 13
    &&& serial_string_chars(spec).len() <= 13
}

// ---------------------------------------------------------------------------
// Calls into `redid`
// ---------------------------------------------------------------------------

/// `redid::EdidManufacturer::try_from(code)` followed by `into_bytes()`:
/// the three letters relative to `'@'`, packed five bits each.
#[verifier::external_body]
fn redid_manufacturer(code: &str) -> (r: Vec<u8>)
    requires
        code@.len() == 3,
        forall|i: int| 0 <= i < 3 ==> 64 <= #[trigger] (code@[i] as int) < 128,
    ensures
        r@ == pnp_id_bytes(code@[0] as u8, code@[1] as u8, code@[2] as u8),
{
    redid::EdidManufacturer::try_from(code).unwrap().into_bytes()
}

/// `redid::EdidDescriptorString::try_from(s)` wrapped as a product-name
/// (`serial == false`) or product-serial (`serial == true`) EDID 1.4
/// descriptor and encoded by `into_bytes()`.
#[verifier::external_body]
fn redid_string_descriptor(s: &str, serial: bool) -> (r: Vec<u8>)
    requires
        vstd::string::is_ascii(s),
        s@.len() <= 13,
    ensures
        r@ == string_descriptor_bytes(if serial { 0xffu8 } else { 0xfcu8 }, s@),
{
    let d = redid::EdidDescriptorString::try_from(s).unwrap();
    let desc = if serial {
        redid::EdidR4Descriptor::ProductSerialNumber(d)
    } else {
        redid::EdidR4Descriptor::ProductName(d)
    };
    desc.into_bytes()
}

/// `redid::EdidR4DisplayRangeLimits` with "range limits only" timing
/// support, wrapped as an EDID 1.4 descriptor and encoded by `into_bytes()`.
#[verifier::external_body]
fn redid_range_limits(min_h: u16, max_h: u16, min_v: u16, max_v: u16, pclk_mhz: u16) -> (r: Vec<u8>)
    requires
        1 <= min_h <= 510, 1 <= max_h <= 510, 1 <= min_v <= 510, 1 <= max_v <= 510,
        1 <= pclk_mhz <= 2550,
    ensures
        r@ == range_limits_bytes(min_h as int, max_h as int, min_v as int, max_v as int, pclk_mhz as int),
{
    let limits = redid::EdidR4DisplayRangeLimits::builder()
        .min_hfreq(redid::EdidR4DisplayRangeHorizontalFreq::try_from(min_h).unwrap())
        .max_hfreq(redid::EdidR4DisplayRangeHorizontalFreq::try_from(max_h).unwrap())
        .min_vfreq(redid::EdidR4DisplayRangeVerticalFreq::try_from(min_v).unwrap())
        .max_vfreq(redid::EdidR4DisplayRangeVerticalFreq::try_from(max_v).unwrap())
        .max_pixelclock(redid::EdidDisplayRangePixelClock::try_from(pclk_mhz).unwrap())
        .timings_support(redid::EdidR4DisplayRangeVideoTimingsSupport::RangeLimitsOnly)
        .build();
    redid::EdidR4Descriptor::DisplayRangeLimits(limits).into_bytes()
}

// ---------------------------------------------------------------------------
// Construction
// ---------------------------------------------------------------------------

/// Appends `bytes` to `out`.
fn append_bytes(out: &mut Vec<u8>, bytes: Vec<u8>)
    ensures
        final(out)@ == old(out)@ + bytes@,
{
    let mut b = bytes;
    out.append(&mut b);
}

fn range_message_string(value: u64, min: Option<u64>, max: u64) -> (s: String)
    ensures
        s@ == range_message(value as int, match min { Some(m) => Some(m as int), None => None }, max as int),
{
    let mut s = owned("Value out of range: ");
    push_decimal(&mut s, value);
    push_str(&mut s, " (Range: ");
    match min {
        Some(m) => push_decimal(&mut s, m),
        None => {},
    }
    push_str(&mut s, "..=");
    push_decimal(&mut s, max);
    push_str(&mut s, ")");
    proof {
        let mn: Option<int> = match min { Some(m) => Some(m as int), None => None };
        let mid: Seq<char> = match mn { Some(m) => decimal(m as nat), None => Seq::empty() };
        assert(s@ =~= range_message(value as int, mn, max as int));
    }
    s
}

/// The error for a field that is out of its EDID range.
fn field_error(field: &str, value: u64, min: Option<u64>, max: u64) -> (e: Error)
    ensures
        e matches Error::Edid(EdidError::Field { field: f, reason })
            && f@ == field@
            && reason@ == range_message(value as int, match min { Some(m) => Some(m as int), None => None }, max as int),
{
    Error::Edid(EdidError::Field { field: owned(field), reason: range_message_string(value, min, max) })
}

/// Basic display parameters and features: a digital 8 bpc DisplayPort
/// sink, image size left undefined so the compositor works out the DPI,
/// gamma 2.2, RGB 4:4:4, sRGB default colour space, native preferred
/// timing, continuous frequency.
pub fn build_basic_display_params() -> (r: Vec<u8>)
    ensures
        r@ == basic_display_params_bytes(),
{
    let r: Vec<u8> = vec![0xa5, 0x00, 0x00, 0x78, 0x07];
    assert(r@ =~= basic_display_params_bytes()) by {
        assert(0x80u8 | (2u8 << 4u8) | 5u8 == 0xa5u8) by (bit_vector);
        assert((1u8 << 2u8) | (1u8 << 1u8) | 1u8 == 0x07u8) by (bit_vector);
    }
    r
}

/// sRGB primaries with a D65 white point.
pub fn srgb_chromaticity() -> (r: Vec<u8>)
    ensures
        r@ == chromaticity_bytes(srgb_raw()),
{
    let r: Vec<u8> = vec![0xee, 0x91, 163, 84, 76, 153, 38, 15, 80, 84];
    assert(r@ =~= chromaticity_bytes(srgb_raw()));
    r
}

/// Encode the preferred timing as an 18-byte detailed timing descriptor.
///
/// Fails on the first field the descriptor cannot carry (12-bit active
/// and blanking, 10-bit horizontal porch/sync, 6-bit vertical porch/sync,
/// 10..=655350 kHz pixel clock).
pub fn build_dtd(t: &Timing) -> (r: Result<Vec<u8>, Error>)
    ensures
        r is Ok <==> dtd_rejection(*t) is None,
        r matches Ok(b) ==> b@ == dtd_bytes(*t),
        r matches Err(e) ==> (dtd_rejection(*t) matches Some((name, value, min, max))
            && e matches Error::Edid(EdidError::Field { field, reason })
            && field@ == name && reason@ == range_message(value, min, max)),
{
    let ha = (t.h_active % 65536) as u64;
    let hf = (t.h_front_porch % 65536) as u64;
    let hs = (t.h_sync_width % 65536) as u64;
    let hbp = (t.h_back_porch % 65536) as u64;
    let va = (t.v_active % 65536) as u64;
    let vf = (t.v_front_porch % 256) as u64;
    let vs = (t.v_sync_width % 256) as u64;
    let vbp = (t.v_back_porch % 65536) as u64;
    let hb = hf + hs + hbp;
    let vb = vf + vs + vbp;
    if ha > 4095 {
        return Err(field_error("h_active", ha, None, 4095));
    }
    if hf > 1023 {
        return Err(field_error("h_front_porch", hf, None, 1023));
    }
    if hs > 1023 {
        return Err(field_error("h_sync_width", hs, None, 1023));
    }
    if hb > 4095 {
        return Err(field_error("h_blanking", hb, None, 4095));
    }
    if va > 4095 {
        return Err(field_error("v_active", va, None, 4095));
    }
    if vf > 63 {
        return Err(field_error("v_front_porch", vf, None, 63));
    }
    if vs > 63 {
        return Err(field_error("v_sync_width", vs, None, 63));
    }
    if vb > 4095 {
        return Err(field_error("v_blanking", vb, None, 4095));
    }
    if !(10 <= t.pixel_clock_khz && t.pixel_clock_khz <= 655_350) {
        return Err(field_error("pixel_clock_khz", t.pixel_clock_khz as u64, Some(10), 655_350));
    }
    let clk = (t.pixel_clock_khz / 10) as u64;
    let flags: u64 = 0x18 + (if t.v_sync_positive { 4 } else { 0 }) + (if t.h_sync_positive { 2 } else { 0 });
    let r: Vec<u8> = vec![
        (clk % 256) as u8, (clk / 256) as u8,
        (ha % 256) as u8, (hb % 256) as u8, (ha / 256 * 16 + hb / 256) as u8,
        (va % 256) as u8, (vb % 256) as u8, (va / 256 * 16 + vb / 256) as u8,
        (hf % 256) as u8, (hs % 256) as u8, (vf % 16 * 16 + vs % 16) as u8,
        (hf / 256 * 64 + hs / 256 * 16 + vf / 16 * 4 + vs / 16) as u8,
        0, 0, 0, 0, 0,
        flags as u8,
    ];
    assert(r@ =~= dtd_bytes(*t));
    Ok(r)
}

/// Encode the display range limits for a timing: ±5 kHz around the line
/// rate, ±1 Hz around `refresh_hz`, and the pixel clock rounded up to MHz.
pub fn build_range_limits(t: &Timing, refresh_hz: u32) -> (r: Result<Vec<u8>, Error>)
    requires
        1 <= t.spec_h_total() <= u32::MAX,
        range_hfreq(*t) + 5 <= u32::MAX,
        refresh_hz < u32::MAX,
    ensures
        r is Ok <==> range_rejection(*t, refresh_hz) is None,
        r matches Ok(b) ==> b@ == range_limits_for(*t, refresh_hz),
        r matches Err(e) ==> (range_rejection(*t, refresh_hz) matches Some((name, value, min, max))
            && e matches Error::Edid(EdidError::Field { field, reason })
            && field@ == name && reason@ == range_message(value, min, max)),
{
    let hfreq = t.pixel_clock_khz / t.h_total();
    let min_h = ((if hfreq >= 6 { hfreq - 5 } else { 1 }) % 65536) as u16;
    let max_h = ((hfreq + 5) % 65536) as u16;
    let min_v = ((if refresh_hz >= 2 { refresh_hz - 1 } else { 1 }) % 65536) as u16;
    let max_v = ((refresh_hz + 1) % 65536) as u16;
    let pclk_mhz = ((t.pixel_clock_khz / 1000 + (if t.pixel_clock_khz % 1000 != 0 { 1 } else { 0 })) % 65536) as u16;
    assert(pclk_mhz == range_pclk_mhz(*t));
    if !(1 <= min_h && min_h <= 510) {
        return Err(field_error("hfreq_khz", min_h as u64, Some(1), 510));
    }
    if !(1 <= max_h && max_h <= 510) {
        return Err(field_error("hfreq_khz", max_h as u64, Some(1), 510));
    }
    if !(1 <= min_v && min_v <= 510) {
        return Err(field_error("vfreq_khz", min_v as u64, Some(1), 510));
    }
    if !(1 <= max_v && max_v <= 510) {
        return Err(field_error("vfreq_khz", max_v as u64, Some(1), 510));
    }
    if !(1 <= pclk_mhz && pclk_mhz <= 2550) {
        return Err(field_error("max_pixelclock_mhz", pclk_mhz as u64, Some(1), 2550));
    }
    Ok(redid_range_limits(min_h, max_h, min_v, max_v, pclk_mhz))
}

/// Why a string cannot be a descriptor string (meaningful when it cannot).
pub open spec fn descriptor_rejection(s: Seq<char>) -> Seq<char> {
    if !vstd::utf8::is_ascii_chars(s) {
        "Invalid Value: String must be ASCII."@
    } else {
        "Invalid Value: String is too long."@
    }
}

/// Encode `s` as a product-name or product-serial string descriptor.
fn to_descriptor(s: &String, field: &str, serial: bool) -> (r: Result<Vec<u8>, Error>)
    ensures
        r is Ok <==> (vstd::utf8::is_ascii_chars(s@) && s@.len() <= 13),
        r matches Ok(b) ==> b@ == string_descriptor_bytes(if serial { 0xffu8 } else { 0xfcu8 }, s@),
        r matches Err(e) ==> e matches Error::Edid(EdidError::DescriptorString { field: f, value, reason })
            && f@ == field@ && value@ == s@ && reason@ == descriptor_rejection(s@),
{
    broadcast use vstd::string::group_string_axioms;
    let st = s.as_str();
    if !st.is_ascii() {
        return Err(Error::Edid(EdidError::DescriptorString {
            field: owned(field),
            value: s.clone(),
            reason: owned("Invalid Value: String must be ASCII."),
        }));
    }
    assert(vstd::string::is_ascii(st));
    assert(st.spec_bytes().len() == s@.len());
    let n = st.unicode_len();
    if n > 13 {
        return Err(Error::Edid(EdidError::DescriptorString {
            field: owned(field),
            value: s.clone(),
            reason: owned("Invalid Value: String is too long."),
        }));
    }
    Ok(redid_string_descriptor(st, serial))
}

/// The byte that completes `body` to a sum divisible by 256.
fn checksum(body: &Vec<u8>) -> (c: u8)
    ensures
        c == checksum_byte(body@),
{
    let mut sum: u64 = 0;
    let mut i: usize = 0;
    while i < body.len()
        invariant
            i <= body.len(),
            sum < 256,
            sum == byte_sum(body@.take(i as int)) % 256,
        decreases body.len() - i,
    {
        assert(body@.take(i as int + 1).drop_last() =~= body@.take(i as int));
        sum = (sum + body[i] as u64) % 256;
        i = i + 1;
    }
    assert(body@.take(body.len() as int) =~= body@);
    ((256 - sum) % 256) as u8
}

/// The first 127 bytes of the block around already-encoded descriptors.
fn assemble_body(sn: u32, dtd: Vec<u8>, limits: Vec<u8>, name_desc: Vec<u8>, serial_desc: Vec<u8>) -> (out: Vec<u8>)
    ensures
        out@ == edid_header() + manufacturer_bytes() + product_code_bytes() + le32(sn)
            + date_bytes() + seq![1u8, 4u8] + basic_display_params_bytes()
            + chromaticity_bytes(srgb_raw()) + established_timings_bytes() + standard_timings_bytes()
            + dtd@ + limits@ + name_desc@ + serial_desc@ + seq![0u8],
{
    proof {
        reveal_strlit("FXP");
    }
    let mut out: Vec<u8> = vec![0x00, 0xff, 0xff, 0xff, 0xff, 0xff, 0xff, 0x00];
    let fxp = "FXP";
    assert(fxp@ == seq!['F', 'X', 'P']);
    append_bytes(&mut out, redid_manufacturer(fxp));
    append_bytes(&mut out, vec![0x01, 0x00]);
    append_bytes(&mut out, vec![(sn % 256) as u8, ((sn / 256) % 256) as u8, ((sn / 65536) % 256) as u8, (sn / 16777216) as u8]);
    append_bytes(&mut out, vec![0x00, 36]);
    append_bytes(&mut out, vec![0x01, 0x04]);
    append_bytes(&mut out, build_basic_display_params());
    append_bytes(&mut out, srgb_chromaticity());
    append_bytes(&mut out, vec![0x20, 0x00, 0x00]);
    append_bytes(&mut out, vec![1, 1, 1, 1, 1, 1, 1, 1, 1, 1, 1, 1, 1, 1, 1, 1]);
    append_bytes(&mut out, dtd);
    append_bytes(&mut out, limits);
    append_bytes(&mut out, name_desc);
    append_bytes(&mut out, serial_desc);
    out.push(0);
    assert(out@ =~= edid_header() + manufacturer_bytes() + product_code_bytes() + le32(sn)
        + date_bytes() + seq![1u8, 4u8] + basic_display_params_bytes()
        + chromaticity_bytes(srgb_raw()) + established_timings_bytes() + standard_timings_bytes()
        + dtd@ + limits@ + name_desc@ + serial_desc@ + seq![0u8]);
    out
}

/// Build the EDID 1.4 base block advertising `spec`.
///
/// The preferred timing is the CVT-RB v1 mode for the requested size and
/// refresh; the product name is `fauxput-<instance_index>`, the serial
/// number is `instance_index` and the serial string is `WxH@R`.
#[verifier::rlimit(40)]
pub fn build(spec: &EdidSpec) -> (r: Result<Vec<u8>, Error>)
    ensures
        r is Ok <==> edid_accepts(*spec),
        r matches Ok(b) ==> b@ == edid_block(*spec, cvt_rb_timing(spec.width, spec.height, spec.refresh_hz)),
        r matches Err(e) ==> build_error_is(*spec, e),
{
    let t = cvt_rb_v1(spec.width, spec.height, spec.refresh_hz)?;
    proof {
        timing::lemma_accepted_timing_bounds(spec.width, spec.height, spec.refresh_hz);
    }

    let mut product_name = owned("fauxput-");
    push_decimal(&mut product_name, spec.instance_index as u64);
    let mut serial_str = String::new();
    push_decimal(&mut serial_str, spec.width as u64);
    push_str(&mut serial_str, "x");
    push_decimal(&mut serial_str, spec.height as u64);
    push_str(&mut serial_str, "@");
    push_decimal(&mut serial_str, spec.refresh_hz as u64);
    assert(product_name@ =~= product_name_chars(spec.instance_index));
    assert(serial_str@ =~= serial_string_chars(*spec));

    let dtd = build_dtd(&t)?;
    let limits = build_range_limits(&t, spec.refresh_hz)?;
    proof {
        lemma_names_ascii(*spec);
    }
    let name_desc = to_descriptor(&product_name, "product_name", false)?;
    let serial_desc = to_descriptor(&serial_str, "serial_string", true)?;

    let mut out = assemble_body(spec.instance_index, dtd, limits, name_desc, serial_desc);
    assert(out@ == edid_body(*spec, t)) by {
        reveal(edid_body);
    }
    let c = checksum(&out);
    out.push(c);
    Ok(out)
}

proof fn lemma_block_dtd_slice(spec: EdidSpec, t: Timing)
    ensures
        edid_block(spec, t).len() >= 72,
        edid_block(spec, t).subrange(54, 72) == dtd_bytes(t),
{
    reveal(edid_body);
    let body = edid_body(spec, t);
    assert(body.len() >= 72);
    assert(body.subrange(54, 72) =~= dtd_bytes(t));
    assert(edid_block(spec, t).subrange(54, 72) =~= body.subrange(54, 72));
}

/// The block's preferred timing is the requested mode: bytes 54 to 71 are
/// the detailed timing descriptor of the CVT timing for the spec, which
/// reads back as the requested height, the requested width rounded down to
/// the 8-pixel cell, the timing's blanking and pixel clock, and positive
/// horizontal with negative vertical sync, as CVT reduced blanking has it.
#[verifier::rlimit(40)]
pub proof fn lemma_block_advertises_mode(spec: EdidSpec)
    requires
        edid_accepts(spec),
    ensures
        ({
            let b = edid_block(spec, cvt_rb_timing(spec.width, spec.height, spec.refresh_hz));
            let t = cvt_rb_timing(spec.width, spec.height, spec.refresh_hz);
            &&& b.subrange(54, 72) == dtd_bytes(t)
            &&& b[54] + 256 * b[55] == t.pixel_clock_khz / 10
            &&& b[56] + 256 * (b[58] / 16) == spec.width - spec.width % 8
            &&& b[59] + 256 * (b[61] / 16) == spec.height
            &&& b[57] + 256 * (b[58] % 16) == t.h_front_porch + t.h_sync_width + t.h_back_porch
            &&& b[60] + 256 * (b[61] % 16) == t.v_front_porch + t.v_sync_width + t.v_back_porch
            &&& b[71] & 0x18 == 0x18
            &&& b[71] & 2 == 2
            &&& b[71] & 4 == 0
        }),
{
    let t = cvt_rb_timing(spec.width, spec.height, spec.refresh_hz);
    timing::lemma_accepted_timing_bounds(spec.width, spec.height, spec.refresh_hz);
    lemma_block_dtd_slice(spec, t);
    let b = edid_block(spec, t);
    assert(dtd_rejection(t) is None);
    assert(dtd_fits(t));
    lemma_dtd_layout(t);
    lemma_dtd_flags(t);
    let d = b.subrange(54, 72);
    assert(d[17] == b[71] && d[0] == b[54] && d[1] == b[55] && d[2] == b[56] && d[3] == b[57]);
    assert(d[4] == b[58] && d[5] == b[59] && d[6] == b[60] && d[7] == b[61]);
    assert(t.h_active == spec.width - spec.width % 8);
    assert(t.v_active == spec.height);
    assert(t.h_sync_positive && !t.v_sync_positive);
    assert(b[71] & 0x18 == 0x18);
    assert(b[71] & 2 == 2);
    assert(b[71] & 4 == 0);
    assert(b[54] + 256 * b[55] == t.pixel_clock_khz / 10);
    assert(b[56] + 256 * (b[58] / 16) == spec.width - spec.width % 8);
}

/// The product name and serial string only ever hold ASCII characters.
proof fn lemma_names_ascii(spec: EdidSpec)
    ensures
        vstd::utf8::is_ascii_chars(product_name_chars(spec.instance_index)),
        vstd::utf8::is_ascii_chars(serial_string_chars(spec)),
{
    reveal_strlit("fauxput-");
    reveal_strlit("x");
    reveal_strlit("@");
    lemma_decimal_ascii(spec.instance_index as nat);
    lemma_decimal_ascii(spec.width as nat);
    lemma_decimal_ascii(spec.height as nat);
    lemma_decimal_ascii(spec.refresh_hz as nat);
    assert(vstd::utf8::is_ascii_chars(product_name_chars(spec.instance_index)));
    assert(vstd::utf8::is_ascii_chars(serial_string_chars(spec)));
}

proof fn lemma_decimal_ascii(n: nat)
    ensures
        vstd::utf8::is_ascii_chars(decimal(n)),
    decreases n,
{
    if n >= 10 {
        lemma_decimal_ascii(n / 10);
    }
}

// ---------------------------------------------------------------------------
// Properties of the produced block
// ---------------------------------------------------------------------------

proof fn lemma_string_descriptor_len(tag: u8, s: Seq<char>)
    requires
        s.len() <= 13,
    ensures
        string_descriptor_bytes(tag, s).len() == 18,
{
}

proof fn lemma_checksum_closes(body: Seq<u8>)
    ensures
        byte_sum(body.push(checksum_byte(body))) % 256 == 0,
{
    assert(body.push(checksum_byte(body)).drop_last() =~= body);
    let x = byte_sum(body);
    assert(x >= 0) by {
        lemma_byte_sum_nonneg(body);
    }
    assert((x + (256 - x % 256) % 256) % 256 == 0) by (nonlinear_arith)
        requires x >= 0;
}

proof fn lemma_byte_sum_nonneg(s: Seq<u8>)
    ensures
        byte_sum(s) >= 0,
    decreases s.len(),
{
    if s.len() > 0 {
        lemma_byte_sum_nonneg(s.drop_last());
    }
}

/// Every block that [`build`] returns is a well-formed EDID 1.4 base block:
/// 128 bytes starting with the fixed 8-byte header, version 1.4 at bytes
/// 18..20, no extension blocks (byte 126), all bytes summing to a multiple
/// of 256, and the instance index stored little-endian as the serial
/// number at bytes 12..16.
pub proof fn edid_block_well_formed(spec: EdidSpec)
    requires
        edid_accepts(spec),
    ensures
        ({
            let b = edid_block(spec, cvt_rb_timing(spec.width, spec.height, spec.refresh_hz));
            &&& b.len() == 128
            &&& b.subrange(0, 8) == edid_header()
            &&& b[18] == 1 && b[19] == 4
            &&& b[126] == 0
            &&& byte_sum(b) % 256 == 0
            &&& b[12] + 256 * b[13] + 65536 * b[14] + 16777216 * b[15] == spec.instance_index
        }),
{
    let t = cvt_rb_timing(spec.width, spec.height, spec.refresh_hz);
    reveal(edid_body);
    lemma_string_descriptor_len(0xfc, product_name_chars(spec.instance_index));
    lemma_string_descriptor_len(0xff, serial_string_chars(spec));
    let body = edid_body(spec, t);
    let b = edid_block(spec, t);
    assert(body.len() == 127);
    assert(b.subrange(0, 8) =~= edid_header());
    lemma_checksum_closes(body);
    let sn = spec.instance_index;
    assert(b[12] == (sn % 256) as u8);
    assert(b[13] == ((sn / 256) % 256) as u8);
    assert(b[14] == ((sn / 65536) % 256) as u8);
    assert(b[15] == (sn / 16777216) as u8);
    assert(sn % 256 + 256 * ((sn / 256) % 256) + 65536 * ((sn / 65536) % 256) + 16777216 * (sn / 16777216) == sn)
        by (nonlinear_arith);
}

} // verus!
