use fauxput::edid::timing::cvt_rb_v1;
use fauxput::edid::{build, EdidSpec};

fn spec_60(w: u32, h: u32) -> EdidSpec {
    EdidSpec {
        width: w,
        height: h,
        refresh_hz: 60,
        instance_index: 0,
    }
}

fn checksum_ok(bytes: &[u8]) -> bool {
    bytes.iter().fold(0u8, |a, b| a.wrapping_add(*b)) == 0
}

#[test]
fn canonical_modes_satisfy_base_block_invariants() {
    for (w, h) in [
        (1920, 1080),
        (1920, 1200),
        (2560, 1440),
        (3840, 2160),
        (3840, 2400),
    ] {
        let bytes = build(&spec_60(w, h)).expect("valid mode");
        assert_eq!(bytes.len(), 128, "{w}x{h}");
        assert_eq!(
            &bytes[0..8],
            &[0x00, 0xff, 0xff, 0xff, 0xff, 0xff, 0xff, 0x00],
            "header magic {w}x{h}"
        );
        assert_eq!(&bytes[18..20], &[0x01, 0x04], "EDID 1.4 version {w}x{h}");
        assert!(checksum_ok(&bytes), "checksum {w}x{h}");
        assert_eq!(bytes[126], 0, "extension count {w}x{h}");
    }
}

#[test]
fn instance_index_appears_in_serial_field() {
    let a = build(&EdidSpec {
        instance_index: 0,
        ..spec_60(1920, 1080)
    })
    .unwrap();
    let b = build(&EdidSpec {
        instance_index: 7,
        ..spec_60(1920, 1080)
    })
    .unwrap();
    assert_eq!(u32::from_le_bytes(a[12..16].try_into().unwrap()), 0);
    assert_eq!(u32::from_le_bytes(b[12..16].try_into().unwrap()), 7);
}

#[test]
fn canonical_modes() {
    let cases = [
        // (W, H, expected pclk_kHz, h_total, v_total, h_pos, v_pos)
        (1920u32, 1080u32, 138_500u32, 2080u32, 1111u32, true, false),
        (1920, 1200, 154_000, 2080, 1235, true, false),
        (2560, 1440, 241_500, 2720, 1481, true, false),
        (3840, 2160, 533_000, 4000, 2222, true, false),
        (3840, 2400, 592_250, 4000, 2469, true, false),
    ];
    for (w, h, pclk, h_tot, v_tot, h_pos, v_pos) in cases {
        let t = cvt_rb_v1(w, h, 60).expect("valid mode");
        assert_eq!(t.h_active, w, "h_active for {w}x{h}");
        assert_eq!(t.v_active, h, "v_active for {w}x{h}");
        assert_eq!(t.h_total(), h_tot, "h_total for {w}x{h}");
        assert_eq!(t.v_total(), v_tot, "v_total for {w}x{h}");
        assert_eq!(t.pixel_clock_khz, pclk, "pclk for {w}x{h}");
        assert_eq!(t.h_sync_positive, h_pos, "h_sync polarity for {w}x{h}");
        assert_eq!(t.v_sync_positive, v_pos, "v_sync polarity for {w}x{h}");

        let h_period_us = t.h_total() as f64 / t.pixel_clock_khz as f64 * 1000.0;
        let v_blank_us = (t.v_total() - t.v_active) as f64 * h_period_us;
        assert!(
            v_blank_us >= 460.0,
            "v_blank {v_blank_us:.1}us for {w}x{h} below CVT-RB minimum"
        );
    }
}

#[test]
fn rejects_invalid_inputs() {
    assert!(cvt_rb_v1(0, 0, 60).is_err());
    assert!(cvt_rb_v1(1920, 1080, 0).is_err());
    assert!(cvt_rb_v1(1920, 1080, 1000).is_err());

    let err = cvt_rb_v1(3840, 2160, 120).unwrap_err();
    let msg = err.message();
    assert!(msg.contains("655350"), "got: {msg}");
}

#[test]
fn invalid_timing_message_names_the_mode() {
    let err = cvt_rb_v1(3840, 2160, 120).unwrap_err();
    assert!(err.message().starts_with("invalid timing for 3840x2160@120Hz: "));
}

#[test]
fn product_name_and_serial_string_descriptors() {
    let bytes = build(&EdidSpec { instance_index: 3, ..spec_60(2560, 1440) }).unwrap();
    // Descriptors sit at 54, 72, 90 and 108; find the product name (0xFC)
    // and serial string (0xFF) ones.
    let mut name = None;
    let mut serial = None;
    for off in [54usize, 72, 90, 108] {
        let d = &bytes[off..off + 18];
        if d[0] == 0 && d[1] == 0 && d[3] == 0xfc {
            name = Some(d[5..18].to_vec());
        }
        if d[0] == 0 && d[1] == 0 && d[3] == 0xff {
            serial = Some(d[5..18].to_vec());
        }
    }
    let name = name.expect("product name descriptor");
    assert!(name.starts_with(b"fauxput-3"));
    let serial = serial.expect("serial string descriptor");
    assert!(serial.starts_with(b"2560x1440@60"));
}

#[test]
fn refresh_in_millihertz_saturates() {
    assert_eq!(spec_60(1920, 1080).refresh_mhz(), 60_000);
    assert_eq!(EdidSpec { refresh_hz: u32::MAX, ..spec_60(1, 1) }.refresh_mhz(), i32::MAX);
}

#[test]
fn too_long_product_name_is_rejected() {
    // "fauxput-100000" does not fit a 13-byte descriptor.
    assert!(build(&EdidSpec { instance_index: 100_000, ..spec_60(1920, 1080) }).is_err());
    assert!(build(&EdidSpec { instance_index: 99_999, ..spec_60(1920, 1080) }).is_ok());
}
