use bevy_pixel_perfect::single::Single;

fn samples() -> Vec<u32> {
    let mut v: Vec<u32> = vec![
        0x0000_0000, 0x8000_0000, 0x0000_0001, 0x8000_0001, 0x007f_ffff, 0x0080_0000,
        0x0080_0001, 0x00ff_ffff, 0x3f80_0000, 0xbf80_0000, 0x3f00_0000, 0x3f7f_ffff,
        0x3f80_0001, 0x4000_0000, 0x4040_0000, 0x4049_0fdb, 0x4b00_0000, 0x4b00_0001,
        0x4aff_ffff, 0x4b7f_ffff, 0x4b80_0000, 0x7f7f_ffff, 0xff7f_ffff, 0x7f80_0000,
        0xff80_0000, 0x7fc0_0000, 0x4380_0000, 0x4300_0000, 0x3e80_0000, 0x3e4c_cccd,
        0xbe99_999a, 0x402c_cccd, 0x0000_0002, 0x0040_0000, 0x3380_0000, 0x7f00_0000,
        0x0100_0000, 0x3fff_ffff, 0x3fc0_0000, 0x4020_0000, 0xc020_0000, 0x3400_0000,
    ];
    // A fixed pseudo-random walk over the patterns.
    let mut x: u32 = 0x1234_5678;
    for _ in 0..400 {
        x ^= x << 13;
        x ^= x >> 17;
        x ^= x << 5;
        v.push(x);
    }
    v
}

fn same(ours: Single, theirs: f32) -> bool {
    if theirs.is_nan() {
        ours.is_nan()
    } else {
        ours.to_bits() == theirs.to_bits()
    }
}

#[test]
fn multiply_agrees_with_the_machine() {
    let v = samples();
    for &a in v.iter() {
        for &b in v.iter() {
            let ours = Single::from_bits(a).multiply(Single::from_bits(b));
            let theirs = f32::from_bits(a) * f32::from_bits(b);
            assert!(same(ours, theirs), "{:#x} * {:#x}: {:#x} vs {:#x}", a, b, ours.to_bits(), theirs.to_bits());
        }
    }
}

#[test]
fn divide_agrees_with_the_machine() {
    let v = samples();
    for &a in v.iter() {
        for &b in v.iter() {
            let ours = Single::from_bits(a).divide(Single::from_bits(b));
            let theirs = f32::from_bits(a) / f32::from_bits(b);
            assert!(same(ours, theirs), "{:#x} / {:#x}: {:#x} vs {:#x}", a, b, ours.to_bits(), theirs.to_bits());
        }
    }
}

#[test]
fn floor_agrees_with_the_machine() {
    for &a in samples().iter() {
        let ours = Single::from_bits(a).floor();
        let theirs = f32::from_bits(a).floor();
        assert!(same(ours, theirs), "floor {:#x}: {:#x} vs {:#x}", a, ours.to_bits(), theirs.to_bits());
    }
}

#[test]
fn comparisons_with_zero_agree_with_the_machine() {
    for &a in samples().iter() {
        let s = Single::from_bits(a);
        let f = f32::from_bits(a);
        assert_eq!(s.is_non_negative(), f >= 0.0);
        assert_eq!(s.is_positive(), f > 0.0);
        assert_eq!(s.is_nan(), f.is_nan());
        assert_eq!(s.is_finite(), f.is_finite());
        assert_eq!(s.is_infinite(), f.is_infinite());
        assert_eq!(s.is_sign_negative(), f.is_sign_negative());
    }
}
