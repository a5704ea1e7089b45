use clipforge::settings::{Aspect, Resolution};

#[test]
fn dimensions_follow_aspect() {
    assert_eq!(Resolution::FullHd.dimensions(Aspect::Landscape16x9), (1920, 1080));
    assert_eq!(Resolution::FullHd.dimensions(Aspect::Portrait9x16), (1080, 1920));
    assert_eq!(Resolution::Uhd4k.dimensions(Aspect::Landscape16x9), (3840, 2160));
    assert_eq!(Resolution::Uhd4k.dimensions(Aspect::Portrait9x16), (2160, 3840));
}

#[test]
fn dimensions_are_even_and_match_ratio() {
    for res in [Resolution::FullHd, Resolution::Uhd4k] {
        for aspect in [Aspect::Landscape16x9, Aspect::Portrait9x16] {
            let (w, h) = res.dimensions(aspect);
            assert_eq!(w % 2, 0);
            assert_eq!(h % 2, 0);
            let (rw, rh) = aspect.ratio_parts();
            assert_eq!(u64::from(w) * u64::from(rh), u64::from(h) * u64::from(rw));
            let ratio = f64::from(rw) / f64::from(rh);
            assert!((f64::from(w) / f64::from(h) - ratio).abs() < 1e-9);
        }
    }
}

#[test]
fn portrait_is_only_the_tall_aspect() {
    assert!(Aspect::Portrait9x16.is_portrait());
    assert!(!Aspect::Landscape16x9.is_portrait());
    assert_eq!(Aspect::default(), Aspect::Landscape16x9);
    assert_eq!(Resolution::default(), Resolution::FullHd);
}
