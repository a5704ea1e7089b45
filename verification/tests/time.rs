use clipforge::time::{floor_div, truncating_div, FrameRate, Ticks, FLICKS_PER_SECOND};

fn all_rates() -> [FrameRate; 8] {
    [
        FrameRate::fps_24(),
        FrameRate::fps_23_976(),
        FrameRate::fps_25(),
        FrameRate::fps_30(),
        FrameRate::fps_29_97(),
        FrameRate::fps_50(),
        FrameRate::fps_60(),
        FrameRate::fps_59_94(),
    ]
}

#[test]
fn every_supported_rate_divides_a_second_exactly() {
    for rate in all_rates() {
        assert!(FrameRate::new(rate.numerator(), rate.denominator()).is_some());
        assert_eq!(
            rate.frame_duration().times(i64::from(rate.numerator())),
            Ticks::second().times(i64::from(rate.denominator()))
        );
    }
}

#[test]
fn audio_sample_rates_divide_a_second_exactly() {
    for hz in [44_100_u32, 48_000, 96_000] {
        assert_eq!(FLICKS_PER_SECOND % i64::from(hz), 0);
        assert_eq!(Ticks::from_samples(i64::from(hz), hz), Ticks::second());
    }
}

#[test]
fn rejects_impossible_rates() {
    assert!(FrameRate::new(0, 1).is_none());
    assert!(FrameRate::new(30, 0).is_none());
    assert!(FrameRate::new(13, 1).is_none());
    assert!(FrameRate::new(7, 1).is_some(), "7 divides 705600000");
}

#[test]
fn ntsc_frame_duration_is_exact() {
    assert_eq!(FrameRate::fps_23_976().frame_duration().flicks(), 29_429_400);
    assert_eq!(FrameRate::fps_29_97().frame_duration().flicks(), 23_543_520);
}

#[test]
fn display_formats_as_timecode() {
    assert_eq!(Ticks::zero().to_timecode(), "0:00:00.000");
    assert_eq!(Ticks::from_millis(1_500).to_timecode(), "0:00:01.500");
    assert_eq!(Ticks::from_seconds(3_725).to_timecode(), "1:02:05.000");
    assert_eq!(Ticks::zero().minus(Ticks::from_millis(250)).to_timecode(), "-0:00:00.250");
}

#[test]
fn frames_round_trip_for_every_rate() {
    for rate in all_rates() {
        for frames in [0_i64, 1, 2, 59, 1_000, 999_999] {
            assert_eq!(Ticks::from_frames(frames, rate).to_frames(rate), frames);
            let d = rate.frame_duration().flicks();
            for extra in [1_i64, d / 2, d - 1] {
                let t = Ticks::from_frames(frames, rate).plus(Ticks::from_flicks(extra));
                assert_eq!(t.to_frames(rate), frames, "to_frames floors");
            }
        }
    }
}

#[test]
fn checked_and_saturating_arithmetic() {
    let max = Ticks::max_value();
    assert_eq!(max.checked_add(Ticks::from_flicks(1)), None);
    assert_eq!(max.saturating_add(Ticks::second()), max);
    assert_eq!(Ticks::second().checked_sub(Ticks::second()), Some(Ticks::zero()));
    assert_eq!(Ticks::from_seconds(3).clamp(Ticks::zero(), Ticks::second()), Ticks::second());
    assert_eq!(Ticks::from_seconds(3).min(Ticks::second()), Ticks::second());
    assert_eq!(Ticks::from_seconds(3).max(Ticks::second()), Ticks::from_seconds(3));
    assert!(Ticks::from_flicks(-1).is_negative());
    assert_eq!(Ticks::from_seconds(3).div_by(2), Ticks::from_millis(1_500));
}

#[test]
fn division_helpers_round_as_named() {
    assert_eq!(floor_div(-7, 2), -4);
    assert_eq!(floor_div(7, 2), 3);
    assert_eq!(truncating_div(-7, 2), -3);
    assert_eq!(Ticks::from_flicks(-1).to_frames(FrameRate::fps_30()), -1);
}

#[test]
fn selectable_rates_and_high_rates() {
    assert_eq!(FrameRate::default_rate(), FrameRate::fps_30());
    assert!(FrameRate::fps_50().is_high());
    assert!(!FrameRate::fps_30().is_high());
    assert!(FrameRate::selectable().contains(&FrameRate::fps_25()));
}
