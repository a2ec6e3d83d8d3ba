use wifi_scanner::color::{signal_color, SignalColor};

#[test]
fn bucket_boundaries_are_inclusive() {
    assert_eq!(signal_color(0), SignalColor::DarkRed);
    assert_eq!(signal_color(20), SignalColor::DarkRed);
    assert_eq!(signal_color(21), SignalColor::Orange);
    assert_eq!(signal_color(50), SignalColor::Orange);
    assert_eq!(signal_color(51), SignalColor::Yellow);
    assert_eq!(signal_color(80), SignalColor::Yellow);
    assert_eq!(signal_color(81), SignalColor::Green);
    assert_eq!(signal_color(100), SignalColor::Green);
}

#[test]
fn out_of_range_signals_are_black() {
    assert_eq!(signal_color(-1), SignalColor::Black);
    assert_eq!(signal_color(101), SignalColor::Black);
    assert_eq!(signal_color(i32::MIN), SignalColor::Black);
    assert_eq!(signal_color(i32::MAX), SignalColor::Black);
}

#[test]
fn example_signals_bucket_as_documented() {
    // 72 is in the yellow bucket, 15 in the dark red one
    assert_eq!(signal_color(72), SignalColor::Yellow);
    assert_eq!(signal_color(15), SignalColor::DarkRed);
}

#[test]
fn rgb_channels_match_the_palette() {
    assert_eq!(SignalColor::DarkRed.rgb(), (139, 0, 0));
    assert_eq!(SignalColor::Orange.rgb(), (255, 165, 0));
    assert_eq!(SignalColor::Yellow.rgb(), (255, 255, 0));
    assert_eq!(SignalColor::Green.rgb(), (0, 255, 0));
    assert_eq!(SignalColor::Black.rgb(), (0, 0, 0));
}
