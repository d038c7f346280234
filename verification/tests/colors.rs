use dotsnotbots::color::assign_color;

#[test]
fn primary_hues() {
    // saturation one half, value one: full channel 255, base channel 128
    assert_eq!(assign_color(0), "#FF8080");
    assert_eq!(assign_color(60), "#FFFF80");
    assert_eq!(assign_color(120), "#80FF80");
    assert_eq!(assign_color(180), "#80FFFF");
    assert_eq!(assign_color(240), "#8080FF");
    assert_eq!(assign_color(300), "#FF80FF");
}

#[test]
fn a_ramping_hue() {
    // 30 degrees into the first segment: green is 128 + 127 * 30 / 60 = 191
    assert_eq!(assign_color(30), "#FFBF80");
}

#[test]
fn hues_wrap_around_the_wheel() {
    assert_eq!(assign_color(360), assign_color(0));
    assert_eq!(assign_color(475), assign_color(115));
}

#[test]
fn every_sampled_hue_gives_a_well_formed_color() {
    for hue in 0..360u32 {
        let c = assign_color(hue);
        let b = c.as_bytes();
        assert_eq!(b.len(), 7);
        assert_eq!(b[0], b'#');
        assert!(b[1..]
            .iter()
            .all(|d| d.is_ascii_digit() || (b'A'..=b'F').contains(d)));
    }
}
