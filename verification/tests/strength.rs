use polycons::line::Line;

#[test]
fn test_strength_alpha_halfway() {
    let strength = 50;
    let max = 100;
    let threshold = 100;

    let expected = Some((255 / 2) as u8);

    let actual = Line::strength_alpha(strength, max, threshold);

    assert_eq!(actual, expected)
}

#[test]
fn test_strength_alpha_upper_quarter() {
    let strength = 75;
    let max = 100;
    let threshold = 100;

    let expected = Some((255 / 4) as u8);

    let actual = Line::strength_alpha(strength, max, threshold);

    assert_eq!(actual, expected)
}

#[test]
fn test_strength_alpha_lower_quarter() {
    let strength = 25;
    let max = 100;
    let threshold = 100;

    let expected = Some((255 * 3 / 4) as u8);

    let actual = Line::strength_alpha(strength, max, threshold);

    assert_eq!(actual, expected)
}

#[test]
fn test_strength_alpha_upper_edge() {
    let strength = 100;
    let max = 100;
    let threshold = 100;

    let expected = None;

    let actual = Line::strength_alpha(strength, max, threshold);

    assert_eq!(actual, expected)
}

#[test]
fn test_strength_alpha_lower_edge() {
    let strength = 0;
    let max = 100;
    let threshold = 100;

    let expected = Some(255u8);

    let actual = Line::strength_alpha(strength, max, threshold);

    assert_eq!(actual, expected)
}

#[test]
fn test_strength_alpha_above_threshold() {
    let strength = 150;
    let max = 100;
    let threshold = 100;

    let expected = None; // Should be above threshold

    let actual = Line::strength_alpha(strength, max, threshold);

    assert_eq!(actual, expected)
}

#[test]
fn strength_alpha_negative_distance_clamps_to_full() {
    assert_eq!(Line::strength_alpha(-30, 100, 100), Some(255));
}

#[test]
fn strength_alpha_just_below_threshold_can_vanish() {
    // 999 of 1000: adjusted = 1, scaled = 255 / 1000 = 0, which is "no line".
    assert_eq!(Line::strength_alpha(999, 1000, 1000), None);
}

#[test]
fn strength_alpha_does_not_depend_on_max() {
    // The rescale by 255 / max cancels the max factor in the falloff exactly,
    // so max never shifts the result.
    assert_eq!(Line::strength_alpha(50, 50, 100), Some(127));
    assert_eq!(Line::strength_alpha(50, 100, 100), Some(127));
    assert_eq!(Line::strength_alpha(500, 1, 1000), Some(127));
    assert_eq!(Line::strength_alpha(0, 7, 100), Some(255));
}

#[test]
fn strength_alpha_truncates_once_at_the_final_cast() {
    // One unit short of a 300-unit threshold is under one part in 255: no
    // line, whatever max is.
    assert_eq!(Line::strength_alpha(299, 2, 300), None);
    // 255 * (120 - 50) / 120 truncates to 148, not via an intermediate step.
    assert_eq!(Line::strength_alpha(50, 100, 120), Some(148));
}
