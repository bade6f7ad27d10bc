use pastel::distinct::{color_to_modify, rearrange_order, shift_channel, OptimizationTarget};

#[test]
fn shift_channel_saturates() {
    assert_eq!(shift_channel(100, true, 13), 103);
    assert_eq!(shift_channel(100, false, 13), 97);
    assert_eq!(shift_channel(250, true, 9), 255);
    assert_eq!(shift_channel(4, false, 29), 0);
    assert_eq!(shift_channel(7, true, 10), 7);
    assert_eq!(shift_channel(255, true, 255), 255);
}

#[test]
fn color_to_modify_skips_fixed_colors() {
    assert_eq!(color_to_modify(OptimizationTarget::Mean, 5, (0, 1), 2, true), 5);
    assert_eq!(color_to_modify(OptimizationTarget::Min, 5, (0, 3), 2, true), 3);
    assert_eq!(color_to_modify(OptimizationTarget::Min, 5, (4, 1), 2, false), 4);
    assert_eq!(color_to_modify(OptimizationTarget::Min, 5, (4, 3), 2, true), 4);
    assert_eq!(color_to_modify(OptimizationTarget::Min, 5, (4, 3), 2, false), 3);
}

/// CIELAB lightness of a gray tone, after rounding it to an 8-bit channel.
fn gray_lightness(level: f64) -> f64 {
    let c = (255.0 * level).round() / 255.0;
    let y = if c <= 0.04045 { c / 12.92 } else { ((c + 0.055) / 1.055).powf(2.4) };
    let f = if y > (6.0f64 / 29.0).powi(3) { y.cbrt() } else { y / (3.0 * (6.0f64 / 29.0).powi(2)) + 4.0 / 29.0 };
    116.0 * f - 16.0
}

#[test]
fn test_rearrange_sequence() {
    // white, three gray tones and black; their CIE76 distances are the
    // differences of their lightness
    let levels = [1.0, 0.25, 0.5, 0.8, 0.0];
    let l: Vec<f64> = levels.iter().map(|&v| gray_lightness(v)).collect();
    let dist: Vec<Vec<i32>> = l
        .iter()
        .map(|a| l.iter().map(|b| ((a - b).abs() * 1000.0) as i32).collect())
        .collect();
    // white, black, gray(0.5), gray(0.25), gray(0.8)
    assert_eq!(rearrange_order(&dist), vec![0, 4, 2, 1, 3]);
}

#[test]
fn rearrange_order_breaks_ties_by_position() {
    // colors 1 and 2 are equally far from color 0; the first one is taken
    let dist = vec![vec![0, 5, 5], vec![5, 0, 1], vec![5, 1, 0]];
    assert_eq!(rearrange_order(&dist), vec![0, 1, 2]);
    // color 3 is placed second, its swap moves color 1 to the end; colors 1
    // and 2 then tie, and 2 now stands first
    let dist = vec![
        vec![0, 4, 4, 9],
        vec![4, 0, 1, 4],
        vec![4, 1, 0, 4],
        vec![9, 4, 4, 0],
    ];
    assert_eq!(rearrange_order(&dist), vec![0, 3, 2, 1]);
    assert_eq!(rearrange_order(&Vec::new()), Vec::<usize>::new());
}
