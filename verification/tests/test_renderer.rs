use fdtd_modem::color::{map_value_to_color, FieldPolarity};

#[test]
fn test_map_value_to_color_zero() {
    let color = map_value_to_color(FieldPolarity::Zero, 0, false);
    // Expect Black: [0, 0, 0, 255]
    assert_eq!(color, [0, 0, 0, 255]);
}

#[test]
fn test_map_value_to_color_positive_max() {
    let color = map_value_to_color(FieldPolarity::Positive, 255, false);
    // Expect Red: [255, 0, 0, 255]
    assert_eq!(color, [255, 0, 0, 255]);
}

#[test]
fn test_map_value_to_color_negative_max() {
    let color = map_value_to_color(FieldPolarity::Negative, 255, false);
    // Expect Blue: [0, 0, 255, 255]
    assert_eq!(color, [0, 0, 255, 255]);
}

#[test]
fn test_map_value_to_color_material_wins() {
    // A conductor renders green whatever the field holds.
    let color = map_value_to_color(FieldPolarity::Positive, 200, true);
    assert_eq!(color, [0, 255, 0, 255]);
}

#[test]
fn test_map_value_to_color_partial_intensity() {
    let color = map_value_to_color(FieldPolarity::Positive, 127, false);
    assert_eq!(color, [127, 0, 0, 255]);
    let color = map_value_to_color(FieldPolarity::Negative, 64, false);
    assert_eq!(color, [0, 0, 64, 255]);
}
