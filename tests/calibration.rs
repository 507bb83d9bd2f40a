use rota::calibration::{calibration_for, calibration_matrix_product, rotation_matrix, RotationMode};

const DEFAULT_ROTATION: [i64; 6] = [1, 0, 0, 0, 1, 0];
const ROTATE_90: [i64; 6] = [0, -1, 1, 1, 0, 0];
const ROTATE_180: [i64; 6] = [-1, 0, 1, 0, -1, 1];
const ROTATE_270: [i64; 6] = [0, 1, 0, -1, 0, 1];

#[test]
fn rotate_matrix() {
    assert_eq!(
        calibration_matrix_product(DEFAULT_ROTATION, DEFAULT_ROTATION),
        DEFAULT_ROTATION
    );
    assert_eq!(
        calibration_matrix_product(DEFAULT_ROTATION, ROTATE_90),
        ROTATE_90
    );
    assert_eq!(
        calibration_matrix_product(DEFAULT_ROTATION, ROTATE_180),
        ROTATE_180
    );
    assert_eq!(
        calibration_matrix_product(DEFAULT_ROTATION, ROTATE_270),
        ROTATE_270
    );
}

#[test]
fn rotation_matrices_by_mode() {
    assert_eq!(rotation_matrix(RotationMode::Normal), DEFAULT_ROTATION);
    assert_eq!(rotation_matrix(RotationMode::Rotate90), ROTATE_90);
    assert_eq!(rotation_matrix(RotationMode::Rotate180), ROTATE_180);
    assert_eq!(rotation_matrix(RotationMode::Rotate270), ROTATE_270);
}

#[test]
fn normal_is_right_identity() {
    let factory = [2, 3, 4, 5, 6, 7];
    assert_eq!(calibration_matrix_product(factory, DEFAULT_ROTATION), factory);
}

#[test]
fn product_exact_value() {
    assert_eq!(
        calibration_for([2, 0, 1, 0, 3, 1], RotationMode::Rotate90),
        [0, -2, 3, 3, 0, 1]
    );
    assert_eq!(
        calibration_matrix_product([1, 2, 3, 4, 5, 6], [7, 8, 9, 10, 11, 12]),
        [27, 30, 36, 78, 87, 102]
    );
}

#[test]
fn magnitude_bound_on_concrete_factory() {
    let factory = [1, -1, 0, 1, 1, 0];
    for mode in [
        RotationMode::Normal,
        RotationMode::Rotate90,
        RotationMode::Rotate180,
        RotationMode::Rotate270,
    ] {
        let m = calibration_for(factory, mode);
        for x in m {
            assert!(x.abs() <= 3);
        }
    }
}
