use rota::config::VStr;
use rota::sensor_proxy::{AccelerometerOrientation, LightLevelUnit};

#[test]
fn vstr_indirection_and_literal() {
    assert!(matches!(VStr::from_str("@target"), VStr::Config(s) if s == "target"));
    assert!(matches!(VStr::from_str("hello"), VStr::Value(s) if s == "hello"));
    assert!(matches!(VStr::from_str(""), VStr::Value(s) if s.is_empty()));
    assert!(matches!(VStr::from_str("@"), VStr::Config(s) if s.is_empty()));
    assert!(matches!(VStr::from_str("a@b"), VStr::Value(s) if s == "a@b"));
}

#[test]
fn orientation_values() {
    assert_eq!(AccelerometerOrientation::from_property("normal"), AccelerometerOrientation::Normal);
    assert_eq!(AccelerometerOrientation::from_property("bottom-up"), AccelerometerOrientation::BottomUp);
    assert_eq!(AccelerometerOrientation::from_property("left-up"), AccelerometerOrientation::LeftUp);
    assert_eq!(AccelerometerOrientation::from_property("right-up"), AccelerometerOrientation::RightUp);
    assert_eq!(AccelerometerOrientation::from_property("undefined"), AccelerometerOrientation::Undefined);
    assert_eq!(
        AccelerometerOrientation::from_property("upside-left"),
        AccelerometerOrientation::Unknown("upside-left".to_string())
    );
}

#[test]
fn light_level_units() {
    assert_eq!(LightLevelUnit::from_property("lux"), LightLevelUnit::Lux);
    assert_eq!(LightLevelUnit::from_property("vendor"), LightLevelUnit::Vendor);
    assert_eq!(LightLevelUnit::from_property("candela"), LightLevelUnit::Unknown("candela".to_string()));
}
