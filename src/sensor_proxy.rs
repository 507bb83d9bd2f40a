//! Values of the sensor service's string properties.

use vstd::prelude::*;

verus! {

/// The `AccelerometerOrientation` property. Values that the service may
/// add later are kept as `Unknown`.
#[derive(Debug, PartialEq)]
pub enum AccelerometerOrientation {
    Undefined,
    Normal,
    BottomUp,
    LeftUp,
    RightUp,
    Unknown(String),
}

/// The `LightLevelUnit` property.
#[derive(Debug, PartialEq)]
pub enum LightLevelUnit {
    Lux,
    Vendor,
    Unknown(String),
}

impl AccelerometerOrientation {
    /// Reads the property's string value.
    pub fn from_property(s: &str) -> (r: AccelerometerOrientation)
        ensures
            s@ == "normal"@ ==> r == AccelerometerOrientation::Normal,
            s@ == "bottom-up"@ ==> r == AccelerometerOrientation::BottomUp,
            s@ == "left-up"@ ==> r == AccelerometerOrientation::LeftUp,
            s@ == "right-up"@ ==> r == AccelerometerOrientation::RightUp,
            s@ == "undefined"@ ==> r == AccelerometerOrientation::Undefined,
            s@ != "normal"@ && s@ != "bottom-up"@ && s@ != "left-up"@ && s@ != "right-up"@ && s@
                != "undefined"@ ==> r is Unknown && r->Unknown_0@ == s@,
    {
        proof {
            reveal_strlit("normal");
            reveal_strlit("bottom-up");
            reveal_strlit("left-up");
            reveal_strlit("right-up");
            reveal_strlit("undefined");
            assert("normal"@[0] == 'n' && "bottom-up"@[0] == 'b' && "left-up"@[0] == 'l');
            assert("right-up"@[0] == 'r' && "undefined"@[0] == 'u');
        }
        let t = s.to_owned();
        if t.eq(&"normal".to_owned()) {
            AccelerometerOrientation::Normal
        } else if t.eq(&"bottom-up".to_owned()) {
            AccelerometerOrientation::BottomUp
        } else if t.eq(&"left-up".to_owned()) {
            AccelerometerOrientation::LeftUp
        } else if t.eq(&"right-up".to_owned()) {
            AccelerometerOrientation::RightUp
        } else if t.eq(&"undefined".to_owned()) {
            AccelerometerOrientation::Undefined
        } else {
            AccelerometerOrientation::Unknown(t)
        }
    }
}

impl LightLevelUnit {
    /// Reads the property's string value.
    pub fn from_property(s: &str) -> (r: LightLevelUnit)
        ensures
            s@ == "lux"@ ==> r == LightLevelUnit::Lux,
            s@ == "vendor"@ ==> r == LightLevelUnit::Vendor,
            s@ != "lux"@ && s@ != "vendor"@ ==> r is Unknown && r->Unknown_0@ == s@,
    {
        proof {
            reveal_strlit("lux");
            reveal_strlit("vendor");
            assert("lux"@[0] == 'l' && "vendor"@[0] == 'v');
        }
        let t = s.to_owned();
        if t.eq(&"lux".to_owned()) {
            LightLevelUnit::Lux
        } else if t.eq(&"vendor".to_owned()) {
            LightLevelUnit::Vendor
        } else {
            LightLevelUnit::Unknown(t)
        }
    }
}

} // verus!
