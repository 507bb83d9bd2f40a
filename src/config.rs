//! The configuration model: settings, named variables and named actions,
//! as a configuration document describes them.

use vstd::prelude::*;
use vstd::string::StrSliceExecFns;

verus! {

/// A whole configuration document.
pub struct Config {
    pub settings: Settings,
    /// Every `varibles` block, in document order.
    pub varibles: Vec<Variables>,
    /// Every `actions` block, in document order.
    pub actions: Vec<Actions>,
}

pub struct Settings {
    pub default_mode: SettingMode,
    /// Path of the device that reports the tablet-mode switch.
    pub switch: String,
    /// Path of the touchscreen whose calibration follows the rotation.
    pub touchscreen: Option<String>,
}

/// The mode the daemon assumes at start-up.
#[derive(Debug, Clone, Copy, PartialEq, Eq, Structural)]
pub enum SettingMode {
    Laptop,
    Tablet,
}

/// One `varibles` block.
pub struct Variables {
    pub variables: Vec<Variable>,
}

pub struct Variable {
    pub name: String,
    pub value: VStr,
}

/// One `actions` block.
pub struct Actions {
    pub actions: Vec<Action>,
}

/// A named action: the event name and its tasks in declaration order.
pub struct Action {
    pub event: String,
    pub tasks: Vec<Task>,
}

/// A task as written in the configuration.
pub enum Task {
    Action(VStr),
    Cmd(Vec<VStr>),
    Rotation(VStr),
    RotateCalibration(VStr),
}

/// What a `Task` is, as text.
pub enum TaskModel {
    Action(VStrModel),
    Cmd(Seq<VStrModel>),
    Rotation(VStrModel),
    RotateCalibration(VStrModel),
}

impl Task {
    pub open spec fn model(&self) -> TaskModel {
        match self {
            Task::Action(v) => TaskModel::Action(v.model()),
            Task::Cmd(vs) => TaskModel::Cmd(vs@.map_values(|v: VStr| v.model())),
            Task::Rotation(v) => TaskModel::Rotation(v.model()),
            Task::RotateCalibration(v) => TaskModel::RotateCalibration(v.model()),
        }
    }
}

/// A string that is either written out or names a variable (`@name`).
#[derive(Debug)]
pub enum VStr {
    Value(String),
    Config(String),
}

/// What a `VStr` is, as text.
pub enum VStrModel {
    Value(Seq<char>),
    Config(Seq<char>),
}

impl VStr {
    pub open spec fn model(&self) -> VStrModel {
        match self {
            VStr::Value(s) => VStrModel::Value(s@),
            VStr::Config(s) => VStrModel::Config(s@),
        }
    }

    /// How a configuration string is read: a leading `@` marks the name of a
    /// variable, anything else is the value itself.
    pub open spec fn spec_parse(s: Seq<char>) -> VStrModel {
        if s.len() > 0 && s[0] == '@' {
            VStrModel::Config(s.subrange(1, s.len() as int))
        } else {
            VStrModel::Value(s)
        }
    }

    pub fn from_str(s: &str) -> (r: VStr)
        ensures
            r.model() == VStr::spec_parse(s@),
    {
        let n = s.unicode_len();
        if n > 0 && s.get_char(0) == '@' {
            VStr::Config(s.substring_char(1, n).to_owned())
        } else {
            VStr::Value(s.to_owned())
        }
    }
}

} // verus!
