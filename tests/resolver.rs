use rota::calibration::RotationMode;
use rota::config::{Action, Actions, Config, SettingMode, Settings, Task, VStr, Variable, Variables};
use rota::resolver::{ActionId, CompiledTask, ResolveError, RuntimeHelper};
use rota::runtime::{Effect, Runtime};
use rota::sensor_proxy::AccelerometerOrientation;

fn v(s: &str) -> VStr {
    VStr::from_str(s)
}

fn cmd(args: &[&str]) -> Task {
    Task::Cmd(args.iter().map(|a| v(a)).collect())
}

fn action(name: &str, tasks: Vec<Task>) -> Action {
    Action { event: name.to_string(), tasks }
}

fn config(
    mode: SettingMode,
    touchscreen: Option<&str>,
    vars: Vec<(&str, &str)>,
    actions: Vec<Action>,
) -> Config {
    Config {
        settings: Settings {
            default_mode: mode,
            switch: "/dev/input/event1".to_string(),
            touchscreen: touchscreen.map(|s| s.to_string()),
        },
        varibles: vec![Variables {
            variables: vars
                .into_iter()
                .map(|(n, b)| Variable { name: n.to_string(), value: v(b) })
                .collect(),
        }],
        actions: vec![Actions { actions }],
    }
}

fn commands(e: Effect) -> Vec<Vec<String>> {
    match e {
        Effect::RunCommands(c) => c,
        other => panic!("expected commands, got {:?}", other),
    }
}

fn strs(v: &[&str]) -> Vec<String> {
    v.iter().map(|s| s.to_string()).collect()
}

#[test]
fn default_laptop_boot_runs_once() {
    let con = config(SettingMode::Laptop, None, vec![], vec![action("on-mode-laptop", vec![cmd(&["echo", "L"])])]);
    let mut rt = Runtime::new(con).unwrap();
    assert_eq!(commands(rt.next_effect()), vec![strs(&["echo", "L"])]);
    assert!(matches!(rt.next_effect(), Effect::Idle));
}

#[test]
fn unbound_default_hook_queues_nothing() {
    let con = config(SettingMode::Tablet, None, vec![], vec![action("on-mode-laptop", vec![cmd(&["echo", "L"])])]);
    let mut rt = Runtime::new(con).unwrap();
    assert!(rt.on_mode_tablet.is_none());
    assert!(matches!(rt.next_effect(), Effect::Idle));
}

#[test]
fn switch_toggle_runs_tablet_hook_in_order() {
    let con = config(
        SettingMode::Tablet,
        None,
        vec![],
        vec![
            action("on-mode-tablet", vec![cmd(&["echo", "1"]), cmd(&["echo", "2"])]),
            action("on-mode-laptop", vec![cmd(&["echo", "L"])]),
        ],
    );
    let mut rt = Runtime::new(con).unwrap();
    assert_eq!(commands(rt.next_effect()), vec![strs(&["echo", "1"]), strs(&["echo", "2"])]);
    assert!(matches!(rt.next_effect(), Effect::Idle));
    rt.on_switch_toggle(true, true);
    assert_eq!(commands(rt.next_effect()), vec![strs(&["echo", "1"]), strs(&["echo", "2"])]);
    rt.on_switch_toggle(true, false);
    assert_eq!(commands(rt.next_effect()), vec![strs(&["echo", "L"])]);
    assert!(matches!(rt.next_effect(), Effect::Idle));
}

#[test]
fn non_tablet_switch_is_ignored() {
    let con = config(SettingMode::Tablet, None, vec![], vec![action("on-mode-laptop", vec![cmd(&["echo", "L"])])]);
    let mut rt = Runtime::new(con).unwrap();
    rt.on_switch_toggle(false, false);
    rt.on_switch_toggle(false, true);
    assert!(matches!(rt.next_effect(), Effect::Idle));
}

fn rotation_config() -> Config {
    config(
        SettingMode::Laptop,
        Some("/dev/input/event5"),
        vec![],
        vec![
            action(
                "on-rotate-left-up",
                vec![Task::Rotation(v("enable")), Task::RotateCalibration(v("rotate90"))],
            ),
            action(
                "on-rotate-normal",
                vec![Task::Rotation(v("disable")), Task::RotateCalibration(v("normal"))],
            ),
        ],
    )
}

#[test]
fn rotation_to_left_up_claims_and_calibrates() {
    let mut rt = Runtime::new(rotation_config()).unwrap();
    rt.on_orientation(&AccelerometerOrientation::Normal);
    assert!(matches!(rt.next_effect(), Effect::Idle));
    rt.on_orientation(&AccelerometerOrientation::LeftUp);
    assert!(commands(rt.next_effect()).is_empty());
    assert!(matches!(rt.next_effect(), Effect::ClaimAccelerometer));
    assert!(matches!(rt.next_effect(), Effect::SetCalibration(RotationMode::Rotate90)));
    assert!(matches!(rt.next_effect(), Effect::Idle));
}

#[test]
fn rotation_disable_releases_and_resets() {
    let mut rt = Runtime::new(rotation_config()).unwrap();
    rt.on_orientation(&AccelerometerOrientation::Undefined);
    rt.on_orientation(&AccelerometerOrientation::LeftUp);
    while !matches!(rt.next_effect(), Effect::Idle) {}
    rt.on_orientation(&AccelerometerOrientation::Normal);
    assert!(commands(rt.next_effect()).is_empty());
    assert!(matches!(rt.next_effect(), Effect::ReleaseAccelerometer));
    assert!(matches!(rt.next_effect(), Effect::SetCalibration(RotationMode::Normal)));
    assert!(matches!(rt.next_effect(), Effect::Idle));
}

#[test]
fn first_orientation_value_is_dropped() {
    let mut rt = Runtime::new(rotation_config()).unwrap();
    rt.on_orientation(&AccelerometerOrientation::LeftUp);
    assert!(matches!(rt.next_effect(), Effect::Idle));
    rt.on_orientation(&AccelerometerOrientation::Unknown("sideways".to_string()));
    assert!(matches!(rt.next_effect(), Effect::Idle));
}

#[test]
fn same_value_written_twice_fires_once() {
    let con = config(
        SettingMode::Laptop,
        None,
        vec![],
        vec![action("on-mode-laptop", vec![Task::Rotation(v("enable")), Task::Rotation(v("enable"))])],
    );
    let mut rt = Runtime::new(con).unwrap();
    assert!(commands(rt.next_effect()).is_empty());
    assert!(matches!(rt.next_effect(), Effect::ClaimAccelerometer));
    assert!(matches!(rt.next_effect(), Effect::Idle));
}

#[test]
fn variable_indirection() {
    let con = config(
        SettingMode::Laptop,
        None,
        vec![("greet", "@target"), ("target", "hello")],
        vec![action("on-mode-laptop", vec![cmd(&["echo", "@greet"])])],
    );
    let mut rt = Runtime::new(con).unwrap();
    assert_eq!(commands(rt.next_effect()), vec![strs(&["echo", "hello"])]);
}

#[test]
fn self_referential_action_resolves() {
    let con = config(
        SettingMode::Laptop,
        None,
        vec![],
        vec![action("on-mode-tablet", vec![Task::Action(v("on-mode-tablet"))])],
    );
    let mut rt = Runtime::new(con).unwrap();
    let id = rt.on_mode_tablet.unwrap();
    assert_eq!(id, ActionId(0));
    assert!(matches!(rt.actions[0].as_slice(), [CompiledTask::Action(ActionId(0))]));
    rt.on_switch_toggle(true, true);
    assert!(commands(rt.next_effect()).is_empty());
    assert_eq!(rt.state.queue, vec![ActionId(0)]);
}

#[test]
fn referenced_action_gets_next_id_and_runs_later() {
    let con = config(
        SettingMode::Laptop,
        None,
        vec![],
        vec![
            action("on-mode-laptop", vec![Task::Action(v("b")), cmd(&["x"])]),
            action("b", vec![cmd(&["y"])]),
        ],
    );
    let mut rt = Runtime::new(con).unwrap();
    assert_eq!(rt.on_mode_laptop, Some(ActionId(0)));
    assert_eq!(rt.action_names, strs(&["on-mode-laptop", "b"]));
    assert_eq!(commands(rt.next_effect()), vec![strs(&["x"])]);
    assert_eq!(commands(rt.next_effect()), vec![strs(&["y"])]);
}

#[test]
fn missing_variable_is_an_error() {
    let con = config(SettingMode::Laptop, None, vec![], vec![action("on-mode-laptop", vec![cmd(&["@nope"])])]);
    assert!(matches!(Runtime::new(con), Err(ResolveError::MissingVariable(n)) if n == "nope"));
}

#[test]
fn variable_cycle_is_an_error() {
    let con = config(
        SettingMode::Laptop,
        None,
        vec![("a", "@b"), ("b", "@a")],
        vec![action("on-mode-laptop", vec![cmd(&["@a"])])],
    );
    assert!(matches!(Runtime::new(con), Err(ResolveError::VariableCycle(_))));
}

#[test]
fn missing_action_is_an_error() {
    let con = config(SettingMode::Laptop, None, vec![], vec![action("on-mode-laptop", vec![Task::Action(v("ghost"))])]);
    assert!(matches!(Runtime::new(con), Err(ResolveError::MissingAction(n)) if n == "ghost"));
}

#[test]
fn invalid_rotation_is_an_error() {
    let con = config(SettingMode::Laptop, None, vec![], vec![action("on-mode-laptop", vec![Task::Rotation(v("on"))])]);
    assert!(matches!(Runtime::new(con), Err(ResolveError::InvalidRotation(n)) if n == "on"));
}

#[test]
fn invalid_calibration_is_an_error() {
    let con = config(
        SettingMode::Laptop,
        None,
        vec![],
        vec![action("on-mode-laptop", vec![Task::RotateCalibration(v("rotate45"))])],
    );
    assert!(matches!(Runtime::new(con), Err(ResolveError::InvalidCalibration(n)) if n == "rotate45"));
}

#[test]
fn empty_command_is_an_error() {
    let con = config(SettingMode::Laptop, None, vec![], vec![action("on-mode-laptop", vec![cmd(&[])])]);
    assert!(matches!(Runtime::new(con), Err(ResolveError::EmptyCommand)));
}

#[test]
fn later_variable_shadows_earlier() {
    let con = config(SettingMode::Laptop, None, vec![("x", "one"), ("x", "two")], vec![]);
    let helper = RuntimeHelper::new(con);
    assert_eq!(helper.get_variable("x").unwrap(), "two");
    assert_eq!(helper.resolve_vstr(v("literal")).unwrap(), "literal");
}

#[test]
fn get_action_absent_and_repeated() {
    let con = config(SettingMode::Laptop, None, vec![], vec![action("a", vec![cmd(&["t"])])]);
    let mut helper = RuntimeHelper::new(con);
    assert!(helper.get_action("missing").is_none());
    assert_eq!(helper.get_action("a").unwrap().unwrap(), ActionId(0));
    assert_eq!(helper.get_action("a").unwrap().unwrap(), ActionId(0));
    assert_eq!(helper.runtime_actions.len(), 1);
    let t = helper.resolve_task(Task::Rotation(v("disable"))).unwrap();
    assert!(matches!(t, CompiledTask::Rotation(false)));
}

#[test]
fn long_acyclic_chain_resolves() {
    let con = config(
        SettingMode::Laptop,
        None,
        vec![("a", "@b"), ("b", "@c"), ("c", "@d"), ("d", "@e"), ("e", "end")],
        vec![],
    );
    let helper = RuntimeHelper::new(con);
    assert_eq!(helper.get_variable("a").unwrap(), "end");
    assert!(matches!(helper.get_variable("z"), Err(ResolveError::MissingVariable(n)) if n == "z"));
}

#[test]
fn blocks_are_concatenated_and_later_definitions_win() {
    let mut con = config(SettingMode::Laptop, None, vec![], vec![action("on-mode-laptop", vec![cmd(&["old"])])]);
    con.actions.push(Actions { actions: vec![action("on-mode-laptop", vec![cmd(&["new", "@v"])])] });
    con.varibles.push(Variables { variables: vec![Variable { name: "v".to_string(), value: v("x") }] });
    let mut rt = Runtime::new(con).unwrap();
    assert_eq!(commands(rt.next_effect()), vec![strs(&["new", "x"])]);
    assert_eq!(rt.actions.len(), 1);
}

#[test]
fn compiled_name_leaves_pending_definitions() {
    let mut con = config(SettingMode::Laptop, None, vec![], vec![action("a", vec![cmd(&["one"])])]);
    con.actions.push(Actions { actions: vec![action("a", vec![cmd(&["two"])]), action("b", vec![])] });
    let mut helper = RuntimeHelper::new(con);
    assert_eq!(helper.get_action("a").unwrap().unwrap(), ActionId(0));
    assert!(helper.actions.iter().all(|(n, _)| n != "a"));
    assert_eq!(helper.actions.len(), 1);
    assert!(matches!(helper.runtime_actions[0].as_slice(), [CompiledTask::Cmd(args)] if args == &strs(&["two"])));
}

#[test]
fn has_pending_tracks_work() {
    let con = config(SettingMode::Laptop, None, vec![], vec![action("on-mode-laptop", vec![cmd(&["echo", "L"])])]);
    let mut rt = Runtime::new(con).unwrap();
    assert!(rt.has_pending());
    rt.next_effect();
    assert!(!rt.has_pending());
}
