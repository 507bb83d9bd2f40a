//! The decisions of the event loop: which actions are queued on each event,
//! what running an action does, and which effect comes next. Performing the
//! effects (running commands, calling the sensor service, writing the
//! touchscreen calibration) is left to the caller, which hands the events
//! back.

use vstd::prelude::*;
use crate::calibration::RotationMode;
use crate::config::{Config, SettingMode, TaskModel};
use crate::resolver::{
    action_compiles, action_valid, config_actions, task_ok_in, config_vars, last_def, last_index,
    lemma_action_compiles_grow, lemma_last_index_bounds, task_valid, ActionId, CompiledTask,
    ResolveError, RuntimeHelper,
};
use crate::sensor_proxy::AccelerometerOrientation;

verus! {

/// What the loop does next.
#[derive(Debug)]
pub enum Effect {
    /// Nothing is pending: wait for an input or orientation event.
    Idle,
    /// Run these commands, each to completion, in order: program, then
    /// arguments.
    RunCommands(Vec<Vec<String>>),
    ClaimAccelerometer,
    ReleaseAccelerometer,
    /// Set the touchscreen calibration to the factory matrix composed with
    /// this rotation.
    SetCalibration(RotationMode),
}

pub open spec fn hook_seq(h: Option<ActionId>) -> Seq<ActionId> {
    match h {
        Some(id) => seq![id],
        None => seq![],
    }
}

pub open spec fn hook_valid(h: Option<ActionId>, n: nat) -> bool {
    h is Some ==> h->Some_0.0 < n
}

pub open spec fn strings(v: Vec<String>) -> Seq<Seq<char>> {
    v@.map_values(|s: String| s@)
}

/// The actions that running `tasks` queues, in order.
pub open spec fn queued(tasks: Seq<CompiledTask>) -> Seq<ActionId>
    decreases tasks.len(),
{
    if tasks.len() == 0 {
        seq![]
    } else {
        match tasks.last() {
            CompiledTask::Action(id) => queued(tasks.drop_last()).push(id),
            _ => queued(tasks.drop_last()),
        }
    }
}

/// The commands that running `tasks` spawns, in order.
pub open spec fn commands(tasks: Seq<CompiledTask>) -> Seq<Seq<Seq<char>>>
    decreases tasks.len(),
{
    if tasks.len() == 0 {
        seq![]
    } else {
        match tasks.last() {
            CompiledTask::Cmd(args) => commands(tasks.drop_last()).push(strings(args)),
            _ => commands(tasks.drop_last()),
        }
    }
}

/// Whether rotation is enabled after running `tasks` from `init`.
pub open spec fn rotation_after(tasks: Seq<CompiledTask>, init: bool) -> bool
    decreases tasks.len(),
{
    if tasks.len() == 0 {
        init
    } else {
        match tasks.last() {
            CompiledTask::Rotation(b) => b,
            _ => rotation_after(tasks.drop_last(), init),
        }
    }
}

/// The calibration mode after running `tasks` from `init`.
pub open spec fn calibration_after(tasks: Seq<CompiledTask>, init: RotationMode) -> RotationMode
    decreases tasks.len(),
{
    if tasks.len() == 0 {
        init
    } else {
        match tasks.last() {
            CompiledTask::RotateCalibration(m) => m,
            _ => calibration_after(tasks.drop_last(), init),
        }
    }
}

/// Running one more task extends what running the tasks before it did.
pub proof fn lemma_run_step(pre: Seq<CompiledTask>, t: CompiledTask, rot: bool, cal: RotationMode)
    ensures
        queued(pre.push(t)) == queued(pre) + queued(seq![t]),
        commands(pre.push(t)) == commands(pre) + commands(seq![t]),
        rotation_after(pre.push(t), rot) == rotation_after(seq![t], rotation_after(pre, rot)),
        calibration_after(pre.push(t), cal) == calibration_after(
            seq![t],
            calibration_after(pre, cal),
        ),
{
    let one = seq![t];
    let none = Seq::<CompiledTask>::empty();
    assert(pre.push(t).drop_last() =~= pre);
    assert(one.drop_last() =~= none);
    assert(queued(none) =~= Seq::<ActionId>::empty());
    assert(commands(none) =~= Seq::<Seq<Seq<char>>>::empty());
    assert(queued(pre.push(t)) =~= queued(pre) + queued(one));
    assert(commands(pre.push(t)) =~= commands(pre) + commands(one));
    assert(pre.push(t).last() == t && one.last() == t);
    let r0 = rotation_after(pre, rot);
    let c0 = calibration_after(pre, cal);
    assert(rotation_after(none, r0) == r0);
    assert(calibration_after(none, c0) == c0);
}

/// The event names of the actions that a configuration defines.
pub open spec fn defined_events(con: Config) -> Seq<Seq<char>> {
    config_actions(con).map_values(|p: (Seq<char>, Seq<TaskModel>)| p.0)
}

/// Every task of every action definition compiles under the variables of
/// the configuration, and each action it refers to is defined.
pub open spec fn config_ok(con: Config) -> bool {
    let defs = config_actions(con);
    forall|i: int, j: int|
        0 <= i < defs.len() && 0 <= j < defs[i].1.len() ==> task_ok_in(
            config_vars(con),
            Seq::empty(),
            defined_events(con),
            #[trigger] defs[i].1[j],
        )
}

/// `h`, where it is set, is the id of the action named `label`.
pub open spec fn names_hook(h: Option<ActionId>, names: Seq<Seq<char>>, label: Seq<char>) -> bool {
    h is Some ==> h->Some_0.0 < names.len() && names[h->Some_0.0 as int] == label
}

pub proof fn lemma_names_hook_grow(
    h: Option<ActionId>,
    a: RuntimeHelper,
    b: RuntimeHelper,
    label: Seq<char>,
)
    requires
        names_hook(h, a.names(), label),
        b.grows_from(a),
    ensures
        names_hook(h, b.names(), label),
{
    if h is Some {
        let k = h->Some_0.0 as int;
        assert(b.names().subrange(0, a.names().len() as int)[k] == b.names()[k]);
    }
}

/// Compiled actions stay compiled as the table grows.
proof fn lemma_compiled_prefix(a: RuntimeHelper, b: RuntimeHelper)
    requires
        a.wf(),
        b.wf(),
        b.grows_from(a),
        forall|x: int| 0 <= x < a.names().len() ==> #[trigger] a.compiled_at(x),
    ensures
        forall|x: int| 0 <= x < a.names().len() ==> #[trigger] b.compiled_at(x),
{
    assert forall|x: int| 0 <= x < a.names().len() implies #[trigger] b.compiled_at(x) by {
        assert(a.compiled_at(x));
        assert(b.runtime_actions@[x] == a.runtime_actions@[x]);
        assert(b.defs@[x] == a.defs@[x]);
        lemma_action_compiles_grow(
            a.vars(),
            a.names(),
            b.names(),
            a.defs@[x],
            a.runtime_actions@[x]@,
        );
    }
}

/// A hook is unset exactly where the configuration has no action of its
/// name.
proof fn lemma_hook_defined(
    h: Option<ActionId>,
    h0: RuntimeHelper,
    before: RuntimeHelper,
    after: RuntimeHelper,
    label: Seq<char>,
)
    requires
        h0.names().len() == 0,
        before.grows_from(h0),
        names_hook(h, after.names(), label),
        h is None ==> !before.names().contains(label) && !before.pending_keys().contains(label),
        h is Some ==> before.names().contains(label) || before.pending_keys().contains(label),
    ensures
        h is None <==> !h0.pending_keys().contains(label),
{
    if h is Some {
        if before.names().contains(label) {
            assert(!h0.names().contains(label));
        }
    }
}

/// The id of the hook named `name`, compiling its action; `None` where no
/// action of that name is defined.
fn hook(helper: &mut RuntimeHelper, name: &str) -> (r: Result<Option<ActionId>, ResolveError>)
    requires
        old(helper).wf(),
    ensures
        final(helper).wf(),
        final(helper).grows_from(*old(helper)),
        r is Ok ==> names_hook(r->Ok_0, final(helper).names(), name@),
        old(helper).pending_ok() ==> r is Ok,
        r is Ok ==> forall|x: int|
            old(helper).names().len() <= x < final(helper).names().len() ==> #[trigger] final(helper).compiled_at(x),
        r is Ok && r->Ok_0 is None ==> !old(helper).names().contains(name@)
            && !old(helper).pending_keys().contains(name@),
        r is Ok && r->Ok_0 is Some ==> old(helper).names().contains(name@) || old(
            helper,
        ).pending_keys().contains(name@),
{
    proof {
        lemma_last_index_bounds(helper.pending_keys(), name@);
    }
    match helper.get_action(name) {
        None => Ok(None),
        Some(Ok(id)) => {
            proof {
                let n = old(helper).names();
                if n.contains(name@) {
                    let j = n.index_of(name@);
                    assert(n[j] == name@);
                }
            }
            Ok(Some(id))
        },
        Some(Err(e)) => Err(e),
    }
}

/// The state of the event loop.
///
/// `rotation` and `calibration` are the values last written by a task;
/// `rotation_applied` and `calibration_applied` those last handed to the
/// effect handlers. A handler runs only where the two differ, so it sees
/// the latest value and nothing in between.
pub struct LoopState {
    /// The actions waiting to run, first in first out.
    pub queue: Vec<ActionId>,
    pub rotation: bool,
    pub rotation_applied: bool,
    pub calibration: RotationMode,
    pub calibration_applied: RotationMode,
    /// Whether the orientation property has given its first value.
    pub orientation_seen: bool,
    /// How many claims of the accelerometer were handed out.
    pub claims: Ghost<nat>,
    /// How many releases of the accelerometer were handed out.
    pub releases: Ghost<nat>,
}

impl LoopState {
    /// Every queued id is one of `n` actions, and each claim handed out is
    /// matched by a release, but for one while rotation is enabled.
    pub open spec fn wf(&self, n: nat) -> bool {
        &&& forall|i: int| 0 <= i < self.queue@.len() ==> (#[trigger] self.queue@[i]).0 < n
        &&& self.claims@ == self.releases@ + (if self.rotation_applied {
            1nat
        } else {
            0nat
        })
    }

    /// The same but for the queue.
    pub open spec fn same_but_queue(&self, o: &LoopState) -> bool {
        &&& self.rotation == o.rotation
        &&& self.rotation_applied == o.rotation_applied
        &&& self.calibration == o.calibration
        &&& self.calibration_applied == o.calibration_applied
        &&& self.orientation_seen == o.orientation_seen
        &&& self.claims == o.claims
        &&& self.releases == o.releases
    }

    pub fn new() -> (r: LoopState)
        ensures
            r.wf(0),
            r.queue@.len() == 0,
            !r.rotation && !r.rotation_applied && !r.orientation_seen,
            r.calibration == RotationMode::Normal,
            r.calibration_applied == RotationMode::Normal,
            r.claims@ == 0 && r.releases@ == 0,
    {
        LoopState {
            queue: Vec::new(),
            rotation: false,
            rotation_applied: false,
            calibration: RotationMode::Normal,
            calibration_applied: RotationMode::Normal,
            orientation_seen: false,
            claims: Ghost(0),
            releases: Ghost(0),
        }
    }

    pub fn enqueue(&mut self, h: Option<ActionId>, n: usize)
        requires
            old(self).wf(n as nat),
            hook_valid(h, n as nat),
        ensures
            final(self).wf(n as nat),
            final(self).same_but_queue(old(self)),
            final(self).queue@ == old(self).queue@ + hook_seq(h),
    {
        match h {
            Some(id) => {
                self.queue.push(id);
            },
            None => {},
        }
        assert(self.queue@ =~= old(self).queue@ + hook_seq(h));
    }

    fn copy_strings(v: &Vec<String>) -> (r: Vec<String>)
        ensures
            strings(r) == strings(*v),
    {
        let mut r: Vec<String> = Vec::new();
        let mut i: usize = 0;
        while i < v.len()
            invariant
                i <= v@.len(),
                strings(r) == strings(*v).subrange(0, i as int),
            decreases v@.len() - i,
        {
            let ghost before = r@;
            assert(strings(r).len() == before.len());
            assert(before.len() == i);
            let x: String = v[i].clone();
            assert(x@ == v@[i as int]@);
            r.push(x);
            assert(r@ == before.push(x));
            assert(strings(r).len() == i + 1);
            assert forall|j: int| 0 <= j < i + 1 implies strings(r)[j] == strings(*v)[j] by {
                if j < i {
                    assert(strings(r)[j] == before.map_values(|s: String| s@)[j]);
                }
            }
            i = i + 1;
            assert(strings(r) =~= strings(*v).subrange(0, i as int));
        }
        assert(strings(*v).subrange(0, i as int) =~= strings(*v));
        r
    }

    /// Runs one task. A reference to an action queues it; a command is
    /// handed back to be spawned; a rotation or calibration task writes the
    /// derived state, and writing the value already held changes nothing.
    pub fn run_task(&mut self, task: &CompiledTask, n: usize) -> (r: Option<Vec<String>>)
        requires
            old(self).wf(n as nat),
            task_valid(*task, n as nat),
        ensures
            final(self).wf(n as nat),
            final(self).rotation_applied == old(self).rotation_applied,
            final(self).calibration_applied == old(self).calibration_applied,
            final(self).orientation_seen == old(self).orientation_seen,
            final(self).claims == old(self).claims,
            final(self).releases == old(self).releases,
            final(self).queue@ == old(self).queue@ + queued(seq![*task]),
            final(self).rotation == rotation_after(seq![*task], old(self).rotation),
            final(self).calibration == calibration_after(seq![*task], old(self).calibration),
            r is Some <==> task is Cmd,
            r is Some ==> commands(seq![*task]) == seq![strings(r->Some_0)],
    {
        let ghost one = seq![*task];
        let ghost none = Seq::<CompiledTask>::empty();
        assert(one.drop_last() =~= none);
        assert(one.last() == *task);
        assert(queued(none) =~= Seq::<ActionId>::empty());
        assert(commands(none) =~= Seq::<Seq<Seq<char>>>::empty());
        assert(rotation_after(none, old(self).rotation) == old(self).rotation);
        assert(calibration_after(none, old(self).calibration) == old(self).calibration);
        match task {
            CompiledTask::Action(id) => {
                self.enqueue(Some(*id), n);
                assert(hook_seq(Some(*id)) =~= queued(one));
                None
            },
            CompiledTask::Cmd(args) => {
                assert(queued(one) =~= Seq::<ActionId>::empty());
                assert(self.queue@ =~= old(self).queue@ + queued(one));
                let r = Self::copy_strings(args);
                assert(commands(one) =~= seq![strings(r)]);
                Some(r)
            },
            CompiledTask::Rotation(enable) => {
                if self.rotation != *enable {
                    self.rotation = *enable;
                }
                assert(self.queue@ =~= old(self).queue@ + queued(one));
                None
            },
            CompiledTask::RotateCalibration(mode) => {
                if self.calibration != *mode {
                    self.calibration = *mode;
                }
                assert(self.queue@ =~= old(self).queue@ + queued(one));
                None
            },
        }
    }
}

/// The compiled configuration and the state of the event loop.
pub struct Runtime {
    pub on_mode_laptop: Option<ActionId>,
    pub on_mode_tablet: Option<ActionId>,
    pub on_rotate_normal: Option<ActionId>,
    pub on_rotate_left_up: Option<ActionId>,
    pub on_rotate_right_up: Option<ActionId>,
    pub on_rotate_bottom_up: Option<ActionId>,
    /// The action table: action `k` is named `action_names[k]`.
    pub actions: Vec<Vec<CompiledTask>>,
    pub action_names: Vec<String>,
    pub default_mode: SettingMode,
    pub switch: String,
    pub touchscreen: Option<String>,
    pub state: LoopState,
}

impl Runtime {
    pub open spec fn wf(&self) -> bool {
        let n = self.actions@.len() as nat;
        &&& self.action_names@.len() == n
        &&& hook_valid(self.on_mode_laptop, n)
        &&& hook_valid(self.on_mode_tablet, n)
        &&& hook_valid(self.on_rotate_normal, n)
        &&& hook_valid(self.on_rotate_left_up, n)
        &&& hook_valid(self.on_rotate_right_up, n)
        &&& hook_valid(self.on_rotate_bottom_up, n)
        &&& forall|k: int| 0 <= k < n ==> action_valid(#[trigger] self.actions@[k], n)
        &&& self.state.wf(n)
    }

    /// The compiled configuration is that of `o`.
    pub open spec fn same_config(&self, o: &Runtime) -> bool {
        &&& self.on_mode_laptop == o.on_mode_laptop
        &&& self.on_mode_tablet == o.on_mode_tablet
        &&& self.on_rotate_normal == o.on_rotate_normal
        &&& self.on_rotate_left_up == o.on_rotate_left_up
        &&& self.on_rotate_right_up == o.on_rotate_right_up
        &&& self.on_rotate_bottom_up == o.on_rotate_bottom_up
        &&& self.actions == o.actions
        &&& self.action_names == o.action_names
        &&& self.default_mode == o.default_mode
        &&& self.switch == o.switch
        &&& self.touchscreen == o.touchscreen
    }

    /// The hook of an orientation, if the orientation has one.
    pub open spec fn orientation_hook(&self, o: AccelerometerOrientation) -> Option<ActionId> {
        match o {
            AccelerometerOrientation::Normal => self.on_rotate_normal,
            AccelerometerOrientation::BottomUp => self.on_rotate_bottom_up,
            AccelerometerOrientation::LeftUp => self.on_rotate_left_up,
            AccelerometerOrientation::RightUp => self.on_rotate_right_up,
            _ => None,
        }
    }

    /// Compiles a configuration: the six hooks are looked up, in the order
    /// laptop, tablet, normal, left-up, right-up, bottom-up, with every
    /// action they reach; the hook of the default mode is queued.
    pub fn new(con: Config) -> (r: Result<Runtime, ResolveError>)
        ensures
            config_ok(con) ==> r is Ok,
            r is Ok ==> {
                let rt = r->Ok_0;
                let names = rt.action_names@.map_values(|s: String| s@);
                &&& rt.wf()
                &&& names_hook(rt.on_mode_laptop, names, "on-mode-laptop"@)
                &&& names_hook(rt.on_mode_tablet, names, "on-mode-tablet"@)
                &&& names_hook(rt.on_rotate_normal, names, "on-rotate-normal"@)
                &&& names_hook(rt.on_rotate_left_up, names, "on-rotate-left-up"@)
                &&& names_hook(rt.on_rotate_right_up, names, "on-rotate-right-up"@)
                &&& names_hook(rt.on_rotate_bottom_up, names, "on-rotate-bottom-up"@)
                &&& (rt.on_mode_laptop is None <==> !defined_events(con).contains(
                    "on-mode-laptop"@,
                ))
                &&& (rt.on_mode_tablet is None <==> !defined_events(con).contains(
                    "on-mode-tablet"@,
                ))
                &&& (rt.on_rotate_normal is None <==> !defined_events(con).contains(
                    "on-rotate-normal"@,
                ))
                &&& (rt.on_rotate_left_up is None <==> !defined_events(con).contains(
                    "on-rotate-left-up"@,
                ))
                &&& (rt.on_rotate_right_up is None <==> !defined_events(con).contains(
                    "on-rotate-right-up"@,
                ))
                &&& (rt.on_rotate_bottom_up is None <==> !defined_events(con).contains(
                    "on-rotate-bottom-up"@,
                ))
                &&& forall|k: int|
                    0 <= k < rt.actions@.len() ==> {
                        let d = last_def(config_actions(con), names[k]);
                        &&& d is Some
                        &&& action_compiles(
                            config_vars(con),
                            names,
                            d->Some_0,
                            #[trigger] rt.actions@[k]@,
                        )
                    }
                &&& rt.default_mode == con.settings.default_mode
                &&& rt.switch == con.settings.switch
                &&& rt.touchscreen == con.settings.touchscreen
                &&& rt.state.queue@ == hook_seq(
                    match rt.default_mode {
                        SettingMode::Laptop => rt.on_mode_laptop,
                        SettingMode::Tablet => rt.on_mode_tablet,
                    },
                )
                &&& !rt.state.rotation && !rt.state.rotation_applied
                &&& rt.state.calibration == RotationMode::Normal
                &&& rt.state.calibration_applied == RotationMode::Normal
                &&& !rt.state.orientation_seen
                &&& rt.state.claims@ == 0 && rt.state.releases@ == 0
            },
    {
        let ghost events = defined_events(con);
        let mut helper = RuntimeHelper::new(con);
        let ghost h0 = helper;
        assert(h0.pending_keys() =~= events);
        assert(h0.names() =~= Seq::<Seq<char>>::empty());
        assert(config_ok(con) ==> h0.pending_ok());
        let ghost ok = config_ok(con);
        let on_mode_laptop = match hook(&mut helper, "on-mode-laptop") {
            Ok(h) => h,
            Err(e) => return Err(e),
        };
        let ghost h1 = helper;
        proof {
            if ok {
                RuntimeHelper::lemma_pending_ok_grow(h0, h1);
            }
        }
        let on_mode_tablet = match hook(&mut helper, "on-mode-tablet") {
            Ok(h) => h,
            Err(e) => return Err(e),
        };
        let ghost h2 = helper;
        proof {
            if ok {
                RuntimeHelper::lemma_pending_ok_grow(h1, h2);
            }
        }
        let on_rotate_normal = match hook(&mut helper, "on-rotate-normal") {
            Ok(h) => h,
            Err(e) => return Err(e),
        };
        let ghost h3 = helper;
        proof {
            if ok {
                RuntimeHelper::lemma_pending_ok_grow(h2, h3);
            }
        }
        let on_rotate_left_up = match hook(&mut helper, "on-rotate-left-up") {
            Ok(h) => h,
            Err(e) => return Err(e),
        };
        let ghost h4 = helper;
        proof {
            if ok {
                RuntimeHelper::lemma_pending_ok_grow(h3, h4);
            }
        }
        let on_rotate_right_up = match hook(&mut helper, "on-rotate-right-up") {
            Ok(h) => h,
            Err(e) => return Err(e),
        };
        let ghost h5 = helper;
        proof {
            if ok {
                RuntimeHelper::lemma_pending_ok_grow(h4, h5);
            }
        }
        let on_rotate_bottom_up = match hook(&mut helper, "on-rotate-bottom-up") {
            Ok(h) => h,
            Err(e) => return Err(e),
        };
        let ghost h6 = helper;
        proof {
            RuntimeHelper::lemma_grows_trans(h4, h5, h6);
            RuntimeHelper::lemma_grows_trans(h3, h4, h6);
            RuntimeHelper::lemma_grows_trans(h2, h3, h6);
            RuntimeHelper::lemma_grows_trans(h1, h2, h6);
            lemma_names_hook_grow(on_mode_laptop, h1, h6, "on-mode-laptop"@);
            lemma_names_hook_grow(on_mode_tablet, h2, h6, "on-mode-tablet"@);
            lemma_names_hook_grow(on_rotate_normal, h3, h6, "on-rotate-normal"@);
            lemma_names_hook_grow(on_rotate_left_up, h4, h6, "on-rotate-left-up"@);
            lemma_names_hook_grow(on_rotate_right_up, h5, h6, "on-rotate-right-up"@);
            RuntimeHelper::lemma_grows_trans(h0, h1, h6);
            RuntimeHelper::lemma_grows_trans(h0, h1, h2);
            RuntimeHelper::lemma_grows_trans(h0, h2, h3);
            RuntimeHelper::lemma_grows_trans(h0, h3, h4);
            RuntimeHelper::lemma_grows_trans(h0, h4, h5);
            RuntimeHelper::lemma_grows_refl(h0);
            lemma_hook_defined(on_mode_laptop, h0, h0, h1, "on-mode-laptop"@);
            lemma_hook_defined(on_mode_tablet, h0, h1, h2, "on-mode-tablet"@);
            lemma_hook_defined(on_rotate_normal, h0, h2, h3, "on-rotate-normal"@);
            lemma_hook_defined(on_rotate_left_up, h0, h3, h4, "on-rotate-left-up"@);
            lemma_hook_defined(on_rotate_right_up, h0, h4, h5, "on-rotate-right-up"@);
            lemma_hook_defined(on_rotate_bottom_up, h0, h5, h6, "on-rotate-bottom-up"@);
            lemma_compiled_prefix(h1, h2);
            lemma_compiled_prefix(h2, h3);
            lemma_compiled_prefix(h3, h4);
            lemma_compiled_prefix(h4, h5);
            lemma_compiled_prefix(h5, h6);
            assert forall|x: int| 0 <= x < h6.names().len() implies {
                let d = last_def(config_actions(con), h6.names()[x]);
                &&& d is Some
                &&& action_compiles(config_vars(con), h6.names(), d->Some_0, #[trigger] h6.runtime_actions@[x]@)
            } by {
                assert(h6.compiled_at(x));
                assert(last_def(h0.pending(), h6.names()[x]) == Some(h6.defs@[x]));
            }
        }
        let RuntimeHelper { settings: st, action_names, runtime_actions, .. } = helper;
        let mut state = LoopState::new();
        let n = runtime_actions.len();
        let default_hook = match st.default_mode {
            SettingMode::Laptop => on_mode_laptop,
            SettingMode::Tablet => on_mode_tablet,
        };
        state.enqueue(default_hook, n);
        assert(Seq::<ActionId>::empty() + hook_seq(default_hook) =~= hook_seq(default_hook));
        let rt = Runtime {
            on_mode_laptop,
            on_mode_tablet,
            on_rotate_normal,
            on_rotate_left_up,
            on_rotate_right_up,
            on_rotate_bottom_up,
            actions: runtime_actions,
            action_names,
            default_mode: st.default_mode,
            switch: st.switch,
            touchscreen: st.touchscreen,
            state,
        };
        Ok(rt)
    }

    /// A toggle of a switch. Only the tablet-mode switch counts: on, it
    /// queues the tablet hook; off, the laptop hook.
    pub fn on_switch_toggle(&mut self, tablet_mode: bool, on: bool)
        requires
            old(self).wf(),
        ensures
            final(self).wf(),
            final(self).same_config(old(self)),
            final(self).state.same_but_queue(&old(self).state),
            !tablet_mode ==> final(self).state.queue@ == old(self).state.queue@,
            tablet_mode ==> final(self).state.queue@ == old(self).state.queue@ + hook_seq(
                if on {
                    old(self).on_mode_tablet
                } else {
                    old(self).on_mode_laptop
                },
            ),
    {
        if !tablet_mode {
            return;
        }
        let n = self.actions.len();
        if on {
            let h = self.on_mode_tablet;
            self.state.enqueue(h, n);
        } else {
            let h = self.on_mode_laptop;
            self.state.enqueue(h, n);
        }
    }

    /// A value of the orientation property. The first one is the value the
    /// property had when the subscription began, and queues nothing.
    pub fn on_orientation(&mut self, o: &AccelerometerOrientation)
        requires
            old(self).wf(),
        ensures
            final(self).wf(),
            final(self).same_config(old(self)),
            final(self).state.orientation_seen,
            final(self).state.rotation == old(self).state.rotation,
            final(self).state.rotation_applied == old(self).state.rotation_applied,
            final(self).state.calibration == old(self).state.calibration,
            final(self).state.calibration_applied == old(self).state.calibration_applied,
            final(self).state.claims == old(self).state.claims,
            final(self).state.releases == old(self).state.releases,
            !old(self).state.orientation_seen ==> final(self).state.queue@
                == old(self).state.queue@,
            old(self).state.orientation_seen ==> final(self).state.queue@
                == old(self).state.queue@ + hook_seq(old(self).orientation_hook(*o)),
    {
        if !self.state.orientation_seen {
            self.state.orientation_seen = true;
            return;
        }
        let h = match o {
            AccelerometerOrientation::Normal => self.on_rotate_normal,
            AccelerometerOrientation::BottomUp => self.on_rotate_bottom_up,
            AccelerometerOrientation::LeftUp => self.on_rotate_left_up,
            AccelerometerOrientation::RightUp => self.on_rotate_right_up,
            _ => None,
        };
        let n = self.actions.len();
        self.state.enqueue(h, n);
    }

    /// Runs the tasks of action `id` in order, and hands back the commands
    /// they spawn, in order.
    pub fn run_action(&mut self, id: ActionId) -> (r: Vec<Vec<String>>)
        requires
            old(self).wf(),
            id.0 < old(self).actions@.len(),
        ensures
            final(self).wf(),
            final(self).same_config(old(self)),
            final(self).state.rotation_applied == old(self).state.rotation_applied,
            final(self).state.calibration_applied == old(self).state.calibration_applied,
            final(self).state.orientation_seen == old(self).state.orientation_seen,
            final(self).state.claims == old(self).state.claims,
            final(self).state.releases == old(self).state.releases,
            final(self).state.queue@ == old(self).state.queue@ + queued(
                old(self).actions@[id.0 as int]@,
            ),
            final(self).state.rotation == rotation_after(
                old(self).actions@[id.0 as int]@,
                old(self).state.rotation,
            ),
            final(self).state.calibration == calibration_after(
                old(self).actions@[id.0 as int]@,
                old(self).state.calibration,
            ),
            r@.map_values(|c: Vec<String>| strings(c)) == commands(
                old(self).actions@[id.0 as int]@,
            ),
    {
        let n = self.actions.len();
        let tasks = &self.actions[id.0];
        let ghost ts = tasks@;
        assert(action_valid(self.actions@[id.0 as int], n as nat));
        let mut cmds: Vec<Vec<String>> = Vec::new();
        let mut i: usize = 0;
        assert(ts.subrange(0, 0) =~= Seq::<CompiledTask>::empty());
        while i < tasks.len()
            invariant
                ts == tasks@,
                old(self).wf(),
                self.same_config(old(self)),
                ts == old(self).actions@[id.0 as int]@,
                n == self.actions@.len(),
                i <= ts.len(),
                action_valid(*tasks, n as nat),
                self.state.wf(n as nat),
                self.state.rotation_applied == old(self).state.rotation_applied,
                self.state.calibration_applied == old(self).state.calibration_applied,
                self.state.orientation_seen == old(self).state.orientation_seen,
                self.state.claims == old(self).state.claims,
                self.state.releases == old(self).state.releases,
                self.state.queue@ == old(self).state.queue@ + queued(ts.subrange(0, i as int)),
                self.state.rotation == rotation_after(
                    ts.subrange(0, i as int),
                    old(self).state.rotation,
                ),
                self.state.calibration == calibration_after(
                    ts.subrange(0, i as int),
                    old(self).state.calibration,
                ),
                cmds@.map_values(|c: Vec<String>| strings(c)) == commands(
                    ts.subrange(0, i as int),
                ),
            decreases ts.len() - i,
        {
            let ghost pre = ts.subrange(0, i as int);
            let ghost post = ts.subrange(0, i + 1);
            let ghost q0 = self.state.queue@;
            let ghost c0 = cmds@.map_values(|c: Vec<String>| strings(c));
            assert(post.drop_last() =~= pre);
            assert(post.last() == ts[i as int]);
            assert(task_valid(ts[i as int], n as nat));
            let ghost one = seq![ts[i as int]];
            assert(one.drop_last() =~= Seq::<CompiledTask>::empty());
            let out = self.state.run_task(&tasks[i], n);
            match out {
                Some(c) => {
                    cmds.push(c);
                },
                None => {},
            }
            proof {
                lemma_run_step(pre, ts[i as int], old(self).state.rotation, old(self).state.calibration);
                assert(pre.push(ts[i as int]) =~= post);
                assert(cmds@.map_values(|c: Vec<String>| strings(c)) =~= c0 + commands(one));
                assert(self.state.queue@ =~= old(self).state.queue@ + queued(post));
            }
            i = i + 1;
        }
        assert(ts.subrange(0, i as int) =~= ts);
        cmds
    }

    /// Whether `next_effect` has something to do.
    pub fn has_pending(&self) -> (r: bool)
        ensures
            r == (self.state.rotation != self.state.rotation_applied || self.state.calibration
                != self.state.calibration_applied || self.state.queue@.len() > 0),
    {
        self.state.rotation != self.state.rotation_applied || self.state.calibration
            != self.state.calibration_applied || self.state.queue.len() > 0
    }

    /// The next thing for the loop to do. A change of the rotation setting
    /// comes first, then a change of the calibration, then the action at
    /// the head of the queue; `Idle` where none is pending.
    pub fn next_effect(&mut self) -> (r: Effect)
        requires
            old(self).wf(),
        ensures
            final(self).wf(),
            final(self).same_config(old(self)),
            final(self).state.orientation_seen == old(self).state.orientation_seen,
            ({
                let o = old(self).state;
                let f = final(self).state;
                if o.rotation != o.rotation_applied {
                    &&& (if o.rotation {
                        r is ClaimAccelerometer
                    } else {
                        r is ReleaseAccelerometer
                    })
                    &&& f.rotation_applied == o.rotation
                    &&& f.claims@ == o.claims@ + (if o.rotation { 1nat } else { 0nat })
                    &&& f.releases@ == o.releases@ + (if o.rotation { 0nat } else { 1nat })
                    &&& f.queue@ == o.queue@
                    &&& f.rotation == o.rotation
                    &&& f.calibration == o.calibration
                    &&& f.calibration_applied == o.calibration_applied
                } else if o.calibration != o.calibration_applied {
                    &&& r is SetCalibration
                    &&& r->SetCalibration_0 == o.calibration
                    &&& f.calibration_applied == o.calibration
                    &&& f.same_but_queue(&LoopState { calibration_applied: o.calibration, ..o })
                    &&& f.queue@ == o.queue@
                } else if o.queue@.len() > 0 {
                    let tasks = old(self).actions@[o.queue@[0].0 as int]@;
                    &&& r is RunCommands
                    &&& r->RunCommands_0@.map_values(|c: Vec<String>| strings(c)) == commands(
                        tasks,
                    )
                    &&& f.queue@ == o.queue@.drop_first() + queued(tasks)
                    &&& f.rotation == rotation_after(tasks, o.rotation)
                    &&& f.calibration == calibration_after(tasks, o.calibration)
                    &&& f.rotation_applied == o.rotation_applied
                    &&& f.calibration_applied == o.calibration_applied
                    &&& f.claims == o.claims
                    &&& f.releases == o.releases
                } else {
                    &&& r is Idle
                    &&& f == o
                }
            }),
    {
        if self.state.rotation != self.state.rotation_applied {
            self.state.rotation_applied = self.state.rotation;
            if self.state.rotation {
                self.state.claims = Ghost(self.state.claims@ + 1);
                return Effect::ClaimAccelerometer;
            } else {
                self.state.releases = Ghost(self.state.releases@ + 1);
                return Effect::ReleaseAccelerometer;
            }
        }
        if self.state.calibration != self.state.calibration_applied {
            self.state.calibration_applied = self.state.calibration;
            return Effect::SetCalibration(self.state.calibration);
        }
        if self.state.queue.len() > 0 {
            let ghost q = self.state.queue@;
            let id = self.state.queue.remove(0);
            assert(self.state.queue@ =~= q.drop_first());
            assert(q[0].0 < self.actions@.len());
            let cmds = self.run_action(id);
            return Effect::RunCommands(cmds);
        }
        Effect::Idle
    }
}

/// Every id the runtime holds, in a hook, in a compiled reference or in the
/// queue, is an index of its action table.
pub proof fn lemma_ids_in_table(rt: Runtime)
    requires
        rt.wf(),
    ensures
        forall|k: int, j: int|
            0 <= k < rt.actions@.len() && 0 <= j < rt.actions@[k]@.len()
                && #[trigger] rt.actions@[k]@[j] is Action ==> rt.actions@[k]@[j]->Action_0.0
                < rt.actions@.len(),
        forall|i: int| 0 <= i < rt.state.queue@.len() ==> (#[trigger] rt.state.queue@[i]).0
            < rt.actions@.len(),
        rt.on_mode_laptop is Some ==> rt.on_mode_laptop->Some_0.0 < rt.actions@.len(),
        rt.on_mode_tablet is Some ==> rt.on_mode_tablet->Some_0.0 < rt.actions@.len(),
{
    assert forall|k: int, j: int|
        0 <= k < rt.actions@.len() && 0 <= j < rt.actions@[k]@.len()
            && #[trigger] rt.actions@[k]@[j] is Action implies rt.actions@[k]@[j]->Action_0.0
            < rt.actions@.len() by {
        assert(action_valid(rt.actions@[k], rt.actions@.len() as nat));
        assert(task_valid(rt.actions@[k]@[j], rt.actions@.len() as nat));
    }
}

/// Writing a rotation or calibration value twice in a row leaves the same
/// state as writing it once, so its handler runs once.
pub proof fn lemma_write_twice(b: bool, m: RotationMode, rot: bool, cal: RotationMode)
    ensures
        rotation_after(seq![CompiledTask::Rotation(b), CompiledTask::Rotation(b)], rot)
            == rotation_after(seq![CompiledTask::Rotation(b)], rot),
        calibration_after(
            seq![CompiledTask::RotateCalibration(m), CompiledTask::RotateCalibration(m)],
            cal,
        ) == calibration_after(seq![CompiledTask::RotateCalibration(m)], cal),
{
    let two_r = seq![CompiledTask::Rotation(b), CompiledTask::Rotation(b)];
    let two_c = seq![CompiledTask::RotateCalibration(m), CompiledTask::RotateCalibration(m)];
    assert(two_r.last() == CompiledTask::Rotation(b));
    assert(two_c.last() == CompiledTask::RotateCalibration(m));
    assert(seq![CompiledTask::Rotation(b)].last() == CompiledTask::Rotation(b));
    assert(seq![CompiledTask::RotateCalibration(m)].last() == CompiledTask::RotateCalibration(m));
}

/// Over any run, the accelerometer was claimed as often as released, or
/// once more while rotation is enabled.
pub proof fn lemma_claim_release_parity(s: LoopState, n: nat)
    requires
        s.wf(n),
    ensures
        s.releases@ <= s.claims@ <= s.releases@ + 1,
        s.claims@ == s.releases@ + 1 <==> s.rotation_applied,
{
}

} // verus!
