//! The resolver: compiles named actions into a dense table of compiled
//! actions, indexed by `ActionId`, resolving variable indirections on the way.

use vstd::prelude::*;
use crate::calibration::RotationMode;
use crate::config::{self, Config, Settings, TaskModel, VStr, VStrModel};
use crate::variables::{
    chain, lemma_chain_compose, lemma_chain_shift, lemma_distinct_within, lemma_lookup_key,
    lemma_reaches_cycle, lemma_var_value, var_keys, var_lookup, var_value, vstr_value, VarsModel,
    Walk,
};

verus! {

/// The index of a compiled action in the action table.
#[derive(Debug, Clone, Copy, PartialEq, Eq, Structural)]
pub struct ActionId(pub usize);

/// A task with every string resolved and every action reference replaced by
/// the id of the action.
#[derive(Debug)]
pub enum CompiledTask {
    Action(ActionId),
    Cmd(Vec<String>),
    RotateCalibration(RotationMode),
    Rotation(bool),
}

/// Why a configuration does not compile.
#[derive(Debug)]
pub enum ResolveError {
    /// A variable of this name is referenced but not defined.
    MissingVariable(String),
    /// The indirections from a variable come back to this name.
    VariableCycle(String),
    /// An action of this name is referenced by a task but not defined.
    MissingAction(String),
    /// A `rotation` task whose value is neither `enable` nor `disable`.
    InvalidRotation(String),
    /// A `rotate-calibration` task whose value names no rotation.
    InvalidCalibration(String),
    /// A `cmd` task without arguments.
    EmptyCommand,
}

/// The label of a rotation in the configuration.
pub open spec fn mode_label(m: RotationMode) -> Seq<char> {
    match m {
        RotationMode::Normal => "normal"@,
        RotationMode::Rotate90 => "rotate90"@,
        RotationMode::Rotate180 => "rotate180"@,
        RotationMode::Rotate270 => "rotate270"@,
    }
}

/// `r` is what resolving to `w` returns.
pub open spec fn str_result(w: Walk, r: Result<String, ResolveError>) -> bool {
    match w {
        Walk::Found(s) => r is Ok && r->Ok_0@ == s,
        Walk::Missing(m) => r is Err && r->Err_0 is MissingVariable
            && r->Err_0->MissingVariable_0@ == m,
        Walk::Unfinished => r is Err && r->Err_0 is VariableCycle,
    }
}

/// A compiled task refers only to actions of a table of `n` entries, and a
/// command has at least its program.
pub open spec fn task_valid(t: CompiledTask, n: nat) -> bool {
    match t {
        CompiledTask::Action(id) => id.0 < n,
        CompiledTask::Cmd(args) => args@.len() > 0,
        _ => true,
    }
}

pub open spec fn action_valid(a: Vec<CompiledTask>, n: nat) -> bool {
    forall|j: int| 0 <= j < a@.len() ==> task_valid(#[trigger] a@[j], n)
}

/// `c` is the compilation of `t`, against the variables `vars` and the
/// table whose action `k` is named `names[k]`.
pub open spec fn task_compiles(
    vars: VarsModel,
    names: Seq<Seq<char>>,
    t: TaskModel,
    c: CompiledTask,
) -> bool {
    match t {
        TaskModel::Action(v) => {
            &&& vstr_value(vars, v) is Found
            &&& c is Action
            &&& c->Action_0.0 < names.len()
            &&& names[c->Action_0.0 as int] == vstr_value(vars, v)->Found_0
        },
        TaskModel::Cmd(vs) => {
            &&& c is Cmd
            &&& vs.len() > 0
            &&& c->Cmd_0@.len() == vs.len()
            &&& forall|j: int|
                0 <= j < vs.len() ==> vstr_value(vars, #[trigger] vs[j]) == Walk::Found(
                    c->Cmd_0@[j]@,
                )
        },
        TaskModel::Rotation(v) => {
            &&& c is Rotation
            &&& vstr_value(vars, v) == Walk::Found(
                if c->Rotation_0 {
                    "enable"@
                } else {
                    "disable"@
                },
            )
        },
        TaskModel::RotateCalibration(v) => {
            &&& c is RotateCalibration
            &&& vstr_value(vars, v) == Walk::Found(mode_label(c->RotateCalibration_0))
        },
    }
}

/// A task other than an action reference compiles.
pub open spec fn plain_task_compiles(vars: VarsModel, t: TaskModel) -> bool {
    match t {
        TaskModel::Action(_) => true,
        TaskModel::Cmd(vs) => vs.len() > 0 && forall|j: int|
            0 <= j < vs.len() ==> vstr_value(vars, #[trigger] vs[j]) is Found,
        TaskModel::Rotation(v) => vstr_value(vars, v) == Walk::Found("enable"@)
            || vstr_value(vars, v) == Walk::Found("disable"@),
        TaskModel::RotateCalibration(v) => vstr_value(vars, v) == Walk::Found("normal"@)
            || vstr_value(vars, v) == Walk::Found("rotate90"@)
            || vstr_value(vars, v) == Walk::Found("rotate180"@)
            || vstr_value(vars, v) == Walk::Found("rotate270"@),
    }
}

/// The error that a task's own strings cause, where they cause one: a
/// variable that cannot be resolved, a value out of range, or a command
/// without arguments.
pub open spec fn task_failure(
    vars: VarsModel,
    t: TaskModel,
    r: Result<CompiledTask, ResolveError>,
) -> bool {
    match t {
        TaskModel::Action(v) => !(vstr_value(vars, v) is Found) ==> str_error(
            vstr_value(vars, v),
            r,
        ),
        TaskModel::Cmd(vs) => vs.len() == 0 ==> r is Err && r->Err_0 is EmptyCommand,
        TaskModel::Rotation(v) => match vstr_value(vars, v) {
            Walk::Found(s) => s != "enable"@ && s != "disable"@ ==> r is Err
                && r->Err_0 is InvalidRotation && r->Err_0->InvalidRotation_0@ == s,
            w => str_error(w, r),
        },
        TaskModel::RotateCalibration(v) => match vstr_value(vars, v) {
            Walk::Found(s) => s != "normal"@ && s != "rotate90"@ && s != "rotate180"@ && s
                != "rotate270"@ ==> r is Err && r->Err_0 is InvalidCalibration
                && r->Err_0->InvalidCalibration_0@ == s,
            w => str_error(w, r),
        },
    }
}

/// `r` fails as resolving to the unfinished or missing `w` does.
pub open spec fn str_error<T>(w: Walk, r: Result<T, ResolveError>) -> bool {
    match w {
        Walk::Missing(m) => r is Err && r->Err_0 is MissingVariable
            && r->Err_0->MissingVariable_0@ == m,
        Walk::Unfinished => r is Err && r->Err_0 is VariableCycle,
        Walk::Found(_) => true,
    }
}

/// A task compiles once every action it refers to does: its strings
/// resolve and are in range, and an action it refers to is among `names` or
/// `keys`.
pub open spec fn task_ok_in(
    vars: VarsModel,
    names: Seq<Seq<char>>,
    keys: Seq<Seq<char>>,
    t: TaskModel,
) -> bool {
    match t {
        TaskModel::Action(v) => vstr_value(vars, v) is Found && (names.contains(
            vstr_value(vars, v)->Found_0,
        ) || keys.contains(vstr_value(vars, v)->Found_0)),
        _ => plain_task_compiles(vars, t),
    }
}

/// `compiled` is the compilation of `tasks`, task by task, in order.
pub open spec fn action_compiles(
    vars: VarsModel,
    names: Seq<Seq<char>>,
    tasks: Seq<TaskModel>,
    compiled: Seq<CompiledTask>,
) -> bool {
    &&& compiled.len() == tasks.len()
    &&& forall|j: int|
        0 <= j < tasks.len() ==> task_compiles(vars, names, tasks[j], #[trigger] compiled[j])
}

/// The index of the last entry named `name`, or -1.
pub open spec fn last_index(keys: Seq<Seq<char>>, name: Seq<char>) -> int
    decreases keys.len(),
{
    if keys.len() == 0 {
        -1
    } else if keys.last() == name {
        keys.len() - 1
    } else {
        last_index(keys.drop_last(), name)
    }
}

pub proof fn lemma_last_index_bounds(keys: Seq<Seq<char>>, name: Seq<char>)
    ensures
        -1 <= last_index(keys, name) < keys.len(),
        last_index(keys, name) >= 0 ==> keys[last_index(keys, name)] == name,
        last_index(keys, name) >= 0 <==> keys.contains(name),
    decreases keys.len(),
{
    if keys.len() > 0 && keys.last() != name {
        lemma_last_index_bounds(keys.drop_last(), name);
        if keys.contains(name) {
            let i = choose|i: int| 0 <= i < keys.len() && keys[i] == name;
            assert(keys.drop_last()[i] == name);
        }
    } else if keys.len() > 0 {
        assert(keys[keys.len() - 1] == name);
    }
}

/// A compiled task stays a compilation when the table grows.
pub proof fn lemma_task_compiles_grow(
    vars: VarsModel,
    n1: Seq<Seq<char>>,
    n2: Seq<Seq<char>>,
    t: TaskModel,
    c: CompiledTask,
)
    requires
        task_compiles(vars, n1, t, c),
        n1.len() <= n2.len(),
        n2.subrange(0, n1.len() as int) == n1,
    ensures
        task_compiles(vars, n2, t, c),
        task_valid(c, n2.len()),
{
    if t is Action {
        let k = c->Action_0.0 as int;
        assert(n2.subrange(0, n1.len() as int)[k] == n2[k]);
    }
}

pub open spec fn block_vars(b: config::Variables) -> VarsModel {
    b.variables@.map_values(|v: config::Variable| (v.name@, v.value.model()))
}

/// The variables of a configuration, every block in order.
pub open spec fn config_vars(con: Config) -> VarsModel {
    con.varibles@.map_values(|b: config::Variables| block_vars(b)).flatten()
}

pub open spec fn block_actions(b: config::Actions) -> Seq<(Seq<char>, Seq<TaskModel>)> {
    b.actions@.map_values(
        |a: config::Action| (a.event@, a.tasks@.map_values(|t: config::Task| t.model())),
    )
}

/// The action definitions of a configuration, every block in order.
pub open spec fn config_actions(con: Config) -> Seq<(Seq<char>, Seq<TaskModel>)> {
    con.actions@.map_values(|b: config::Actions| block_actions(b)).flatten()
}

/// The tasks of the last definition named `n`.
pub open spec fn last_def(entries: Seq<(Seq<char>, Seq<TaskModel>)>, n: Seq<char>) -> Option<
    Seq<TaskModel>,
>
    decreases entries.len(),
{
    if entries.len() == 0 {
        None
    } else if entries.last().0 == n {
        Some(entries.last().1)
    } else {
        last_def(entries.drop_last(), n)
    }
}

pub proof fn lemma_last_def_index(entries: Seq<(Seq<char>, Seq<TaskModel>)>, n: Seq<char>)
    ensures
        ({
            let keys = entries.map_values(|p: (Seq<char>, Seq<TaskModel>)| p.0);
            let i = last_index(keys, n);
            &&& i >= 0 ==> last_def(entries, n) == Some(entries[i].1)
            &&& i < 0 ==> last_def(entries, n) is None
        }),
    decreases entries.len(),
{
    let keys = entries.map_values(|p: (Seq<char>, Seq<TaskModel>)| p.0);
    if entries.len() > 0 {
        let rest = entries.drop_last();
        assert(keys.drop_last() =~= rest.map_values(|p: (Seq<char>, Seq<TaskModel>)| p.0));
        assert(keys.last() == entries.last().0);
        lemma_last_def_index(rest, n);
        lemma_last_index_bounds(keys.drop_last(), n);
    }
}

pub proof fn lemma_last_def_remove(
    entries: Seq<(Seq<char>, Seq<TaskModel>)>,
    pos: int,
    n: Seq<char>,
)
    requires
        0 <= pos < entries.len(),
        entries[pos].0 != n,
    ensures
        last_def(entries.remove(pos), n) == last_def(entries, n),
    decreases entries.len(),
{
    let e = entries.remove(pos);
    if pos == entries.len() - 1 {
        assert(e =~= entries.drop_last());
    } else {
        assert(e.last() == entries.last());
        assert(e.drop_last() =~= entries.drop_last().remove(pos));
        lemma_last_def_remove(entries.drop_last(), pos, n);
    }
}

pub proof fn lemma_action_compiles_grow(
    vars: VarsModel,
    n1: Seq<Seq<char>>,
    n2: Seq<Seq<char>>,
    tasks: Seq<TaskModel>,
    compiled: Seq<CompiledTask>,
)
    requires
        action_compiles(vars, n1, tasks, compiled),
        n1.len() <= n2.len(),
        n2.subrange(0, n1.len() as int) == n1,
    ensures
        action_compiles(vars, n2, tasks, compiled),
{
    assert forall|j: int| 0 <= j < tasks.len() implies task_compiles(
        vars,
        n2,
        tasks[j],
        #[trigger] compiled[j],
    ) by {
        lemma_task_compiles_grow(vars, n1, n2, tasks[j], compiled[j]);
    }
}

pub open spec fn keys_of(e: Seq<(Seq<char>, Seq<TaskModel>)>) -> Seq<Seq<char>> {
    e.map_values(|p: (Seq<char>, Seq<TaskModel>)| p.0)
}

/// Removing a definition of `name` keeps what the others see.
pub proof fn lemma_remove_entry(e: Seq<(Seq<char>, Seq<TaskModel>)>, pos: int, name: Seq<char>)
    requires
        0 <= pos < e.len(),
        e[pos].0 == name,
    ensures
        forall|n: Seq<char>|
            n != name ==> (#[trigger] keys_of(e.remove(pos)).contains(n) <==> keys_of(e).contains(
                n,
            )),
        forall|n: Seq<char>| n != name ==> #[trigger] last_def(e.remove(pos), n) == last_def(e, n),
        forall|i: int| 0 <= i < e.len() - 1 ==> e.contains(#[trigger] e.remove(pos)[i]),
{
    let r = e.remove(pos);
    assert forall|n: Seq<char>| n != name implies (#[trigger] keys_of(r).contains(n)
        <==> keys_of(e).contains(n)) by {
        if keys_of(e).contains(n) {
            let i = choose|i: int| 0 <= i < keys_of(e).len() && keys_of(e)[i] == n;
            if i < pos {
                assert(keys_of(r)[i] == n);
            } else {
                assert(keys_of(r)[i - 1] == n);
            }
        }
        if keys_of(r).contains(n) {
            let i = choose|i: int| 0 <= i < keys_of(r).len() && keys_of(r)[i] == n;
            if i < pos {
                assert(keys_of(e)[i] == n);
            } else {
                assert(keys_of(e)[i + 1] == n);
            }
        }
    }
    assert forall|n: Seq<char>| n != name implies #[trigger] last_def(r, n) == last_def(e, n) by {
        lemma_last_def_remove(e, pos, n);
    }
    assert forall|i: int| 0 <= i < e.len() - 1 implies e.contains(#[trigger] r[i]) by {
        if i < pos {
            assert(e[i] == r[i]);
        } else {
            assert(e[i + 1] == r[i]);
        }
    }
}

/// The state of the resolver: the definitions not yet compiled, the
/// variables, the settings, and the table built so far, where action `k` is
/// named `action_names[k]` and compiled to `runtime_actions[k]`.
pub struct RuntimeHelper {
    pub actions: Vec<(String, Vec<config::Task>)>,
    pub variables: Vec<(String, VStr)>,
    pub settings: Settings,
    pub action_names: Vec<String>,
    pub runtime_actions: Vec<Vec<CompiledTask>>,
    /// The definition that action `k` was compiled from.
    pub defs: Ghost<Seq<Seq<TaskModel>>>,
}

impl RuntimeHelper {
    pub open spec fn vars(&self) -> VarsModel {
        self.variables@.map_values(|p: (String, VStr)| (p.0@, p.1.model()))
    }

    pub open spec fn names(&self) -> Seq<Seq<char>> {
        self.action_names@.map_values(|s: String| s@)
    }

    pub open spec fn pending_keys(&self) -> Seq<Seq<char>> {
        self.actions@.map_values(|p: (String, Vec<config::Task>)| p.0@)
    }

    /// The tasks of the pending definition at `i`.
    pub open spec fn pending_tasks(&self, i: int) -> Seq<TaskModel> {
        self.actions@[i].1@.map_values(|t: config::Task| t.model())
    }

    /// The pending definitions, as text.
    pub open spec fn pending(&self) -> Seq<(Seq<char>, Seq<TaskModel>)> {
        self.actions@.map_values(
            |p: (String, Vec<config::Task>)| (p.0@, p.1@.map_values(|t: config::Task| t.model())),
        )
    }

    /// Takes in a configuration: no action is compiled yet, and every
    /// definition and variable of every block is kept, in order.
    pub fn new(con: Config) -> (r: RuntimeHelper)
        ensures
            r.wf(),
            r.pending() == config_actions(con),
            r.vars() == config_vars(con),
            r.settings == con.settings,
            r.action_names@.len() == 0,
    {
        let ghost total_vars = config_vars(con);
        let ghost total_actions = config_actions(con);
        let Config { settings, varibles, actions } = con;
        let mut blocks = varibles;
        let mut variables: Vec<(String, VStr)> = Vec::new();
        while blocks.len() > 0
            invariant
                variables@.map_values(|p: (String, VStr)| (p.0@, p.1.model())) + blocks@.map_values(
                    |b: config::Variables| block_vars(b),
                ).flatten() == total_vars,
            decreases blocks@.len(),
        {
            let ghost bm = blocks@.map_values(|b: config::Variables| block_vars(b));
            let b = blocks.remove(0);
            proof {
                assert(bm.drop_first() =~= blocks@.map_values(|b: config::Variables| block_vars(b)));
            }
            let mut vs = b.variables;
            assert(vs@.map_values(|v: config::Variable| (v.name@, v.value.model())) == bm[0]);
            while vs.len() > 0
                invariant
                    variables@.map_values(|p: (String, VStr)| (p.0@, p.1.model())) + vs@.map_values(
                        |v: config::Variable| (v.name@, v.value.model()),
                    ) + blocks@.map_values(|b: config::Variables| block_vars(b)).flatten()
                        == total_vars,
                decreases vs@.len(),
            {
                let ghost before = variables@.map_values(|p: (String, VStr)| (p.0@, p.1.model()));
                let ghost vm = vs@.map_values(|v: config::Variable| (v.name@, v.value.model()));
                let v = vs.remove(0);
                variables.push((v.name, v.value));
                proof {
                    assert(variables@.map_values(|p: (String, VStr)| (p.0@, p.1.model())) =~= before.push(vm[0]));
                    assert(vm.drop_first() =~= vs@.map_values(|v: config::Variable| (v.name@, v.value.model())));
                    assert(before.push(vm[0]) + vm.drop_first() =~= before + vm);
                }
            }
        }
        let mut blocks = actions;
        let mut pending: Vec<(String, Vec<config::Task>)> = Vec::new();
        while blocks.len() > 0
            invariant
                pending@.map_values(
                    |p: (String, Vec<config::Task>)| (p.0@, p.1@.map_values(|t: config::Task| t.model())),
                ) + blocks@.map_values(|b: config::Actions| block_actions(b)).flatten()
                    == total_actions,
            decreases blocks@.len(),
        {
            let ghost bm = blocks@.map_values(|b: config::Actions| block_actions(b));
            let b = blocks.remove(0);
            proof {
                assert(bm.drop_first() =~= blocks@.map_values(|b: config::Actions| block_actions(b)));
            }
            let mut acts = b.actions;
            assert(acts@.map_values(
                |a: config::Action| (a.event@, a.tasks@.map_values(|t: config::Task| t.model())),
            ) == bm[0]);
            while acts.len() > 0
                invariant
                    pending@.map_values(
                        |p: (String, Vec<config::Task>)| (p.0@, p.1@.map_values(|t: config::Task| t.model())),
                    ) + acts@.map_values(
                        |a: config::Action| (a.event@, a.tasks@.map_values(|t: config::Task| t.model())),
                    ) + blocks@.map_values(|b: config::Actions| block_actions(b)).flatten()
                        == total_actions,
                decreases acts@.len(),
            {
                let ghost before = pending@.map_values(
                    |p: (String, Vec<config::Task>)| (p.0@, p.1@.map_values(|t: config::Task| t.model())),
                );
                let ghost am = acts@.map_values(
                    |a: config::Action| (a.event@, a.tasks@.map_values(|t: config::Task| t.model())),
                );
                let a = acts.remove(0);
                pending.push((a.event, a.tasks));
                proof {
                    assert(pending@.map_values(
                        |p: (String, Vec<config::Task>)| (p.0@, p.1@.map_values(|t: config::Task| t.model())),
                    ) =~= before.push(am[0]));
                    assert(am.drop_first() =~= acts@.map_values(
                        |a: config::Action| (a.event@, a.tasks@.map_values(|t: config::Task| t.model())),
                    ));
                    assert(before.push(am[0]) + am.drop_first() =~= before + am);
                }
            }
        }
        assert(variables@.map_values(|p: (String, VStr)| (p.0@, p.1.model())) =~= total_vars);
        let r = RuntimeHelper {
            actions: pending,
            variables,
            settings,
            action_names: Vec::new(),
            runtime_actions: Vec::new(),
            defs: Ghost(Seq::empty()),
        };
        assert(r.pending() =~= total_actions);
        assert(r.names() =~= Seq::<Seq<char>>::empty());
        r
    }

    /// The ids are dense: each names one action, each compiled reference
    /// points into the table, and each command has a program.
    pub open spec fn wf(&self) -> bool {
        &&& self.action_names@.len() == self.runtime_actions@.len()
        &&& self.defs@.len() == self.runtime_actions@.len()
        &&& self.names().no_duplicates()
        &&& forall|n: Seq<char>|
            #[trigger] self.names().contains(n) ==> !self.pending_keys().contains(n)
        &&& forall|k: int|
            0 <= k < self.runtime_actions@.len() ==> action_valid(
                #[trigger] self.runtime_actions@[k],
                self.runtime_actions@.len() as nat,
            )
    }

    /// Every task of every pending definition compiles once the actions it
    /// refers to do, and those are compiled or pending.
    pub open spec fn pending_ok(&self) -> bool {
        forall|i: int, j: int|
            0 <= i < self.pending().len() && 0 <= j < self.pending()[i].1.len() ==> task_ok_in(
                self.vars(),
                self.names(),
                self.pending_keys(),
                #[trigger] self.pending()[i].1[j],
            )
    }

    pub proof fn lemma_task_ok_grow(a: RuntimeHelper, b: RuntimeHelper, t: TaskModel)
        requires
            b.grows_from(a),
            task_ok_in(a.vars(), a.names(), a.pending_keys(), t),
        ensures
            task_ok_in(b.vars(), b.names(), b.pending_keys(), t),
    {
        if t is Action {
            let n = vstr_value(a.vars(), t->Action_0)->Found_0;
            if a.names().contains(n) {
                let i = choose|i: int| 0 <= i < a.names().len() && a.names()[i] == n;
                assert(b.names().subrange(0, a.names().len() as int)[i] == b.names()[i]);
            } else if !b.names().contains(n) {
                assert(b.pending_keys().contains(n));
            }
        }
    }

    pub proof fn lemma_pending_ok_grow(a: RuntimeHelper, b: RuntimeHelper)
        requires
            b.grows_from(a),
            a.pending_ok(),
        ensures
            b.pending_ok(),
    {
        assert forall|i: int, j: int|
            0 <= i < b.pending().len() && 0 <= j < b.pending()[i].1.len() implies task_ok_in(
            b.vars(),
            b.names(),
            b.pending_keys(),
            #[trigger] b.pending()[i].1[j],
        ) by {
            assert(a.pending().contains(b.pending()[i]));
            let m = choose|m: int| 0 <= m < a.pending().len() && a.pending()[m] == b.pending()[i];
            assert(task_ok_in(a.vars(), a.names(), a.pending_keys(), a.pending()[m].1[j]));
            Self::lemma_task_ok_grow(a, b, b.pending()[i].1[j]);
        }
    }

    /// Action `x` of the table is the compilation of its definition.
    pub open spec fn compiled_at(&self, x: int) -> bool {
        action_compiles(self.vars(), self.names(), self.defs@[x], self.runtime_actions@[x]@)
    }

    /// `self` is `old` after more of the table was compiled.
    pub open spec fn grows_from(&self, old: RuntimeHelper) -> bool {
        &&& self.variables == old.variables
        &&& self.settings == old.settings
        &&& self.actions@.len() <= old.actions@.len()
        &&& old.names().len() <= self.names().len()
        &&& self.names().subrange(0, old.names().len() as int) == old.names()
        &&& old.runtime_actions@.len() <= self.runtime_actions@.len()
        &&& forall|n: Seq<char>|
            !#[trigger] self.names().contains(n) ==> (self.pending_keys().contains(n)
                <==> old.pending_keys().contains(n))
        &&& forall|n: Seq<char>|
            #[trigger] self.names().contains(n) && !old.names().contains(n)
                ==> old.pending_keys().contains(n)
        &&& forall|n: Seq<char>|
            !#[trigger] self.names().contains(n) ==> last_def(self.pending(), n) == last_def(
                old.pending(),
                n,
            )
        &&& forall|i: int|
            0 <= i < self.pending().len() ==> old.pending().contains(#[trigger] self.pending()[i])
        &&& old.defs@.len() <= self.defs@.len()
        &&& forall|i: int| 0 <= i < old.defs@.len() ==> #[trigger] self.defs@[i] == old.defs@[i]
        &&& forall|x: int|
            old.names().len() <= x < self.names().len() ==> last_def(
                old.pending(),
                #[trigger] self.names()[x],
            ) == Some(self.defs@[x])
        &&& forall|i: int|
            0 <= i < old.runtime_actions@.len() ==> #[trigger] self.runtime_actions@[i]
                == old.runtime_actions@[i]
    }

    pub proof fn lemma_grows_trans(a: RuntimeHelper, b: RuntimeHelper, c: RuntimeHelper)
        requires
            b.grows_from(a),
            c.grows_from(b),
            b.wf(),
            c.wf(),
        ensures
            c.grows_from(a),
    {
        assert forall|x: int| 0 <= x < a.names().len() implies c.names()[x] == a.names()[x] by {
            assert(c.names().subrange(0, b.names().len() as int)[x] == c.names()[x]);
            assert(b.names().subrange(0, a.names().len() as int)[x] == b.names()[x]);
        }
        assert(c.names().subrange(0, a.names().len() as int) =~= a.names());
        assert forall|n: Seq<char>| !#[trigger] c.names().contains(n) implies !b.names().contains(n) by {
            if b.names().contains(n) {
                let i = choose|i: int| 0 <= i < b.names().len() && b.names()[i] == n;
                assert(c.names().subrange(0, b.names().len() as int)[i] == c.names()[i]);
            }
        }
        assert forall|i: int| 0 <= i < c.pending().len() implies a.pending().contains(
            #[trigger] c.pending()[i],
        ) by {
            let j = choose|j: int| 0 <= j < b.pending().len() && b.pending()[j] == c.pending()[i];
            assert(a.pending().contains(b.pending()[j]));
        }
        assert forall|x: int|
            a.names().len() <= x < c.names().len() implies last_def(
            a.pending(),
            #[trigger] c.names()[x],
        ) == Some(c.defs@[x]) by {
            if x < b.names().len() {
                assert(c.names().subrange(0, b.names().len() as int)[x] == c.names()[x]);
                assert(last_def(a.pending(), b.names()[x]) == Some(b.defs@[x]));
            } else {
                assert(last_def(b.pending(), c.names()[x]) == Some(c.defs@[x]));
                if b.names().contains(c.names()[x]) {
                    let i = choose|i: int| 0 <= i < b.names().len() && b.names()[i] == c.names()[x];
                    assert(c.names().subrange(0, b.names().len() as int)[i] == c.names()[i]);
                }
            }
        }
    }

    pub proof fn lemma_grows_refl(a: RuntimeHelper)
        ensures
            a.grows_from(a),
    {
        assert(a.names().subrange(0, a.names().len() as int) =~= a.names());
        assert forall|i: int| 0 <= i < a.pending().len() implies a.pending().contains(
            #[trigger] a.pending()[i],
        ) by {}
    }

    /// The index of the last variable named `name`.
    fn find_variable(&self, name: &String) -> (r: Option<usize>)
        ensures
            r is None ==> var_lookup(self.vars(), name@) is None,
            r is Some ==> r->Some_0 < self.variables@.len() && var_lookup(self.vars(), name@)
                == Some(self.variables@[r->Some_0 as int].1.model()),
    {
        let mut i: usize = self.variables.len();
        assert(self.vars().subrange(0, i as int) =~= self.vars());
        while i > 0
            invariant
                i <= self.variables@.len(),
                var_lookup(self.vars(), name@) == var_lookup(
                    self.vars().subrange(0, i as int),
                    name@,
                ),
            decreases i,
        {
            let ghost prefix = self.vars().subrange(0, i as int);
            assert(prefix.drop_last() =~= self.vars().subrange(0, i - 1));
            i = i - 1;
            if self.variables[i].0.eq(name) {
                return Some(i);
            }
        }
        assert(self.vars().subrange(0, 0) =~= Seq::<(Seq<char>, VStrModel)>::empty());
        None
    }

    fn contains_name(v: &Vec<String>, name: &String) -> (r: bool)
        ensures
            r == v@.map_values(|s: String| s@).contains(name@),
    {
        let ghost m = v@.map_values(|s: String| s@);
        let mut i: usize = 0;
        while i < v.len()
            invariant
                i <= v@.len(),
                m == v@.map_values(|s: String| s@),
                forall|j: int| 0 <= j < i ==> m[j] != name@,
            decreases v@.len() - i,
        {
            if v[i].eq(name) {
                assert(m[i as int] == name@);
                return true;
            }
            i = i + 1;
        }
        false
    }

    /// Follows the indirections from the variable `name` to a literal. A
    /// chain that comes back to a name already passed is reported as a cycle.
    pub fn get_variable(&self, name: &str) -> (r: Result<String, ResolveError>)
        ensures
            str_result(var_value(self.vars(), name@), r),
    {
        let ghost vars = self.vars();
        let mut cur: String = name.to_owned();
        let mut visited: Vec<String> = Vec::new();
        visited.push(cur.clone());
        assert(chain(vars, name@, 0) == Some(name@));
        loop
            invariant
                vars == self.vars(),
                visited@.len() >= 1,
                visited@.map_values(|s: String| s@).no_duplicates(),
                forall|i: int|
                    0 <= i < visited@.len() ==> chain(vars, name@, i as nat) == Some(
                        #[trigger] visited@[i]@,
                    ),
                cur@ == visited@.last()@,
                forall|i: int|
                    0 <= i < visited@.len() - 1 ==> var_lookup(vars, #[trigger] visited@[i]@) is Some,
                visited@.len() <= self.variables@.len() + 1,
            decreases self.variables@.len() + 1 - visited@.len(),
        {
            let ghost steps = (visited@.len() - 1) as nat;
            assert(chain(vars, name@, steps) == Some(cur@));
            match self.find_variable(&cur) {
                None => {
                    proof {
                        lemma_chain_shift(vars, name@, steps, cur@, 1);
                        lemma_var_value(vars, name@, 1 + steps);
                    }
                    return Err(ResolveError::MissingVariable(cur));
                },
                Some(i) => {
                    match &self.variables[i].1 {
                        VStr::Value(v) => {
                            proof {
                                lemma_chain_shift(vars, name@, steps, cur@, 1);
                                lemma_var_value(vars, name@, 1 + steps);
                            }
                            return Ok(v.clone());
                        },
                        VStr::Config(c) => {
                            proof {
                                lemma_chain_compose(vars, name@, steps, cur@, 1);
                                assert(self.variables@[i as int].1.model() == VStrModel::Config(c@));
                                assert(chain(vars, c@, 0) == Some(c@));
                                assert(chain(vars, cur@, 1) == Some(c@));
                            }
                            if Self::contains_name(&visited, c) {
                                proof {
                                    let m = visited@.map_values(|s: String| s@);
                                    let j = choose|j: int| 0 <= j < m.len() && m[j] == c@;
                                    assert(chain(vars, name@, j as nat) == Some(visited@[j]@));
                                    lemma_chain_compose(
                                        vars,
                                        name@,
                                        j as nat,
                                        c@,
                                        (steps + 1 - j) as nat,
                                    );
                                    assert(j as nat + (steps + 1 - j) as nat == steps + 1);
                                    lemma_reaches_cycle(
                                        vars,
                                        name@,
                                        j as nat,
                                        c@,
                                        (steps + 1 - j) as nat,
                                    );
                                }
                                return Err(ResolveError::VariableCycle(c.clone()));
                            }
                            proof {
                                let m = visited@.map_values(|s: String| s@);
                                assert forall|k: int| 0 <= k < m.len() implies var_keys(
                                    vars,
                                ).contains(#[trigger] m[k]) by {
                                    lemma_lookup_key(vars, visited@[k]@);
                                }
                                lemma_distinct_within(m, var_keys(vars));
                            }
                            let ghost old_visited = visited@;
                            visited.push(c.clone());
                            cur = c.clone();
                            proof {
                                let m0 = old_visited.map_values(|s: String| s@);
                                let m = visited@.map_values(|s: String| s@);
                                assert(m =~= m0.push(c@));
                                assert forall|a: int, b: int|
                                    0 <= a < m.len() && 0 <= b < m.len() && a != b implies m[a]
                                    != m[b] by {
                                    if a < m0.len() && b < m0.len() {
                                        assert(m[a] == m0[a] && m[b] == m0[b]);
                                    } else if a < m0.len() {
                                        assert(m0.contains(m0[a]));
                                    } else {
                                        assert(m0.contains(m0[b]));
                                    }
                                }
                                assert(chain(vars, name@, steps + 1) == Some(c@));
                            }
                        },
                    }
                },
            }
        }
    }

    /// The string that a configuration string stands for.
    pub fn resolve_vstr(&self, s: VStr) -> (r: Result<String, ResolveError>)
        ensures
            str_result(vstr_value(self.vars(), s.model()), r),
    {
        match s {
            VStr::Value(v) => Ok(v),
            VStr::Config(c) => self.get_variable(c.as_str()),
        }
    }

    /// The id of the action named `name`, if it has one.
    fn find_id(&self, name: &String) -> (r: Option<usize>)
        ensures
            r is None ==> !self.names().contains(name@),
            r is Some ==> r->Some_0 < self.names().len() && self.names()[r->Some_0 as int]
                == name@,
    {
        let mut i: usize = 0;
        while i < self.action_names.len()
            invariant
                i <= self.action_names@.len(),
                forall|j: int| 0 <= j < i ==> self.names()[j] != name@,
            decreases self.action_names@.len() - i,
        {
            if self.action_names[i].eq(name) {
                return Some(i);
            }
            i = i + 1;
        }
        None
    }

    /// The index of the last pending definition named `name`.
    fn find_pending(&self, name: &String) -> (r: Option<usize>)
        ensures
            r is None ==> last_index(self.pending_keys(), name@) == -1,
            r is Some ==> r->Some_0 as int == last_index(self.pending_keys(), name@),
    {
        let mut i: usize = self.actions.len();
        assert(self.pending_keys().subrange(0, i as int) =~= self.pending_keys());
        while i > 0
            invariant
                i <= self.actions@.len(),
                last_index(self.pending_keys(), name@) == last_index(
                    self.pending_keys().subrange(0, i as int),
                    name@,
                ),
            decreases i,
        {
            let ghost prefix = self.pending_keys().subrange(0, i as int);
            assert(prefix.drop_last() =~= self.pending_keys().subrange(0, i - 1));
            i = i - 1;
            if self.actions[i].0.eq(name) {
                return Some(i);
            }
        }
        assert(self.pending_keys().subrange(0, 0) =~= Seq::<Seq<char>>::empty());
        None
    }

    /// The id of the action named `name`, compiling it first if it has none
    /// yet. `None` where no action of that name is defined.
    ///
    /// The id is given before the tasks are compiled, so an action that
    /// refers to itself, directly or through others, compiles.
    pub fn get_action(&mut self, name: &str) -> (r: Option<Result<ActionId, ResolveError>>)
        requires
            old(self).wf(),
        ensures
            final(self).wf(),
            final(self).grows_from(*old(self)),
            r is Some && r->Some_0 is Ok ==> forall|x: int|
                old(self).names().len() <= x < final(self).names().len() ==> #[trigger] final(self).compiled_at(x),
            r is Some ==> final(self).names().contains(name@)
                && !final(self).pending_keys().contains(name@),
            old(self).pending_ok() && (old(self).names().contains(name@)
                || old(self).pending_keys().contains(name@)) ==> r is Some && r->Some_0 is Ok,
            old(self).names().contains(name@) ==> {
                &&& *final(self) == *old(self)
                &&& r is Some
                &&& r->Some_0 is Ok
                &&& r->Some_0->Ok_0.0 as int == old(self).names().index_of(name@)
            },
            !old(self).names().contains(name@) && last_index(old(self).pending_keys(), name@)
                == -1 ==> *final(self) == *old(self) && r is None,
            !old(self).names().contains(name@) && last_index(old(self).pending_keys(), name@)
                >= 0 ==> {
                let k = old(self).names().len();
                &&& r is Some
                &&& final(self).names().len() > k
                &&& final(self).names()[k as int] == name@
                &&& r->Some_0 is Ok ==> {
                    &&& r->Some_0->Ok_0.0 as int == k
                    &&& action_compiles(
                        final(self).vars(),
                        final(self).names(),
                        old(self).pending_tasks(last_index(old(self).pending_keys(), name@)),
                        final(self).runtime_actions@[k as int]@,
                    )
                }
            },
        decreases old(self).actions@.len(), 0nat,
    {
        let key: String = name.to_owned();
        match self.find_id(&key) {
            Some(i) => {
                proof {
                    assert(self.names().contains(name@));
                    let j = self.names().index_of(name@);
                    assert(self.names()[j] == name@);
                    assert(self.names()[i as int] == name@);
                    Self::lemma_grows_refl(*self);
                }
                return Some(Ok(ActionId(i)));
            },
            None => {},
        }
        let pos = match self.find_pending(&key) {
            Some(p) => p,
            None => {
                proof {
                    Self::lemma_grows_refl(*self);
                    lemma_last_index_bounds(self.pending_keys(), name@);
                }
                return None;
            },
        };
        let ghost start = *self;
        proof {
            lemma_last_index_bounds(self.pending_keys(), name@);
        }
        let (_, tasks) = self.actions.remove(pos);
        proof {
            assert(start.pending().map_values(|p: (Seq<char>, Seq<TaskModel>)| p.0) =~= start.pending_keys());
            assert(start.pending()[pos as int].0 == name@);
            assert(self.pending() =~= start.pending().remove(pos as int));
            lemma_remove_entry(start.pending(), pos as int, name@);
        }
        loop
            invariant
                self.action_names == start.action_names,
                self.runtime_actions == start.runtime_actions,
                self.defs == start.defs,
                self.variables == start.variables,
                self.settings == start.settings,
                self.actions@.len() < start.actions@.len(),
                key@ == name@,
                forall|n: Seq<char>|
                    n != name@ ==> (#[trigger] keys_of(self.pending()).contains(n) <==> keys_of(
                        start.pending(),
                    ).contains(n)),
                forall|n: Seq<char>|
                    n != name@ ==> #[trigger] last_def(self.pending(), n) == last_def(
                        start.pending(),
                        n,
                    ),
                forall|i: int|
                    0 <= i < self.pending().len() ==> start.pending().contains(
                        #[trigger] self.pending()[i],
                    ),
            ensures
                !self.pending_keys().contains(name@),
            decreases self.actions@.len(),
        {
            match self.find_pending(&key) {
                None => {
                    proof {
                        lemma_last_index_bounds(self.pending_keys(), name@);
                    }
                    break;
                },
                Some(j) => {
                    let ghost before = self.pending();
                    proof {
                        lemma_last_index_bounds(self.pending_keys(), name@);
                        assert(before.map_values(|p: (Seq<char>, Seq<TaskModel>)| p.0) =~= self.pending_keys());
                        assert(before[j as int].0 == name@);
                        lemma_remove_entry(before, j as int, name@);
                    }
                    let _ = self.actions.remove(j);
                    proof {
                        assert(self.pending() =~= before.remove(j as int));
                        assert forall|i: int| 0 <= i < self.pending().len() implies start.pending().contains(
                            #[trigger] self.pending()[i],
                        ) by {
                            assert(before.contains(before.remove(j as int)[i]));
                            let m = choose|m: int| 0 <= m < before.len() && before[m] == self.pending()[i];
                            assert(start.pending().contains(before[m]));
                        }
                    }
                },
            }
        }
        proof {
            assert(keys_of(self.pending()) =~= self.pending_keys());
            assert(keys_of(start.pending()) =~= start.pending_keys());
        }
        let ghost task_models = tasks@.map_values(|t: config::Task| t.model());
        assert(task_models == start.pending_tasks(pos as int));
        let k = self.runtime_actions.len();
        self.runtime_actions.push(Vec::new());
        self.action_names.push(key);
        self.defs = Ghost(self.defs@.push(task_models));
        proof {
            assert(self.names() =~= start.names().push(name@));
            assert(self.names().subrange(0, start.names().len() as int) =~= start.names());
            assert forall|a: int, b: int|
                0 <= a < self.names().len() && 0 <= b < self.names().len() && a != b implies self.names()[a]
                != self.names()[b] by {
                if a < k && b < k {
                } else if a < k {
                    assert(start.names().contains(start.names()[a]));
                } else {
                    assert(start.names().contains(start.names()[b]));
                }
            }
            assert forall|j: int| 0 <= j < self.runtime_actions@.len() implies action_valid(
                #[trigger] self.runtime_actions@[j],
                self.runtime_actions@.len() as nat,
            ) by {
                if j < k {
                    assert(self.runtime_actions@[j] == start.runtime_actions@[j]);
                    assert(action_valid(start.runtime_actions@[j], k as nat));
                }
            }
        }
        let ghost mid = *self;
        proof {
            assert forall|i: int| 0 <= i < start.runtime_actions@.len() implies #[trigger] mid.runtime_actions@[i]
                == start.runtime_actions@[i] by {}
            assert forall|n: Seq<char>| !#[trigger] mid.names().contains(n) implies (mid.pending_keys().contains(n)
                <==> start.pending_keys().contains(n)) by {
                if n == name@ {
                    assert(mid.names()[k as int] == name@);
                }
            }
            assert forall|n: Seq<char>| #[trigger] mid.names().contains(n) && !start.names().contains(n)
                implies start.pending_keys().contains(n) by {
                let i = choose|i: int| 0 <= i < mid.names().len() && mid.names()[i] == n;
                if i < k {
                    assert(start.names()[i] == n);
                }
                assert(start.pending_keys()[pos as int] == name@);
            }
            assert forall|n: Seq<char>| !#[trigger] mid.names().contains(n) implies last_def(
                mid.pending(),
                n,
            ) == last_def(start.pending(), n) by {
                if n == name@ {
                    assert(mid.names()[k as int] == name@);
                }
            }
            assert forall|n: Seq<char>| #[trigger] mid.names().contains(n) implies !mid.pending_keys().contains(n) by {
                let i = choose|i: int| 0 <= i < mid.names().len() && mid.names()[i] == n;
                if i < k {
                    assert(start.names()[i] == n);
                    assert(start.names().contains(n));
                    assert(!start.pending_keys().contains(n));
                    assert(!keys_of(start.pending()).contains(n));
                    assert(n != name@);
                    assert(!keys_of(mid.pending()).contains(n));
                } else {
                    assert(n == name@);
                }
            }
            assert(start.pending().map_values(|p: (Seq<char>, Seq<TaskModel>)| p.0) =~= start.pending_keys());
            lemma_last_def_index(start.pending(), name@);
            assert(start.pending()[pos as int].1 == task_models);
            assert(mid.grows_from(start));
            if start.pending_ok() {
                Self::lemma_pending_ok_grow(start, mid);
                assert forall|j: int| 0 <= j < task_models.len() implies task_ok_in(
                    mid.vars(),
                    mid.names(),
                    mid.pending_keys(),
                    #[trigger] task_models[j + 0],
                ) by {
                    assert(task_models[j + 0] == start.pending()[pos as int].1[j]);
                    Self::lemma_task_ok_grow(start, mid, task_models[j]);
                }
            }
            Self::lemma_grows_refl(mid);
        }
        let mut rest = tasks;
        let mut compiled: Vec<CompiledTask> = Vec::new();
        while rest.len() > 0
            invariant
                self.wf(),
                self.grows_from(mid),
                start == *old(self),
                !start.names().contains(name@),
                last_index(start.pending_keys(), name@) == pos as int,
                mid.names().len() == start.names().len() + 1,
                mid.grows_from(start),
                mid.wf(),
                k < mid.names().len(),
                mid.defs@[k as int] == task_models,
                start.pending_ok() ==> self.pending_ok(),
                start.pending_ok() ==> forall|j: int|
                    0 <= j < rest@.len() ==> task_ok_in(
                        self.vars(),
                        self.names(),
                        self.pending_keys(),
                        #[trigger] task_models[j + compiled@.len()],
                    ),
                forall|x: int| k < x < self.names().len() ==> #[trigger] self.compiled_at(x),
                self.actions@.len() < start.actions@.len(),
                k < self.names().len(),
                self.runtime_actions@[k as int]@.len() == 0,
                self.names()[k as int] == name@,
                compiled@.len() + rest@.len() == task_models.len(),
                forall|j: int|
                    0 <= j < rest@.len() ==> (#[trigger] rest@[j]).model() == task_models[j
                        + compiled@.len()],
                forall|j: int|
                    0 <= j < compiled@.len() ==> task_compiles(
                        self.vars(),
                        self.names(),
                        task_models[j],
                        #[trigger] compiled@[j],
                    ),
            decreases rest@.len(),
        {
            let t = rest.remove(0);
            let ghost before = *self;
            let ghost clen = compiled@.len();
            assert(t.model() == task_models[compiled@.len() as int]);
            assert(self.actions@.len() < old(self).actions@.len());
            match self.resolve_task(t) {
                Ok(c) => {
                    proof {
                        assert forall|j: int| 0 <= j < compiled@.len() implies task_compiles(
                            self.vars(),
                            self.names(),
                            task_models[j],
                            #[trigger] compiled@[j],
                        ) by {
                            lemma_task_compiles_grow(
                                self.vars(),
                                before.names(),
                                self.names(),
                                task_models[j],
                                compiled@[j],
                            );
                        }
                        Self::lemma_grows_trans(mid, before, *self);
                        if start.pending_ok() {
                            Self::lemma_pending_ok_grow(before, *self);
                            assert forall|j: int| 0 <= j < rest@.len() implies task_ok_in(
                                self.vars(),
                                self.names(),
                                self.pending_keys(),
                                #[trigger] task_models[j + clen + 1],
                            ) by {
                                assert(task_ok_in(
                                    before.vars(),
                                    before.names(),
                                    before.pending_keys(),
                                    task_models[(j + 1) + clen],
                                ));
                                assert((j + 1) + clen == j + clen + 1);
                                Self::lemma_task_ok_grow(before, *self, task_models[j + clen + 1]);
                            }
                        }
                        assert forall|x: int| k < x < self.names().len() implies #[trigger] self.compiled_at(x) by {
                            if x < before.names().len() {
                                assert(before.compiled_at(x));
                                assert(self.runtime_actions@[x] == before.runtime_actions@[x]);
                                assert(self.defs@[x] == before.defs@[x]);
                                lemma_action_compiles_grow(
                                    self.vars(),
                                    before.names(),
                                    self.names(),
                                    before.defs@[x],
                                    before.runtime_actions@[x]@,
                                );
                            }
                        }
                        assert(self.names()[k as int] == name@) by {
                            assert(self.names().subrange(0, mid.names().len() as int)[k as int] == self.names()[k as int]);
                        }
                    }
                    compiled.push(c);
                    proof {
                        if start.pending_ok() {
                            assert forall|j: int| 0 <= j < rest@.len() implies task_ok_in(
                                self.vars(),
                                self.names(),
                                self.pending_keys(),
                                #[trigger] task_models[j + compiled@.len()],
                            ) by {
                                assert(j + compiled@.len() == j + clen + 1);
                            }
                        }
                    }
                },
                Err(e) => {
                    proof {
                        Self::lemma_grows_trans(mid, before, *self);
                        Self::lemma_grows_trans(start, mid, *self);
                    }
                    return Some(Err(e));
                },
            }
        }
        let ghost pre_set = *self;
        proof {
            assert forall|j: int| 0 <= j < compiled@.len() implies task_valid(
                #[trigger] compiled@[j],
                self.runtime_actions@.len() as nat,
            ) by {
                assert(self.names().subrange(0, self.names().len() as int) =~= self.names());
                lemma_task_compiles_grow(
                    self.vars(),
                    self.names(),
                    self.names(),
                    task_models[j],
                    compiled@[j],
                );
            }
        }
        self.runtime_actions.set(k, compiled);
        proof {
            assert forall|j: int| 0 <= j < self.runtime_actions@.len() implies action_valid(
                #[trigger] self.runtime_actions@[j],
                self.runtime_actions@.len() as nat,
            ) by {
                if j != k {
                    assert(self.runtime_actions@[j] == pre_set.runtime_actions@[j]);
                }
            }
            Self::lemma_grows_trans(start, mid, pre_set);
            assert(self.names() == pre_set.names());
            assert forall|i: int| 0 <= i < start.runtime_actions@.len() implies #[trigger] self.runtime_actions@[i]
                == start.runtime_actions@[i] by {
                assert(self.runtime_actions@[i] == pre_set.runtime_actions@[i]);
            }
            assert(self.grows_from(start));
            assert(self.runtime_actions@[k as int]@ == compiled@);
            assert(self.defs@[k as int] == mid.defs@[k as int]);
            assert forall|x: int| k <= x < self.names().len() implies #[trigger] self.compiled_at(x) by {
                if x != k {
                    assert(pre_set.compiled_at(x));
                    assert(self.runtime_actions@[x] == pre_set.runtime_actions@[x]);
                }
            }
        }
        proof {
            assert(self.names()[k as int] == name@);
            assert(self.names().contains(name@));
        }
        Some(Ok(ActionId(k)))
    }

    /// Compiles one task: its strings are resolved, and a referenced action
    /// is compiled too, where it has no id yet.
    pub fn resolve_task(&mut self, task: config::Task) -> (r: Result<CompiledTask, ResolveError>)
        requires
            old(self).wf(),
        ensures
            final(self).wf(),
            final(self).grows_from(*old(self)),
            r is Ok ==> task_compiles(final(self).vars(), final(self).names(), task.model(), r->Ok_0),
            r is Ok ==> forall|x: int|
                old(self).names().len() <= x < final(self).names().len() ==> #[trigger] final(self).compiled_at(x),
            old(self).pending_ok() && task_ok_in(
                old(self).vars(),
                old(self).names(),
                old(self).pending_keys(),
                task.model(),
            ) ==> r is Ok,
            !(task is Action) ==> *final(self) == *old(self),
            !(task is Action) ==> (r is Ok <==> plain_task_compiles(old(self).vars(), task.model())),
            task_failure(old(self).vars(), task.model(), r),
            task is Action ==> ({
                let w = vstr_value(old(self).vars(), task.model()->Action_0);
                &&& !(w is Found) ==> *final(self) == *old(self) && r is Err
                &&& w is Found && old(self).names().contains(w->Found_0) ==> *final(self)
                    == *old(self) && r is Ok
                &&& w is Found && !old(self).names().contains(w->Found_0)
                    && !old(self).pending_keys().contains(w->Found_0) ==> *final(self)
                    == *old(self) && r is Err && r->Err_0 is MissingAction
                    && r->Err_0->MissingAction_0@ == w->Found_0
            }),
        decreases old(self).actions@.len(), 1nat,
    {
        match task {
            config::Task::Action(v) => {
                let ghost vm = v.model();
                let name = match self.resolve_vstr(v) {
                    Ok(n) => n,
                    Err(e) => {
                        proof {
                            Self::lemma_grows_refl(*self);
                        }
                        return Err(e);
                    },
                };
                let ghost pre = *self;
                assert(vstr_value(pre.vars(), vm) == Walk::Found(name@));
                proof {
                    lemma_last_index_bounds(pre.pending_keys(), name@);
                }
                match self.get_action(name.as_str()) {
                    None => Err(ResolveError::MissingAction(name)),
                    Some(Ok(id)) => {
                        proof {
                            let n = pre.names();
                            lemma_last_index_bounds(pre.pending_keys(), name@);
                            if n.contains(name@) {
                                let j = n.index_of(name@);
                                assert(0 <= j < n.len() && n[j] == name@);
                                assert(id.0 as int == j);
                                assert(self.names() == n);
                            } else {
                                assert(id.0 as int == n.len());
                            }
                            assert(id.0 < self.names().len());
                            assert(self.names()[id.0 as int] == name@);
                            assert(self.vars() == pre.vars());
                        }
                        let r = CompiledTask::Action(id);
                        assert(task_compiles(self.vars(), self.names(), task.model(), r));
                        Ok(r)
                    },
                    Some(Err(e)) => Err(e),
                }
            },
            config::Task::Cmd(vs) => {
                proof {
                    Self::lemma_grows_refl(*self);
                }
                let ghost models = vs@.map_values(|v: VStr| v.model());
                if vs.len() == 0 {
                    return Err(ResolveError::EmptyCommand);
                }
                let mut rest = vs;
                let mut args: Vec<String> = Vec::new();
                while rest.len() > 0
                    invariant
                        *self == *old(self),
                        self.wf(),
                        self.grows_from(*old(self)),
                        models == vs@.map_values(|v: VStr| v.model()),
                        task.model() == TaskModel::Cmd(models),
                        models.len() > 0,
                        args@.len() + rest@.len() == models.len(),
                        forall|j: int|
                            0 <= j < rest@.len() ==> (#[trigger] rest@[j]).model() == models[j
                                + args@.len()],
                        forall|j: int|
                            0 <= j < args@.len() ==> vstr_value(self.vars(), #[trigger] models[j])
                                == Walk::Found(args@[j]@),
                    decreases rest@.len(),
                {
                    let v = rest.remove(0);
                    assert(v.model() == models[args@.len() as int]);
                    match self.resolve_vstr(v) {
                        Ok(a) => {
                            args.push(a);
                        },
                        Err(e) => {
                            return Err(e);
                        },
                    }
                }
                let r = CompiledTask::Cmd(args);
                assert(task_compiles(self.vars(), self.names(), task.model(), r));
                Ok(r)
            },
            config::Task::Rotation(v) => {
                proof {
                    Self::lemma_grows_refl(*self);
                }
                let value = match self.resolve_vstr(v) {
                    Ok(s) => s,
                    Err(e) => {
                        return Err(e);
                    },
                };
                if value.eq(&"enable".to_owned()) {
                    Ok(CompiledTask::Rotation(true))
                } else if value.eq(&"disable".to_owned()) {
                    Ok(CompiledTask::Rotation(false))
                } else {
                    Err(ResolveError::InvalidRotation(value))
                }
            },
            config::Task::RotateCalibration(v) => {
                proof {
                    Self::lemma_grows_refl(*self);
                }
                let value = match self.resolve_vstr(v) {
                    Ok(s) => s,
                    Err(e) => {
                        return Err(e);
                    },
                };
                if value.eq(&"normal".to_owned()) {
                    Ok(CompiledTask::RotateCalibration(RotationMode::Normal))
                } else if value.eq(&"rotate90".to_owned()) {
                    Ok(CompiledTask::RotateCalibration(RotationMode::Rotate90))
                } else if value.eq(&"rotate180".to_owned()) {
                    Ok(CompiledTask::RotateCalibration(RotationMode::Rotate180))
                } else if value.eq(&"rotate270".to_owned()) {
                    Ok(CompiledTask::RotateCalibration(RotationMode::Rotate270))
                } else {
                    Err(ResolveError::InvalidCalibration(value))
                }
            },
        }
    }
}

/// An action whose tasks refer to the action itself compiles, and the
/// reference is the action's own id.
pub proof fn lemma_self_reference(
    h: RuntimeHelper,
    tasks: Seq<TaskModel>,
    compiled: Seq<CompiledTask>,
    k: int,
    j: int,
)
    requires
        h.wf(),
        0 <= k < h.names().len(),
        0 <= j < tasks.len(),
        tasks[j] == TaskModel::Action(VStrModel::Value(h.names()[k])),
        action_compiles(h.vars(), h.names(), tasks, compiled),
    ensures
        compiled[j] is Action,
        compiled[j]->Action_0.0 == k,
{
    assert(task_compiles(h.vars(), h.names(), tasks[j], compiled[j]));
    let i = compiled[j]->Action_0.0 as int;
    assert(h.names()[i] == h.names()[k]);
}

} // verus!
