//! Variables and the walk along their `@name` indirections.

use vstd::prelude::*;
use crate::config::VStrModel;

verus! {

/// Variables as text: each entry is a name and its body. A later entry
/// shadows an earlier one of the same name.
pub type VarsModel = Seq<(Seq<char>, VStrModel)>;

/// Where a chain of indirections ends.
pub enum Walk {
    /// At a literal value.
    Found(Seq<char>),
    /// At a name that no variable has.
    Missing(Seq<char>),
    /// Nowhere: the chain goes on (within the steps allowed).
    Unfinished,
}

/// The body of the last variable named `name`.
pub open spec fn var_lookup(vars: VarsModel, name: Seq<char>) -> Option<VStrModel>
    decreases vars.len(),
{
    if vars.len() == 0 {
        None
    } else if vars.last().0 == name {
        Some(vars.last().1)
    } else {
        var_lookup(vars.drop_last(), name)
    }
}

/// Follows the chain from `name` for at most `fuel` lookups.
pub open spec fn walk(vars: VarsModel, name: Seq<char>, fuel: nat) -> Walk
    decreases fuel,
{
    if fuel == 0 {
        Walk::Unfinished
    } else {
        match var_lookup(vars, name) {
            None => Walk::Missing(name),
            Some(VStrModel::Value(s)) => Walk::Found(s),
            Some(VStrModel::Config(n)) => walk(vars, n, (fuel - 1) as nat),
        }
    }
}

/// The chain from `name` ends.
pub open spec fn ends(vars: VarsModel, name: Seq<char>) -> bool {
    exists|n: nat| walk(vars, name, n) != Walk::Unfinished
}

/// Where the chain from `name` ends, or `Unfinished` where it never does.
pub open spec fn var_value(vars: VarsModel, name: Seq<char>) -> Walk {
    if ends(vars, name) {
        walk(vars, name, choose|n: nat| walk(vars, name, n) != Walk::Unfinished)
    } else {
        Walk::Unfinished
    }
}

/// What a configuration string stands for.
pub open spec fn vstr_value(vars: VarsModel, v: VStrModel) -> Walk {
    match v {
        VStrModel::Value(s) => Walk::Found(s),
        VStrModel::Config(n) => var_value(vars, n),
    }
}

/// The name reached from `name` after `k` indirections, if the first `k`
/// lookups all give indirections.
pub open spec fn chain(vars: VarsModel, name: Seq<char>, k: nat) -> Option<Seq<char>>
    decreases k,
{
    if k == 0 {
        Some(name)
    } else {
        match var_lookup(vars, name) {
            Some(VStrModel::Config(n)) => chain(vars, n, (k - 1) as nat),
            _ => None,
        }
    }
}

/// The names of the entries.
pub open spec fn var_keys(vars: VarsModel) -> Seq<Seq<char>> {
    vars.map_values(|p: (Seq<char>, VStrModel)| p.0)
}

/// Once the chain has ended, more fuel changes nothing.
pub proof fn lemma_walk_monotone(vars: VarsModel, name: Seq<char>, n: nat, m: nat)
    requires
        n <= m,
        walk(vars, name, n) != Walk::Unfinished,
    ensures
        walk(vars, name, m) == walk(vars, name, n),
    decreases n,
{
    match var_lookup(vars, name) {
        Some(VStrModel::Config(b)) => {
            lemma_walk_monotone(vars, b, (n - 1) as nat, (m - 1) as nat);
        },
        _ => {},
    }
}

/// An ended walk gives the value of the chain.
pub proof fn lemma_var_value(vars: VarsModel, name: Seq<char>, n: nat)
    requires
        walk(vars, name, n) != Walk::Unfinished,
    ensures
        var_value(vars, name) == walk(vars, name, n),
{
    let c = choose|c: nat| walk(vars, name, c) != Walk::Unfinished;
    if c <= n {
        lemma_walk_monotone(vars, name, c, n);
    } else {
        lemma_walk_monotone(vars, name, n, c);
    }
}

pub proof fn lemma_chain_shift(vars: VarsModel, a: Seq<char>, k: nat, c: Seq<char>, n: nat)
    requires
        chain(vars, a, k) == Some(c),
    ensures
        walk(vars, a, n + k) == walk(vars, c, n),
    decreases k,
{
    if k > 0 {
        match var_lookup(vars, a) {
            Some(VStrModel::Config(b)) => {
                lemma_chain_shift(vars, b, (k - 1) as nat, c, n);
                assert((n + k - 1) as nat == n + (k - 1) as nat);
            },
            _ => {},
        }
    }
}

pub proof fn lemma_chain_unfinished(vars: VarsModel, a: Seq<char>, k: nat)
    requires
        chain(vars, a, k) is Some,
    ensures
        walk(vars, a, k) == Walk::Unfinished,
    decreases k,
{
    if k > 0 {
        match var_lookup(vars, a) {
            Some(VStrModel::Config(b)) => {
                lemma_chain_unfinished(vars, b, (k - 1) as nat);
            },
            _ => {},
        }
    }
}

pub proof fn lemma_chain_compose(vars: VarsModel, a: Seq<char>, j: nat, b: Seq<char>, k: nat)
    requires
        chain(vars, a, j) == Some(b),
    ensures
        chain(vars, a, j + k) == chain(vars, b, k),
    decreases j,
{
    if j > 0 {
        match var_lookup(vars, a) {
            Some(VStrModel::Config(n)) => {
                lemma_chain_compose(vars, n, (j - 1) as nat, b, k);
                assert((j + k - 1) as nat == (j - 1) as nat + k);
            },
            _ => {},
        }
    }
}

/// A chain that comes back to its start never ends.
pub proof fn lemma_cycle_never_ends(vars: VarsModel, a: Seq<char>, p: nat, n: nat)
    requires
        p > 0,
        chain(vars, a, p) == Some(a),
    ensures
        walk(vars, a, n) == Walk::Unfinished,
    decreases n,
{
    lemma_chain_unfinished(vars, a, p);
    if walk(vars, a, n) != Walk::Unfinished {
        if n <= p {
            lemma_walk_monotone(vars, a, n, p);
        } else {
            lemma_chain_shift(vars, a, p, a, (n - p) as nat);
            lemma_cycle_never_ends(vars, a, p, (n - p) as nat);
        }
    }
}

/// A chain that reaches a cycle never ends.
pub proof fn lemma_reaches_cycle(vars: VarsModel, name: Seq<char>, j: nat, b: Seq<char>, p: nat)
    requires
        p > 0,
        chain(vars, name, j) == Some(b),
        chain(vars, b, p) == Some(b),
    ensures
        !ends(vars, name),
        var_value(vars, name) == Walk::Unfinished,
{
    assert forall|n: nat| walk(vars, name, n) == Walk::Unfinished by {
        lemma_cycle_never_ends(vars, b, p, n);
        lemma_chain_shift(vars, name, j, b, n);
        if walk(vars, name, n) != Walk::Unfinished {
            lemma_walk_monotone(vars, name, n, n + j);
        }
    }
}

pub proof fn lemma_lookup_key(vars: VarsModel, name: Seq<char>)
    requires
        var_lookup(vars, name) is Some,
    ensures
        var_keys(vars).contains(name),
    decreases vars.len(),
{
    if vars.last().0 == name {
        assert(var_keys(vars)[vars.len() - 1] == name);
    } else {
        lemma_lookup_key(vars.drop_last(), name);
        let i = choose|i: int| 0 <= i < var_keys(vars.drop_last()).len()
            && var_keys(vars.drop_last())[i] == name;
        assert(var_keys(vars)[i] == name);
    }
}

/// Distinct names taken from `keys` are no more than `keys` has entries.
pub proof fn lemma_distinct_within(s: Seq<Seq<char>>, keys: Seq<Seq<char>>)
    requires
        s.no_duplicates(),
        forall|i: int| 0 <= i < s.len() ==> keys.contains(#[trigger] s[i]),
    ensures
        s.len() <= keys.len(),
{
    s.unique_seq_to_set();
    keys.lemma_cardinality_of_set();
    assert(s.to_set().subset_of(keys.to_set())) by {
        assert forall|x: Seq<char>| s.to_set().contains(x) implies keys.to_set().contains(x) by {
            let i = choose|i: int| 0 <= i < s.len() && s[i] == x;
            assert(keys.contains(s[i]));
        }
    }
    vstd::set_lib::lemma_len_subset(s.to_set(), keys.to_set());
}

/// The names along the chain from `name` are pairwise distinct.
pub open spec fn acyclic(vars: VarsModel, name: Seq<char>) -> bool {
    forall|i: nat, j: nat|
        i < j && #[trigger] chain(vars, name, i) is Some && #[trigger] chain(vars, name, j) is Some
            ==> chain(vars, name, i) != chain(vars, name, j)
}

proof fn lemma_unfinished_chain(vars: VarsModel, a: Seq<char>, k: nat, i: nat)
    requires
        walk(vars, a, k) == Walk::Unfinished,
        i < k,
    ensures
        chain(vars, a, i) is Some,
        var_lookup(vars, chain(vars, a, i)->Some_0) is Some,
    decreases i,
{
    match var_lookup(vars, a) {
        Some(VStrModel::Config(b)) => {
            if i > 0 {
                lemma_unfinished_chain(vars, b, (k - 1) as nat, (i - 1) as nat);
            }
        },
        _ => {},
    }
}

/// A chain of indirections that never comes back to a name ends, at a
/// literal or at a missing name, so resolving it reports no cycle.
pub proof fn lemma_acyclic_ends(vars: VarsModel, name: Seq<char>)
    requires
        acyclic(vars, name),
    ensures
        ends(vars, name),
        var_value(vars, name) != Walk::Unfinished,
{
    let l = vars.len();
    if walk(vars, name, l + 1) == Walk::Unfinished {
        let s = Seq::new((l + 1) as nat, |i: int| chain(vars, name, i as nat)->Some_0);
        assert forall|i: int| 0 <= i < s.len() implies var_keys(vars).contains(#[trigger] s[i]) by {
            lemma_unfinished_chain(vars, name, l + 1, i as nat);
            lemma_lookup_key(vars, s[i]);
        }
        assert forall|i: int, j: int| 0 <= i < s.len() && 0 <= j < s.len() && i != j implies s[i]
            != s[j] by {
            lemma_unfinished_chain(vars, name, l + 1, i as nat);
            lemma_unfinished_chain(vars, name, l + 1, j as nat);
            if i < j {
                assert(chain(vars, name, i as nat) != chain(vars, name, j as nat));
            } else {
                assert(chain(vars, name, j as nat) != chain(vars, name, i as nat));
            }
        }
        lemma_distinct_within(s, var_keys(vars));
    } else {
        lemma_var_value(vars, name, l + 1);
    }
}

} // verus!
