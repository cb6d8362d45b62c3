//! What an activation does to the variables of a shell, and that undoing it leaves
//! them as they were, without a project.
//!
//! A variable with an empty value is taken as set. So it is in POSIX shells, in fish
//! and in PowerShell from 7.5 on; an earlier PowerShell unsets an environment variable
//! that an empty text is assigned to.

use vstd::prelude::*;

use crate::commands::activate;
use crate::commands::activate::Activation;
use crate::r_env::Environment;
use crate::strings;

verus! {

/// A step of an activation.
pub enum Step {
    /// Save a variable: its value, and whether it is set. The value that is saved of
    /// one that is not set is never looked at.
    Save(Seq<char>),
    /// Put the directory of the R binary in front of the search path.
    Prepend,
    /// Set a variable.
    Assign(Seq<char>, Seq<char>),
    /// Give a variable what was saved of it.
    Restore(Seq<char>),
    /// Unset a variable.
    Unset(Seq<char>),
    /// Drop what was saved of a variable.
    Drop(Seq<char>),
}

/// The variable that the value of a variable is saved in.
pub open spec fn value_name(n: Seq<char>) -> Seq<char> {
    "UVR_OLD_"@ + n
}

/// The variable that tells whether a variable was set.
pub open spec fn mark_name(n: Seq<char>) -> Seq<char> {
    "UVR_OLD_"@ + n + "_SET"@
}

/// The value of a variable, nothing where it is not set.
pub open spec fn value_in(vars: Map<Seq<char>, Seq<char>>, n: Seq<char>) -> Seq<char> {
    if vars.contains_key(n) {
        vars[n]
    } else {
        seq![]
    }
}

/// The variables of a shell after a step.
pub open spec fn after_step(
    a: Activation,
    step: Step,
    vars: Map<Seq<char>, Seq<char>>,
) -> Map<Seq<char>, Seq<char>> {
    match step {
        Step::Save(n) => vars.insert(value_name(n), value_in(vars, n)).insert(
            mark_name(n),
            if vars.contains_key(n) {
                seq!['1']
            } else {
                seq![]
            },
        ),
        Step::Prepend => vars.insert("PATH"@, a.bin_dir + a.sep + value_in(vars, "PATH"@)),
        Step::Assign(n, v) => vars.insert(n, v),
        Step::Restore(n) => if value_in(vars, mark_name(n)).len() > 0 {
            vars.insert(n, value_in(vars, value_name(n)))
        } else {
            vars.remove(n)
        },
        Step::Unset(n) => vars.remove(n),
        Step::Drop(n) => vars.remove(value_name(n)).remove(mark_name(n)),
    }
}

/// The variables of a shell after some steps.
pub open spec fn after_steps(
    a: Activation,
    steps: Seq<Step>,
    vars: Map<Seq<char>, Seq<char>>,
) -> Map<Seq<char>, Seq<char>>
    decreases steps.len(),
{
    if steps.len() == 0 {
        vars
    } else {
        after_step(a, steps.last(), after_steps(a, steps.drop_last(), vars))
    }
}

/// The variables are saved.
pub open spec fn saving(names: Seq<Seq<char>>) -> Seq<Step> {
    Seq::new(names.len(), |i: int| Step::Save(names[i]))
}

/// The environment is set.
pub open spec fn setting(a: Activation) -> Seq<Step> {
    seq![Step::Prepend] + Seq::new(a.vars.len(), |i: int| Step::Assign(a.vars[i].0, a.vars[i].1))
        + seq![Step::Assign(activate::marker(), a.project)]
}

/// The variables are restored.
pub open spec fn restoring(names: Seq<Seq<char>>) -> Seq<Step> {
    Seq::new(names.len(), |i: int| Step::Restore(names[i]))
}

/// What was saved is dropped.
pub open spec fn dropping(names: Seq<Seq<char>>) -> Seq<Step> {
    Seq::new(names.len(), |i: int| Step::Drop(names[i]))
}

/// An activation, from a shell that has none.
pub open spec fn activating(a: Activation) -> Seq<Step> {
    saving(activate::taken_over(a.vars)) + setting(a)
}

/// The variables have their old values, and there is no project.
pub open spec fn undoing(a: Activation) -> Seq<Step> {
    restoring(activate::given_back(a.vars)) + seq![Step::Unset(activate::marker())]
}

/// The function that undoes an activation.
pub open spec fn deactivating(a: Activation) -> Seq<Step> {
    undoing(a) + dropping(activate::taken_over(a.vars))
}

/// One of the first `k` variables is saved under this name.
pub open spec fn is_saved_name(names: Seq<Seq<char>>, k: int, key: Seq<char>) -> bool {
    exists|j: int|
        0 <= j < k && (value_name(#[trigger] names[j]) == key || mark_name(names[j]) == key)
}

/// The names differ from each other, and from the names that they are saved under.
pub open spec fn are_apart(names: Seq<Seq<char>>) -> bool {
    &&& forall|i: int, j: int|
        #![trigger names[i], names[j]]
        0 <= i < names.len() && 0 <= j < names.len() && names[i] == names[j] ==> i == j
    &&& forall|i: int, j: int|
        #![trigger value_name(names[i]), mark_name(names[j])]
        0 <= i < names.len() && 0 <= j < names.len() ==> value_name(names[i]) != mark_name(
            names[j],
        )
    &&& forall|i: int|
        0 <= i < names.len() ==> !is_saved_name(
            names,
            names.len() as int,
            #[trigger] names[i],
        )
}

/// The variables of two shells are the same at a name.
pub open spec fn agree_at(
    x: Map<Seq<char>, Seq<char>>,
    y: Map<Seq<char>, Seq<char>>,
    key: Seq<char>,
) -> bool {
    &&& x.contains_key(key) == y.contains_key(key)
    &&& x.contains_key(key) ==> x[key] == y[key]
}

/// Steps one after another.
proof fn lemma_after_both(
    a: Activation,
    first: Seq<Step>,
    second: Seq<Step>,
    vars: Map<Seq<char>, Seq<char>>,
)
    ensures
        after_steps(a, first + second, vars) == after_steps(a, second, after_steps(a, first, vars)),
    decreases second.len(),
{
    let both = first + second;
    if second.len() == 0 {
        assert(both =~= first);
    } else {
        lemma_after_both(a, first, second.drop_last(), vars);
        assert(both.drop_last() =~= first + second.drop_last());
        assert(both.last() == second.last());
    }
}

/// Two names that are saved under the same name are one.
proof fn lemma_saved_names_differ(m: Seq<char>, n: Seq<char>)
    ensures
        value_name(m) == value_name(n) ==> m == n,
        mark_name(m) == mark_name(n) ==> m == n,
{
    let p = "UVR_OLD_"@;
    let s = "_SET"@;
    if value_name(m) == value_name(n) {
        assert(value_name(m).skip(p.len() as int) =~= m);
        assert(value_name(n).skip(p.len() as int) =~= n);
    }
    if mark_name(m) == mark_name(n) {
        let x = mark_name(m);
        let y = mark_name(n);
        assert(x.subrange(p.len() as int, x.len() - s.len()) =~= m);
        assert(y.subrange(p.len() as int, y.len() - s.len()) =~= n);
    }
}

/// The variables after the first `k` are saved: what was in them is there twice, and
/// nothing else has changed.
proof fn lemma_saving(a: Activation, names: Seq<Seq<char>>, vars: Map<Seq<char>, Seq<char>>, k: int)
    requires
        are_apart(names),
        0 <= k <= names.len(),
    ensures
        ({
            let now = after_steps(a, saving(names).take(k), vars);
            &&& forall|key: Seq<char>|
                !is_saved_name(names, k, key) ==> #[trigger] agree_at(now, vars, key)
            &&& forall|j: int|
                0 <= j < k ==> {
                    let n = #[trigger] names[j];
                    &&& now.contains_key(value_name(n))
                    &&& now[value_name(n)] == value_in(vars, n)
                    &&& now.contains_key(mark_name(n))
                    &&& (now[mark_name(n)].len() > 0) == vars.contains_key(n)
                }
        }),
    decreases k,
{
    let steps = saving(names).take(k);
    if k > 0 {
        lemma_saving(a, names, vars, k - 1);
        assert(steps.drop_last() =~= saving(names).take(k - 1));
        let before = after_steps(a, saving(names).take(k - 1), vars);
        let now = after_steps(a, steps, vars);
        let n = names[k - 1];
        assert(steps.last() == Step::Save(n));
        assert(!is_saved_name(names, k - 1, n)) by {
            assert(!is_saved_name(names, names.len() as int, n));
        }
        assert(agree_at(before, vars, n));
        assert(value_name(n) != mark_name(n)) by {
            assert(value_name(names[k - 1]) != mark_name(names[k - 1]));
        }
        assert forall|key: Seq<char>| !is_saved_name(names, k, key) implies #[trigger] agree_at(
            now,
            vars,
            key,
        ) by {
            assert(value_name(names[k - 1]) != key && mark_name(names[k - 1]) != key);
            assert(!is_saved_name(names, k - 1, key));
            assert(agree_at(before, vars, key));
        }
        assert forall|j: int| 0 <= j < k implies {
            let m = #[trigger] names[j];
            &&& now.contains_key(value_name(m))
            &&& now[value_name(m)] == value_in(vars, m)
            &&& now.contains_key(mark_name(m))
            &&& (now[mark_name(m)].len() > 0) == vars.contains_key(m)
        } by {
            let m = names[j];
            lemma_saved_names_differ(m, n);
            assert(value_name(names[j]) != mark_name(names[k - 1]));
            assert(value_name(names[k - 1]) != mark_name(names[j]));
        }
    } else {
        assert(steps =~= seq![]);
    }
}

/// A step that sets a variable which is taken over.
pub open spec fn sets_taken_over(names: Seq<Seq<char>>, step: Step) -> bool {
    match step {
        Step::Prepend => names.contains("PATH"@),
        Step::Assign(n, _) => names.contains(n),
        _ => false,
    }
}

/// Setting variables that are taken over changes nothing else.
proof fn lemma_setting(
    a: Activation,
    names: Seq<Seq<char>>,
    steps: Seq<Step>,
    vars: Map<Seq<char>, Seq<char>>,
    key: Seq<char>,
)
    requires
        forall|i: int| 0 <= i < steps.len() ==> sets_taken_over(names, #[trigger] steps[i]),
        !names.contains(key),
    ensures
        agree_at(after_steps(a, steps, vars), vars, key),
    decreases steps.len(),
{
    if steps.len() > 0 {
        let front = steps.drop_last();
        assert forall|i: int| 0 <= i < front.len() implies sets_taken_over(
            names,
            #[trigger] front[i],
        ) by {
            assert(front[i] == steps[i]);
        }
        lemma_setting(a, names, front, vars, key);
        assert(sets_taken_over(names, steps[steps.len() - 1]));
    }
}

/// The variables after the first `k` are restored: they are as they were when they
/// were saved, and nothing else has changed.
proof fn lemma_restoring(
    a: Activation,
    names: Seq<Seq<char>>,
    old_vars: Map<Seq<char>, Seq<char>>,
    vars: Map<Seq<char>, Seq<char>>,
    k: int,
)
    requires
        are_apart(names),
        0 <= k <= names.len(),
        forall|j: int|
            0 <= j < names.len() ==> {
                let n = #[trigger] names[j];
                &&& vars.contains_key(value_name(n))
                &&& vars[value_name(n)] == value_in(old_vars, n)
                &&& vars.contains_key(mark_name(n))
                &&& (vars[mark_name(n)].len() > 0) == old_vars.contains_key(n)
            },
    ensures
        ({
            let now = after_steps(a, restoring(names).take(k), vars);
            &&& forall|j: int| 0 <= j < k ==> agree_at(now, old_vars, #[trigger] names[j])
            &&& forall|key: Seq<char>|
                !names.take(k).contains(key) ==> #[trigger] agree_at(now, vars, key)
        }),
    decreases k,
{
    let steps = restoring(names).take(k);
    if k > 0 {
        lemma_restoring(a, names, old_vars, vars, k - 1);
        assert(steps.drop_last() =~= restoring(names).take(k - 1));
        let before = after_steps(a, restoring(names).take(k - 1), vars);
        let now = after_steps(a, steps, vars);
        let n = names[k - 1];
        let front = names.take(k - 1);
        assert(steps.last() == Step::Restore(n));
        assert(!front.contains(value_name(n))) by {
            if front.contains(value_name(n)) {
                let i = choose|i: int| 0 <= i < front.len() && front[i] == value_name(n);
                assert(names[i] == value_name(names[k - 1]));
                assert(is_saved_name(names, names.len() as int, names[i]));
            }
        }
        assert(!front.contains(mark_name(n))) by {
            if front.contains(mark_name(n)) {
                let i = choose|i: int| 0 <= i < front.len() && front[i] == mark_name(n);
                assert(names[i] == mark_name(names[k - 1]));
                assert(is_saved_name(names, names.len() as int, names[i]));
            }
        }
        assert(agree_at(before, vars, value_name(n)));
        assert(agree_at(before, vars, mark_name(n)));
        assert forall|j: int| 0 <= j < k implies agree_at(now, old_vars, #[trigger] names[j]) by {
            if j < k - 1 {
                assert(names[j] != n);
                assert(agree_at(before, old_vars, names[j]));
            }
        }
        assert forall|key: Seq<char>| !names.take(k).contains(key) implies #[trigger] agree_at(
            now,
            vars,
            key,
        ) by {
            assert(names.take(k)[k - 1] == n);
            assert(!front.contains(key)) by {
                if front.contains(key) {
                    let i = choose|i: int| 0 <= i < front.len() && front[i] == key;
                    assert(names.take(k)[i] == key);
                }
            }
            assert(agree_at(before, vars, key));
        }
    } else {
        assert(steps =~= seq![]);
    }
}

/// The variables after what was saved of the first `k` is dropped: it is gone, and
/// nothing else has changed.
proof fn lemma_dropping(
    a: Activation,
    names: Seq<Seq<char>>,
    vars: Map<Seq<char>, Seq<char>>,
    k: int,
)
    requires
        0 <= k <= names.len(),
    ensures
        ({
            let now = after_steps(a, dropping(names).take(k), vars);
            &&& forall|key: Seq<char>|
                is_saved_name(names, k, key) ==> !#[trigger] now.contains_key(key)
            &&& forall|key: Seq<char>|
                !is_saved_name(names, k, key) ==> #[trigger] agree_at(now, vars, key)
        }),
    decreases k,
{
    let steps = dropping(names).take(k);
    if k > 0 {
        lemma_dropping(a, names, vars, k - 1);
        assert(steps.drop_last() =~= dropping(names).take(k - 1));
        let before = after_steps(a, dropping(names).take(k - 1), vars);
        let now = after_steps(a, steps, vars);
        let n = names[k - 1];
        assert(steps.last() == Step::Drop(n));
        assert forall|key: Seq<char>| is_saved_name(names, k, key) implies !#[trigger]
            now.contains_key(key) by {
            if is_saved_name(names, k - 1, key) {
                assert(!before.contains_key(key));
            }
        }
        assert forall|key: Seq<char>| !is_saved_name(names, k, key) implies #[trigger] agree_at(
            now,
            vars,
            key,
        ) by {
            assert(value_name(names[k - 1]) != key && mark_name(names[k - 1]) != key);
            assert(!is_saved_name(names, k - 1, key));
            assert(agree_at(before, vars, key));
        }
    } else {
        assert(steps =~= seq![]);
    }
}

/// No variable is set under a name that an activation saves a variable under.
pub open spec fn saved_names_are_free(
    names: Seq<Seq<char>>,
    vars: Map<Seq<char>, Seq<char>>,
) -> bool {
    forall|i: int|
        0 <= i < names.len() ==> {
            let n = #[trigger] names[i];
            !vars.contains_key(value_name(n)) && !vars.contains_key(mark_name(n))
        }
}

/// What an activation sets is taken over.
proof fn lemma_sets_what_is_taken_over(a: Activation)
    ensures
        forall|i: int|
            0 <= i < setting(a).len() ==> sets_taken_over(
                activate::taken_over(a.vars),
                #[trigger] setting(a)[i],
            ),
{
    let names = activate::taken_over(a.vars);
    assert forall|i: int| 0 <= i < setting(a).len() implies sets_taken_over(
        names,
        #[trigger] setting(a)[i],
    ) by {
        if i == 0 {
            assert(names[0] == "PATH"@);
        } else if i <= a.vars.len() {
            assert(names[i] == a.vars[i - 1].0);
        } else {
            assert(names[names.len() - 1] == activate::marker());
        }
    }
}

/// The variables after an activation is undone but for what was saved: those that are
/// given back are as they were, there is no project, and nothing else has changed.
proof fn lemma_undoing(
    a: Activation,
    old_vars: Map<Seq<char>, Seq<char>>,
    vars: Map<Seq<char>, Seq<char>>,
    key: Seq<char>,
)
    requires
        are_apart(activate::taken_over(a.vars)),
        forall|j: int|
            0 <= j < activate::taken_over(a.vars).len() ==> {
                let n = #[trigger] activate::taken_over(a.vars)[j];
                &&& vars.contains_key(value_name(n))
                &&& vars[value_name(n)] == value_in(old_vars, n)
                &&& vars.contains_key(mark_name(n))
                &&& (vars[mark_name(n)].len() > 0) == old_vars.contains_key(n)
            },
    ensures
        activate::taken_over(a.vars).contains(key) ==> agree_at(
            after_steps(a, undoing(a), vars),
            old_vars.remove(activate::marker()),
            key,
        ),
        !activate::taken_over(a.vars).contains(key) ==> agree_at(
            after_steps(a, undoing(a), vars),
            vars,
            key,
        ),
{
    let names = activate::taken_over(a.vars);
    let back = activate::given_back(a.vars);
    let count = back.len() as int;
    assert(names.take(count) =~= back);
    assert(restoring(names).take(count) =~= restoring(back));
    lemma_restoring(a, names, old_vars, vars, count);
    let restored = after_steps(a, restoring(back), vars);
    assert(undoing(a).drop_last() =~= restoring(back));
    assert(after_steps(a, undoing(a), vars) == restored.remove(activate::marker()));
    assert(names[count] == activate::marker());
    if names.contains(key) {
        let j = choose|j: int| 0 <= j < names.len() && names[j] == key;
        if j < count {
            assert(agree_at(restored, old_vars, names[j]));
            assert(names[j] != names[count]);
        }
    } else {
        assert(!back.contains(key)) by {
            if back.contains(key) {
                let j = choose|j: int| 0 <= j < back.len() && back[j] == key;
                assert(names[j] == key);
            }
        }
        assert(agree_at(restored, vars, key));
    }
}

/// Undoing an activation leaves every variable of the shell as it was found: set to
/// what it was, to nothing, or not set. Only the name of the project is unset, whatever
/// it was before.
pub proof fn law_deactivating_restores_the_shell(a: Activation, vars: Map<Seq<char>, Seq<char>>)
    requires
        are_apart(activate::taken_over(a.vars)),
        saved_names_are_free(activate::taken_over(a.vars), vars),
    ensures
        after_steps(a, deactivating(a), after_steps(a, activating(a), vars)) == vars.remove(
            activate::marker(),
        ),
{
    let names = activate::taken_over(a.vars);
    let count = names.len() as int;
    let left = vars.remove(activate::marker());
    let saved = after_steps(a, saving(names), vars);
    let set = after_steps(a, setting(a), saved);
    let undone = after_steps(a, undoing(a), set);
    let end = after_steps(a, dropping(names), undone);
    lemma_after_both(a, saving(names), setting(a), vars);
    lemma_after_both(a, undoing(a), dropping(names), set);
    assert(after_steps(a, deactivating(a), after_steps(a, activating(a), vars)) == end);
    assert(saving(names).take(count) =~= saving(names));
    assert(dropping(names).take(count) =~= dropping(names));
    lemma_saving(a, names, vars, count);
    // What is set is taken over, so what was saved is still there.
    lemma_sets_what_is_taken_over(a);
    assert forall|j: int| 0 <= j < names.len() implies {
        let n = #[trigger] names[j];
        &&& set.contains_key(value_name(n))
        &&& set[value_name(n)] == value_in(vars, n)
        &&& set.contains_key(mark_name(n))
        &&& (set[mark_name(n)].len() > 0) == vars.contains_key(n)
    } by {
        let n = names[j];
        lemma_not_taken_over(names, j);
        lemma_setting(a, names, setting(a), saved, value_name(n));
        lemma_setting(a, names, setting(a), saved, mark_name(n));
    }
    lemma_dropping(a, names, undone, count);
    assert(names[count - 1] == activate::marker());
    assert forall|key: Seq<char>| #[trigger] agree_at(end, left, key) by {
        if is_saved_name(names, count, key) {
            assert(!end.contains_key(key));
            let j = choose|j: int|
                0 <= j < count && (value_name(#[trigger] names[j]) == key || mark_name(names[j])
                    == key);
            assert(!vars.contains_key(key));
        } else {
            assert(agree_at(end, undone, key));
            lemma_undoing(a, vars, set, key);
            if !names.contains(key) {
                lemma_setting(a, names, setting(a), saved, key);
                assert(agree_at(saved, vars, key));
                assert(key != names[count - 1]);
            }
        }
    }
    assert(end =~= left) by {
        assert forall|key: Seq<char>| end.contains_key(key) == left.contains_key(key) by {
            assert(agree_at(end, left, key));
        }
        assert forall|key: Seq<char>| end.contains_key(key) implies end[key] == left[key] by {
            assert(agree_at(end, left, key));
        }
    }
}

/// The variables of a shell in which `a` is activated and then `b`, which undoes `a`
/// first.
pub open spec fn activated_again(
    a: Activation,
    b: Activation,
    vars: Map<Seq<char>, Seq<char>>,
) -> Map<Seq<char>, Seq<char>> {
    let active = after_steps(a, activating(a), vars);
    after_steps(b, activating(b), after_steps(a, deactivating(a), active))
}

/// Activations do not stack. A second one, of the same project or of another, leaves
/// the shell as if it had been the only one: what the first put on the search path is
/// gone, and what it had saved is what the second has saved. Of the name of a project
/// that was set before the first, nothing is left.
pub proof fn law_activating_again_does_not_stack(
    a: Activation,
    b: Activation,
    vars: Map<Seq<char>, Seq<char>>,
)
    requires
        are_apart(activate::taken_over(a.vars)),
        are_apart(activate::taken_over(b.vars)),
        saved_names_are_free(activate::taken_over(a.vars), vars),
    ensures
        activated_again(a, b, vars) == after_steps(
            b,
            activating(b),
            vars.remove(activate::marker()),
        ),
        !vars.contains_key(activate::marker()) ==> activated_again(a, b, vars) == after_steps(
            b,
            activating(b),
            vars,
        ),
        activated_again(a, b, vars).contains_pair(
            "PATH"@,
            b.bin_dir + b.sep + value_in(vars, "PATH"@),
        ),
{
    law_deactivating_restores_the_shell(a, vars);
    let left = vars.remove(activate::marker());
    if !vars.contains_key(activate::marker()) {
        assert(left =~= vars);
    }
    law_activating_prepends_to_the_path(b, left);
    let names = activate::taken_over(b.vars);
    assert(names[0] == "PATH"@ && names[names.len() - 1] == activate::marker());
}

/// An activation puts the directory of its R in front of the search path.
pub proof fn law_activating_prepends_to_the_path(b: Activation, vars: Map<Seq<char>, Seq<char>>)
    requires
        are_apart(activate::taken_over(b.vars)),
    ensures
        after_steps(b, activating(b), vars).contains_pair(
            "PATH"@,
            b.bin_dir + b.sep + value_in(vars, "PATH"@),
        ),
{
    let names = activate::taken_over(b.vars);
    let count = names.len() as int;
    let saved = after_steps(b, saving(names), vars);
    lemma_after_both(b, saving(names), setting(b), vars);
    assert(saving(names).take(count) =~= saving(names));
    lemma_saving(b, names, vars, count);
    assert(names[0] == "PATH"@);
    assert(agree_at(saved, vars, names[0]));
    let first = setting(b).take(1);
    let back = setting(b).skip(1);
    assert(first + back =~= setting(b));
    lemma_after_both(b, first, back, saved);
    assert(first.drop_last() =~= seq![]);
    assert(first.last() == Step::Prepend);
    let here = after_steps(b, first, saved);
    assert(here == after_step(b, Step::Prepend, after_steps(b, first.drop_last(), saved)));
    // The steps after it are about other variables.
    let others = names.skip(1);
    lemma_sets_what_is_taken_over(b);
    assert forall|j: int| 0 <= j < back.len() implies sets_taken_over(
        others,
        #[trigger] back[j],
    ) by {
        assert(others[j] == names[1 + j]);
        if j < b.vars.len() {
            assert(back[j] == Step::Assign(b.vars[j].0, b.vars[j].1));
        } else {
            assert(back[j] == Step::Assign(activate::marker(), b.project));
        }
    }
    assert(!others.contains("PATH"@)) by {
        if others.contains("PATH"@) {
            let j = choose|j: int| 0 <= j < others.len() && others[j] == "PATH"@;
            assert(names[1 + j] == names[0]);
        }
    }
    lemma_setting(b, others, back, here, "PATH"@);
}

/// A name that a variable is saved under is not taken over.
proof fn lemma_not_taken_over(names: Seq<Seq<char>>, j: int)
    requires
        are_apart(names),
        0 <= j < names.len(),
    ensures
        !names.contains(value_name(names[j])),
        !names.contains(mark_name(names[j])),
{
    if names.contains(value_name(names[j])) {
        let i = choose|i: int| 0 <= i < names.len() && names[i] == value_name(names[j]);
        assert(is_saved_name(names, names.len() as int, names[i]));
    }
    if names.contains(mark_name(names[j])) {
        let i = choose|i: int| 0 <= i < names.len() && names[i] == mark_name(names[j]);
        assert(is_saved_name(names, names.len() as int, names[i]));
    }
}

/// A name of a variable that an activation takes over can be told from the others, and
/// from every name that a variable is saved under.
proof fn lemma_managed_name(i: int)
    requires
        0 <= i < activate::managed_names().len(),
    ensures
        ({
            let n = activate::managed_names()[i];
            &&& n.len() >= 4
            &&& n[0] == 'U' ==> n[4] == 'P'
            &&& n.last() == 'T' ==> n[n.len() - 4] == 'J'
            &&& forall|j: int|
                0 <= j < activate::managed_names().len() && i != j ==> n
                    != #[trigger] activate::managed_names()[j]
        }),
{
    reveal_strlit("PATH");
    reveal_strlit("R_LIBS_USER");
    reveal_strlit("R_LIBS_SITE");
    reveal_strlit("R_LIBS");
    reveal_strlit("DYLD_LIBRARY_PATH");
    reveal_strlit("LD_LIBRARY_PATH");
    reveal_strlit("R_ENVIRON");
    reveal_strlit("R_ENVIRON_USER");
    reveal_strlit("UVR_PROJECT");
    let names = activate::managed_names();
    let n = names[i];
    assert forall|j: int| 0 <= j < names.len() && i != j implies n != #[trigger] names[j] by {
        let m = names[j];
        // Names of one length differ in the character that is looked at.
        assert(n.len() != m.len() || n[0] != m[0] || n[7] != m[7]);
    }
}

/// The variables that the activation of a project takes over can be told from each
/// other, and from those that they are saved in.
pub proof fn law_managed_names_are_apart()
    ensures
        are_apart(activate::managed_names()),
{
    let names = activate::managed_names();
    let p = "UVR_OLD_"@;
    let t = "_SET"@;
    reveal_strlit("UVR_OLD_");
    reveal_strlit("_SET");
    assert forall|i: int, j: int|
        #![trigger names[i], names[j]]
        0 <= i < names.len() && 0 <= j < names.len() && names[i] == names[j] implies i == j by {
        lemma_managed_name(i);
    }
    assert forall|i: int, j: int|
        #![trigger value_name(names[i]), mark_name(names[j])]
        0 <= i < names.len() && 0 <= j < names.len() implies value_name(names[i]) != mark_name(
        names[j],
    ) by {
        lemma_managed_name(i);
        let n = names[i];
        let v = value_name(n);
        let m = mark_name(names[j]);
        if v == m {
            assert(v[v.len() - 1] == n[n.len() - 1]);
            assert(v[v.len() - 4] == n[n.len() - 4]);
            assert(m[m.len() - 1] == 'T');
            assert(m[m.len() - 4] == '_');
        }
    }
    assert forall|i: int| 0 <= i < names.len() implies !is_saved_name(
        names,
        names.len() as int,
        #[trigger] names[i],
    ) by {
        lemma_managed_name(i);
        let n = names[i];
        if is_saved_name(names, names.len() as int, n) {
            let j = choose|j: int|
                0 <= j < names.len() && (value_name(#[trigger] names[j]) == n || mark_name(
                    names[j],
                ) == n);
            let v = value_name(names[j]);
            let m = mark_name(names[j]);
            assert(v[0] == 'U' && v[4] == 'O');
            assert(m[0] == 'U' && m[4] == 'O');
        }
    }
}

/// Undoing the activation of a project leaves every variable of the shell as it was
/// found but for the name of the project, which is unset, whatever the project. Only
/// the names that variables are saved under have to be free.
pub proof fn law_deactivating_a_project_restores_the_shell(
    project: Seq<char>,
    e: Environment,
    bin_dir: Seq<char>,
    lib_dir: Seq<char>,
    vars: Map<Seq<char>, Seq<char>>,
)
    requires
        saved_names_are_free(activate::managed_names(), vars),
    ensures
        ({
            let a = activate::env_activation(project, e, bin_dir, lib_dir);
            after_steps(a, deactivating(a), after_steps(a, activating(a), vars)) == vars.remove(
                "UVR_PROJECT"@,
            )
        }),
{
    activate::law_managed_names(project, e, bin_dir, lib_dir);
    law_managed_names_are_apart();
    law_deactivating_restores_the_shell(
        activate::env_activation(project, e, bin_dir, lib_dir),
        vars,
    );
}

/// Activating a project again, or another one after it, leaves the shell as the last
/// activation alone would have: the directory of an R stands on the search path once.
pub proof fn law_activating_a_project_again_does_not_stack(
    first: (Seq<char>, Environment, Seq<char>, Seq<char>),
    second: (Seq<char>, Environment, Seq<char>, Seq<char>),
    vars: Map<Seq<char>, Seq<char>>,
)
    requires
        saved_names_are_free(activate::managed_names(), vars),
    ensures
        ({
            let a = activate::env_activation(first.0, first.1, first.2, first.3);
            let b = activate::env_activation(second.0, second.1, second.2, second.3);
            &&& activated_again(a, b, vars) == after_steps(
                b,
                activating(b),
                vars.remove("UVR_PROJECT"@),
            )
            &&& activated_again(a, b, vars).contains_pair(
                "PATH"@,
                b.bin_dir + b.sep + value_in(vars, "PATH"@),
            )
        }),
{
    let a = activate::env_activation(first.0, first.1, first.2, first.3);
    let b = activate::env_activation(second.0, second.1, second.2, second.3);
    activate::law_managed_names(first.0, first.1, first.2, first.3);
    activate::law_managed_names(second.0, second.1, second.2, second.3);
    law_managed_names_are_apart();
    law_activating_again_does_not_stack(a, b, vars);
}

/// What an activation sets is what R is run with: after it every variable of the
/// environment has its value, if no variable is in it twice.
pub proof fn law_activating_sets_the_environment(
    a: Activation,
    vars: Map<Seq<char>, Seq<char>>,
    i: int,
)
    requires
        are_apart(activate::taken_over(a.vars)),
        0 <= i < a.vars.len(),
    ensures
        after_steps(a, activating(a), vars).contains_pair(a.vars[i].0, a.vars[i].1),
{
    let names = activate::taken_over(a.vars);
    let saved = after_steps(a, saving(names), vars);
    lemma_after_both(a, saving(names), setting(a), vars);
    let n = a.vars[i].0;
    let front = setting(a).take(i + 2);
    let back = setting(a).skip(i + 2);
    assert(front + back =~= setting(a));
    lemma_after_both(a, front, back, saved);
    let here = after_steps(a, front, saved);
    assert(front.last() == Step::Assign(n, a.vars[i].1));
    assert(here.contains_pair(n, a.vars[i].1));
    // The steps after it are about other variables.
    let others = names.skip(i + 2);
    assert forall|j: int| 0 <= j < back.len() implies sets_taken_over(
        others,
        #[trigger] back[j],
    ) by {
        assert(others[j] == names[i + 2 + j]);
        if j < a.vars.len() - i - 1 {
            assert(back[j] == Step::Assign(a.vars[i + 1 + j].0, a.vars[i + 1 + j].1));
        } else {
            assert(back[j] == Step::Assign(activate::marker(), a.project));
        }
    }
    assert(!others.contains(n)) by {
        if others.contains(n) {
            let j = choose|j: int| 0 <= j < others.len() && others[j] == n;
            assert(names[i + 2 + j] == n);
            assert(names[i + 1] == n);
        }
    }
    lemma_setting(a, others, back, here, n);
}

/// A step in the code for POSIX shells. What was saved is dropped by one line for all
/// variables, not by a line for each.
pub open spec fn posix_text(a: Activation, step: Step) -> Seq<char> {
    match step {
        Step::Save(n) => activate::posix_save(n),
        Step::Prepend => "PATH="@ + activate::sh_quoted(a.bin_dir) + "\""@ + a.sep
            + "${PATH-}\"; export PATH\n"@,
        Step::Assign(n, v) => activate::posix_set(n, v),
        Step::Restore(n) => activate::posix_restore(n),
        Step::Unset(n) => activate::posix_unset(n),
        Step::Drop(_) => seq![],
    }
}

/// A step in the code for fish. What was saved is dropped by one line for all
/// variables, not by a line for each.
pub open spec fn fish_text(a: Activation, step: Step) -> Seq<char> {
    match step {
        Step::Save(n) => activate::fish_save(n),
        Step::Prepend => "set -gx PATH "@ + activate::fish_quoted(a.bin_dir) + " $PATH\n"@,
        Step::Assign(n, v) => activate::fish_set(n, v),
        Step::Restore(n) => activate::fish_restore(n),
        Step::Unset(n) => activate::fish_unset(n),
        Step::Drop(_) => seq![],
    }
}

/// A step in the code for PowerShell.
pub open spec fn ps_text(a: Activation, step: Step) -> Seq<char> {
    match step {
        Step::Save(n) => activate::ps_save(n),
        Step::Prepend => "$env:PATH = "@ + activate::ps_quoted(a.bin_dir) + " + '"@ + a.sep
            + "' + $env:PATH\n"@,
        Step::Assign(n, v) => activate::ps_set(n, v),
        Step::Restore(n) => activate::ps_restore(n),
        Step::Unset(n) => activate::ps_unset(n),
        Step::Drop(n) => activate::ps_clean(n),
    }
}

/// The code for POSIX shells takes the steps of an activation, and defines a function that
/// takes those which undo it.
pub proof fn law_posix_code_takes_the_steps(a: Activation)
    ensures
        ({
            let names = activate::taken_over(a.vars);
            let steps = activating(a);
            let undo = undoing(a);
            activate::posix_lines(a) == activate::posix_lines(a).take(2) + Seq::new(
                steps.len(),
                |i: int| posix_text(a, steps[i]),
            ) + seq!["deactivate() {\n"@] + Seq::new(
                undo.len(),
                |i: int| posix_text(a, undo[i]),
            ) + seq![
                "    unset "@ + strings::join(activate::saved_names(names), " "@) + "\n"@,
                "    unset -f deactivate\n"@,
                "}\n"@,
            ]
        }),
{
    reveal_strlit("UVR_PROJECT=");
    reveal_strlit("; export UVR_PROJECT\n");
    reveal_strlit("UVR_PROJECT");
    reveal_strlit("=");
    reveal_strlit("; export ");
    reveal_strlit("\n");
    let names = activate::taken_over(a.vars);
    let steps = activating(a);
    let undo = undoing(a);
    let lines = activate::posix_lines(a);
    let last = steps.len() - 1;
    assert(posix_text(a, steps[last]) =~= lines[2 + last]);
    assert(lines =~= lines.take(2) + Seq::new(
        steps.len(),
        |i: int| posix_text(a, steps[i]),
    ) + seq!["deactivate() {\n"@] + Seq::new(
        undo.len(),
        |i: int| posix_text(a, undo[i]),
    ) + seq![
        "    unset "@ + strings::join(activate::saved_names(names), " "@) + "\n"@,
        "    unset -f deactivate\n"@,
        "}\n"@,
    ]);
}

/// The code for fish takes the steps of an activation, and defines a function that
/// takes those which undo it.
pub proof fn law_fish_code_takes_the_steps(a: Activation)
    ensures
        ({
            let names = activate::taken_over(a.vars);
            let steps = activating(a);
            let undo = undoing(a);
            activate::fish_lines(a) == activate::fish_lines(a).take(2) + Seq::new(
                steps.len(),
                |i: int| fish_text(a, steps[i]),
            ) + seq!["function deactivate\n"@] + Seq::new(
                undo.len(),
                |i: int| fish_text(a, undo[i]),
            ) + seq![
                "    set -e "@ + strings::join(activate::saved_names(names), " "@) + "\n"@,
                "    functions -e deactivate\nend\n"@,
            ]
        }),
{
    reveal_strlit("set -gx UVR_PROJECT ");
    reveal_strlit("UVR_PROJECT");
    reveal_strlit("set -gx ");
    reveal_strlit(" ");
    let names = activate::taken_over(a.vars);
    let steps = activating(a);
    let undo = undoing(a);
    let lines = activate::fish_lines(a);
    let last = steps.len() - 1;
    assert(fish_text(a, steps[last]) =~= lines[2 + last]);
    assert(lines =~= lines.take(2) + Seq::new(
        steps.len(),
        |i: int| fish_text(a, steps[i]),
    ) + seq!["function deactivate\n"@] + Seq::new(
        undo.len(),
        |i: int| fish_text(a, undo[i]),
    ) + seq![
        "    set -e "@ + strings::join(activate::saved_names(names), " "@) + "\n"@,
        "    functions -e deactivate\nend\n"@,
    ]);
}

/// The code for PowerShell takes the steps of an activation, and defines a function that
/// takes those which undo it. As in the model, a variable that an empty text is assigned
/// to counts as set; an earlier PowerShell than 7.5 unsets it.
pub proof fn law_ps_code_takes_the_steps(a: Activation)
    ensures
        ({
            let names = activate::taken_over(a.vars);
            let steps = activating(a);
            let undo = undoing(a);
            activate::ps_lines(a) == activate::ps_lines(a).take(2) + Seq::new(
                steps.len(),
                |i: int| ps_text(a, steps[i]),
            ) + seq!["function global:deactivate {\n"@] + Seq::new(
                undo.len(),
                |i: int| ps_text(a, undo[i]),
            ) + Seq::new(
                names.len(),
                |i: int| ps_text(a, dropping(names)[i]),
            ) + seq![
                "    Remove-Item Function:\\deactivate -ErrorAction SilentlyContinue\n}\n"@,
            ]
        }),
{
    reveal_strlit("$env:UVR_PROJECT = ");
    reveal_strlit("UVR_PROJECT");
    reveal_strlit("$env:");
    reveal_strlit(" = ");
    let names = activate::taken_over(a.vars);
    let steps = activating(a);
    let undo = undoing(a);
    let lines = activate::ps_lines(a);
    let last = steps.len() - 1;
    assert(ps_text(a, steps[last]) =~= lines[2 + last]);
    assert(lines =~= lines.take(2) + Seq::new(
        steps.len(),
        |i: int| ps_text(a, steps[i]),
    ) + seq!["function global:deactivate {\n"@] + Seq::new(
        undo.len(),
        |i: int| ps_text(a, undo[i]),
    ) + Seq::new(
        names.len(),
        |i: int| ps_text(a, dropping(names)[i]),
    ) + seq![
        "    Remove-Item Function:\\deactivate -ErrorAction SilentlyContinue\n}\n"@,
    ]);
}

/// The names that the code for POSIX shells and for fish drops at the end are those
/// that variables were saved under.
pub proof fn law_all_saved_names_are_dropped(names: Seq<Seq<char>>, key: Seq<char>)
    ensures
        activate::saved_names(names).contains(key) == is_saved_name(
            names,
            names.len() as int,
            key,
        ),
{
    let saved = activate::saved_names(names);
    if saved.contains(key) {
        let i = choose|i: int| 0 <= i < saved.len() && saved[i] == key;
        assert(0 <= i / 2 < names.len());
        assert(value_name(names[i / 2]) == key || mark_name(names[i / 2]) == key);
    }
    if is_saved_name(names, names.len() as int, key) {
        let j = choose|j: int|
            0 <= j < names.len() && (value_name(#[trigger] names[j]) == key || mark_name(names[j])
                == key);
        assert(saved[j * 2] == value_name(names[j]));
        assert(saved[j * 2 + 1] == mark_name(names[j]));
    }
}

} // verus!
