//! Ordering and validation of authentication chains: dependency order of the
//! steps, detection of circular dependencies, and the checks a chain must pass
//! before it runs.

use vstd::prelude::*;
use crate::text::{views, contains_string, owned, copy_string, copy_strings, decimal, decimal_text};
use crate::strmap::StrMap;
use crate::json::{JsonValue, JsonView, param_views, lemma_param_views_insert};
use crate::auth_plugin::{AuthStepConfig, AuthFailure, AuthChainConfig, AuthChainResult, AuthConfig, AuthResult, AuthToken, FailureStrategy};

verus! {

/// Names of the steps, in order.
pub open spec fn step_names(steps: Seq<AuthStepConfig>) -> Seq<Seq<char>> {
    steps.map_values(|s: AuthStepConfig| s.plugin_name@)
}

/// Dependencies of the first step named `name`; none when no step has that name.
pub open spec fn deps_of(steps: Seq<AuthStepConfig>, name: Seq<char>) -> Seq<Seq<char>>
    decreases steps.len(),
{
    if steps.len() == 0 {
        Seq::empty()
    } else if steps[0].plugin_name@ == name {
        views(steps[0].depends_on@)
    } else {
        deps_of(steps.drop_first(), name)
    }
}

/// `p` follows dependency edges: each name depends on the next one.
pub open spec fn is_dep_path(steps: Seq<AuthStepConfig>, p: Seq<Seq<char>>) -> bool {
    forall|i: int| 0 <= i < p.len() - 1 ==> #[trigger] deps_of(steps, p[i]).contains(p[i + 1])
}

/// `p` is a dependency cycle: a path of at least one edge that returns to its start.
pub open spec fn is_cycle(steps: Seq<AuthStepConfig>, p: Seq<Seq<char>>) -> bool {
    &&& p.len() >= 2
    &&& p[0] == p[p.len() - 1]
    &&& is_dep_path(steps, p)
}

/// The steps' dependencies contain a cycle.
pub open spec fn has_cycle(steps: Seq<AuthStepConfig>) -> bool {
    exists|p: Seq<Seq<char>>| is_cycle(steps, p)
}

/// `x` names a step or a dependency of a step.
pub open spec fn known_name(steps: Seq<AuthStepConfig>, x: Seq<char>) -> bool {
    ||| exists|k: int| 0 <= k < steps.len() && #[trigger] steps[k].plugin_name@ == x
    ||| exists|k: int| 0 <= k < steps.len() && #[trigger] deps_of(steps, steps[k].plugin_name@).contains(x)
}

/// Every dependency of an element of `order` appears before it.
pub open spec fn deps_before(steps: Seq<AuthStepConfig>, order: Seq<Seq<char>>) -> bool {
    forall|k: int, d: Seq<char>|
        0 <= k < order.len() && #[trigger] deps_of(steps, order[k]).contains(d)
            ==> #[trigger] order.subrange(0, k).contains(d)
}

/// `order` lists each name once, every step name included, dependencies first.
pub open spec fn is_execution_order(steps: Seq<AuthStepConfig>, order: Seq<Seq<char>>) -> bool {
    &&& order.no_duplicates()
    &&& forall|i: int| 0 <= i < steps.len() ==> order.contains(#[trigger] steps[i].plugin_name@)
    &&& deps_before(steps, order)
}

/// Number of steps whose name is in neither `a` nor `b`.
pub open spec fn count_unseen(steps: Seq<AuthStepConfig>, a: Seq<Seq<char>>, b: Seq<Seq<char>>) -> nat
    decreases steps.len(),
{
    if steps.len() == 0 {
        0
    } else {
        count_unseen(steps.drop_last(), a, b) + if a.contains(steps.last().plugin_name@)
            || b.contains(steps.last().plugin_name@) {
            0nat
        } else {
            1nat
        }
    }
}

proof fn lemma_count_unseen_mono(
    steps: Seq<AuthStepConfig>,
    a: Seq<Seq<char>>,
    b: Seq<Seq<char>>,
    a2: Seq<Seq<char>>,
    b2: Seq<Seq<char>>,
)
    requires
        forall|x: Seq<char>| a.contains(x) || b.contains(x) ==> a2.contains(x) || b2.contains(x),
    ensures
        count_unseen(steps, a2, b2) <= count_unseen(steps, a, b),
    decreases steps.len(),
{
    if steps.len() > 0 {
        lemma_count_unseen_mono(steps.drop_last(), a, b, a2, b2);
    }
}

proof fn lemma_count_unseen_strict(
    steps: Seq<AuthStepConfig>,
    a: Seq<Seq<char>>,
    b: Seq<Seq<char>>,
    a2: Seq<Seq<char>>,
    b2: Seq<Seq<char>>,
    k: int,
)
    requires
        forall|x: Seq<char>| a.contains(x) || b.contains(x) ==> a2.contains(x) || b2.contains(x),
        0 <= k < steps.len(),
        !a.contains(steps[k].plugin_name@) && !b.contains(steps[k].plugin_name@),
        a2.contains(steps[k].plugin_name@) || b2.contains(steps[k].plugin_name@),
    ensures
        count_unseen(steps, a2, b2) < count_unseen(steps, a, b),
    decreases steps.len(),
{
    if k == steps.len() - 1 {
        lemma_count_unseen_mono(steps.drop_last(), a, b, a2, b2);
    } else {
        assert(steps.drop_last()[k] == steps[k]);
        lemma_count_unseen_strict(steps.drop_last(), a, b, a2, b2, k);
    }
}

/// A name with dependencies is the name of a step.
proof fn lemma_deps_name(steps: Seq<AuthStepConfig>, name: Seq<char>)
    requires
        deps_of(steps, name).len() > 0,
    ensures
        exists|k: int| 0 <= k < steps.len() && steps[k].plugin_name@ == name,
    decreases steps.len(),
{
    if steps[0].plugin_name@ != name {
        lemma_deps_name(steps.drop_first(), name);
        let k = choose|k: int|
            0 <= k < steps.drop_first().len() && steps.drop_first()[k].plugin_name@ == name;
        assert(steps[k + 1] == steps.drop_first()[k]);
    }
}

/// Skipping steps with other names does not change a name's dependencies.
proof fn lemma_deps_skip(steps: Seq<AuthStepConfig>, name: Seq<char>, i: int)
    requires
        0 <= i <= steps.len(),
        forall|j: int| 0 <= j < i ==> steps[j].plugin_name@ != name,
    ensures
        deps_of(steps, name) == deps_of(steps.subrange(i, steps.len() as int), name),
    decreases i,
{
    if i > 0 {
        assert(steps.subrange(i, steps.len() as int) =~= steps.drop_first().subrange(
            i - 1,
            steps.drop_first().len() as int,
        ));
        assert forall|j: int| 0 <= j < i - 1 implies steps.drop_first()[j].plugin_name@ != name by {
            assert(steps.drop_first()[j] == steps[j + 1]);
        }
        lemma_deps_skip(steps.drop_first(), name, i - 1);
    } else {
        assert(steps.subrange(0, steps.len() as int) =~= steps);
    }
}

/// Index of the first step named `name`, if any, and the dependencies of `name`.
fn find_step(steps: &Vec<AuthStepConfig>, name: &String) -> (r: Option<usize>)
    ensures
        r is None ==> deps_of(steps@, name@) == Seq::<Seq<char>>::empty(),
        r is None ==> forall|j: int| 0 <= j < steps@.len() ==> steps@[j].plugin_name@ != name@,
        r matches Some(i) ==> i < steps@.len() && steps@[i as int].plugin_name@ == name@
            && deps_of(steps@, name@) == views(steps@[i as int].depends_on@),
{
    let mut i: usize = 0;
    while i < steps.len()
        invariant
            i <= steps@.len(),
            forall|j: int| 0 <= j < i ==> steps@[j].plugin_name@ != name@,
        decreases steps.len() - i,
    {
        if steps[i].plugin_name == *name {
            proof {
                lemma_deps_skip(steps@, name@, i as int);
                let rest = steps@.subrange(i as int, steps@.len() as int);
                assert(rest[0] == steps@[i as int]);
            }
            return Some(i);
        }
        i = i + 1;
    }
    proof {
        lemma_deps_skip(steps@, name@, i as int);
    }
    None
}

/// Depth-first visit of `name`: appends `name` and everything it depends on
/// to `order`, dependencies first. `stack` holds the names being visited.
fn visit(
    steps: &Vec<AuthStepConfig>,
    name: &String,
    stack: &mut Vec<String>,
    order: &mut Vec<String>,
) -> (r: Result<(), String>)
    requires
        is_dep_path(steps@, views(old(stack)@)),
        old(stack)@.len() > 0 ==> deps_of(steps@, views(old(stack)@).last()).contains(name@),
        forall|x: Seq<char>| views(old(stack)@).contains(x) ==> !views(old(order)@).contains(x),
        views(old(order)@).no_duplicates(),
        deps_before(steps@, views(old(order)@)),
        known_name(steps@, name@),
    ensures
        r is Ok ==> forall|x: Seq<char>| #[trigger] views(final(order)@).contains(x) && !views(old(order)@).contains(x)
            ==> known_name(steps@, x),
        r is Ok ==> {
            &&& views(final(stack)@) == views(old(stack)@)
            &&& views(final(order)@).no_duplicates()
            &&& deps_before(steps@, views(final(order)@))
            &&& views(final(order)@).contains(name@)
            &&& views(old(order)@).is_prefix_of(views(final(order)@))
            &&& forall|x: Seq<char>| #[trigger] views(final(order)@).contains(x)
                && !views(old(order)@).contains(x) ==> !views(old(stack)@).contains(x)
        },
        r matches Err(n) ==> exists|p: Seq<Seq<char>>| is_cycle(steps@, p) && p[0] == n@,
    decreases count_unseen(steps@, views(old(stack)@), views(old(order)@)),
{
    let ghost st0 = views(stack@);
    let ghost or0 = views(order@);
    if contains_string(stack, name) {
        proof {
            let j = choose|j: int| 0 <= j < st0.len() && st0[j] == name@;
            let p = st0.subrange(j, st0.len() as int).push(name@);
            assert forall|i: int| 0 <= i < p.len() - 1 implies #[trigger] deps_of(steps@, p[i]).contains(
                p[i + 1],
            ) by {
                if i < p.len() - 2 {
                    assert(p[i] == st0[j + i]);
                    assert(p[i + 1] == st0[j + i + 1]);
                    assert(deps_of(steps@, st0[j + i]).contains(st0[j + i + 1]));
                } else {
                    assert(p[i] == st0.last());
                }
            }
            assert(is_cycle(steps@, p));
        }
        return Err(name.clone());
    }
    if contains_string(order, name) {
        proof {
            assert(views(order@).is_prefix_of(views(order@)));
        }
        return Ok(());
    }
    let found = find_step(steps, name);
    stack.push(name.clone());
    proof {
        assert(views(stack@) =~= st0.push(name@));
        assert forall|i: int| 0 <= i < views(stack@).len() - 1 implies #[trigger] deps_of(
            steps@,
            views(stack@)[i],
        ).contains(views(stack@)[i + 1]) by {
            if i < st0.len() - 1 {
                assert(views(stack@)[i] == st0[i]);
                assert(views(stack@)[i + 1] == st0[i + 1]);
            }
        }
    }
    match found {
        None => {},
        Some(idx) => {
            let deps = &steps[idx].depends_on;
            let ghost nm = name@;
            let mut i: usize = 0;
            while i < deps.len()
                invariant
                    i <= deps@.len(),
                    found == Some(idx),
                    st0 == views(old(stack)@),
                    or0 == views(old(order)@),
                    idx < steps@.len(),
                    steps@[idx as int].plugin_name@ == nm,
                    nm == name@,
                    deps == &steps@[idx as int].depends_on,
                    deps_of(steps@, nm) == views(deps@),
                    views(stack@) == st0.push(nm),
                    is_dep_path(steps@, views(stack@)),
                    !st0.contains(nm),
                    !or0.contains(nm),
                    forall|x: Seq<char>| st0.contains(x) ==> !or0.contains(x),
                    views(order@).no_duplicates(),
                    deps_before(steps@, views(order@)),
                    or0.is_prefix_of(views(order@)),
                    forall|x: Seq<char>| #[trigger] views(order@).contains(x) && !or0.contains(x)
                        ==> !views(stack@).contains(x),
                    forall|j: int| 0 <= j < i ==> views(order@).contains(#[trigger] views(deps@)[j]),
                    forall|x: Seq<char>| #[trigger] views(order@).contains(x) && !or0.contains(x) ==> known_name(steps@, x),
                decreases deps@.len() - i,
            {
                let ghost ord_before = views(order@);
                proof {
                    assert(views(deps@)[i as int] == deps@[i as int]@);
                    assert(deps_of(steps@, views(stack@).last()).contains(deps@[i as int]@)) by {
                        assert(views(stack@).last() == nm);
                    }
                    assert forall|x: Seq<char>| views(stack@).contains(x) implies !views(order@).contains(x) by {
                        if views(order@).contains(x) {
                            if !or0.contains(x) {
                            } else {
                                if x == nm {
                                } else {
                                    let q = choose|q: int| 0 <= q < views(stack@).len() && views(stack@)[q] == x;
                                    assert(st0[q] == x);
                                }
                            }
                        }
                    }
                    assert forall|x: Seq<char>| st0.contains(x) || or0.contains(x) implies views(stack@).contains(x)
                        || views(order@).contains(x) by {
                        if st0.contains(x) {
                            let q = choose|q: int| 0 <= q < st0.len() && st0[q] == x;
                            assert(views(stack@)[q] == x);
                        } else {
                            let q = choose|q: int| 0 <= q < or0.len() && or0[q] == x;
                            assert(views(order@)[q] == x);
                        }
                    }
                    assert(views(stack@)[st0.len() as int] == nm);
                    lemma_count_unseen_strict(steps@, st0, or0, views(stack@), views(order@), idx as int);
                    assert(deps_of(steps@, steps@[idx as int].plugin_name@).contains(deps@[i as int]@));
                    assert(known_name(steps@, deps@[i as int]@));
                    assert(count_unseen(steps@, views(stack@), views(order@)) < count_unseen(steps@, st0, or0));
                }
                let res = visit(steps, &deps[i], stack, order);
                match res {
                    Err(n) => {
                        return Err(n);
                    },
                    Ok(()) => {},
                }
                proof {
                    assert forall|x: Seq<char>| #[trigger] views(order@).contains(x) && !or0.contains(x)
                        implies !views(stack@).contains(x) by {
                        if !ord_before.contains(x) {
                        }
                    }
                    assert forall|x: Seq<char>| #[trigger] views(order@).contains(x) && !or0.contains(x)
                        implies known_name(steps@, x) by {
                        if !ord_before.contains(x) {
                        }
                    }
                    assert forall|j: int| 0 <= j < i + 1 implies views(order@).contains(#[trigger] views(deps@)[j]) by {
                        if j < i {
                            assert(ord_before.contains(views(deps@)[j]));
                            let q = choose|q: int| 0 <= q < ord_before.len() && ord_before[q] == views(deps@)[j];
                            assert(views(order@)[q] == ord_before[q]);
                        } else {
                            assert(views(deps@)[j] == deps@[j]@);
                        }
                    }
                    assert(or0.is_prefix_of(views(order@))) by {
                        assert forall|q: int| 0 <= q < or0.len() implies or0[q] == views(order@)[q] by {
                            assert(ord_before[q] == or0[q]);
                        }
                    }
                }
                i = i + 1;
            }
        },
    }
    let ghost ord_mid = views(order@);
    let ghost stack_mid = views(stack@);
    proof {
        assert(stack_mid == st0.push(name@));
        assert forall|x: Seq<char>| #[trigger] ord_mid.contains(x) && !or0.contains(x) implies !stack_mid.contains(x) by {
        }
    }
    stack.pop();
    proof {
        assert(views(stack@) =~= st0) by {
            assert forall|q: int| 0 <= q < st0.len() implies views(stack@)[q] == st0[q] by {
                assert(stack_mid[q] == st0[q]);
            }
        }
    }
    order.push(name.clone());
    proof {
        let o = views(order@);
        assert(o =~= ord_mid.push(name@));
        // name was not added while visiting its dependencies
        assert(!ord_mid.contains(name@)) by {
            if ord_mid.contains(name@) {
                if !or0.contains(name@) {
                    assert(st0.push(name@).contains(name@)) by {
                        assert(st0.push(name@)[st0.len() as int] == name@);
                    }
                }
            }
        }
        assert(o.no_duplicates()) by {
            assert forall|a: int, b: int| 0 <= a < o.len() && 0 <= b < o.len() && a != b implies o[a] != o[b] by {
                if a < ord_mid.len() && b < ord_mid.len() {
                } else if a == ord_mid.len() {
                    assert(o[b] == ord_mid[b]);
                } else {
                    assert(o[a] == ord_mid[a]);
                }
            }
        }
        assert(deps_before(steps@, o)) by {
            assert forall|k: int, d: Seq<char>| 0 <= k < o.len() && #[trigger] deps_of(steps@, o[k]).contains(d)
                implies #[trigger] o.subrange(0, k).contains(d) by {
                if k < ord_mid.len() {
                    assert(o[k] == ord_mid[k]);
                    assert(ord_mid.subrange(0, k).contains(d));
                    assert(o.subrange(0, k) =~= ord_mid.subrange(0, k));
                } else {
                    assert(o[k] == name@);
                    assert(o.subrange(0, k) =~= ord_mid);
                    match found {
                        None => {
                            assert(deps_of(steps@, name@) =~= Seq::<Seq<char>>::empty());
                        },
                        Some(idx) => {
                            let dq = choose|q: int| 0 <= q < deps_of(steps@, name@).len() && deps_of(steps@, name@)[q] == d;
                            assert(views(steps@[idx as int].depends_on@)[dq] == d);
                        },
                    }
                }
            }
        }
        assert(o.contains(name@)) by {
            assert(o[ord_mid.len() as int] == name@);
        }
        assert(or0.is_prefix_of(o)) by {
            assert forall|q: int| 0 <= q < or0.len() implies or0[q] == o[q] by {
                assert(ord_mid[q] == or0[q]);
            }
        }
        assert forall|x: Seq<char>| #[trigger] o.contains(x) && !or0.contains(x) implies known_name(steps@, x) by {
            if x != name@ {
                let q = choose|q: int| 0 <= q < o.len() && o[q] == x;
                assert(ord_mid[q] == x);
                assert(ord_mid.contains(x));
            }
        }
        assert forall|x: Seq<char>| #[trigger] o.contains(x) && !or0.contains(x) implies !st0.contains(x) by {
            if x == name@ {
            } else {
                let q = choose|q: int| 0 <= q < o.len() && o[q] == x;
                assert(ord_mid[q] == x);
                assert(ord_mid.contains(x));
                if st0.contains(x) {
                    let q2 = choose|q2: int| 0 <= q2 < st0.len() && st0[q2] == x;
                    assert(stack_mid[q2] == x);
                }
            }
        }
    }
    Ok(())
}


/// Position of `x` in `order`.
spec fn pos_in(order: Seq<Seq<char>>, x: Seq<char>) -> int {
    choose|j: int| 0 <= j < order.len() && order[j] == x
}

/// A dependency sits before its dependent in an execution order.
proof fn lemma_edge_pos(steps: Seq<AuthStepConfig>, order: Seq<Seq<char>>, a: Seq<char>, b: Seq<char>)
    requires
        order.no_duplicates(),
        deps_before(steps, order),
        order.contains(a),
        deps_of(steps, a).contains(b),
    ensures
        order.contains(b),
        pos_in(order, b) < pos_in(order, a),
        order[pos_in(order, a)] == a,
        order[pos_in(order, b)] == b,
{
    let ka = pos_in(order, a);
    assert(0 <= ka < order.len() && order[ka] == a);
    assert(order.subrange(0, ka).contains(b));
    let j = choose|j: int| 0 <= j < ka && order.subrange(0, ka)[j] == b;
    assert(order[j] == b);
    let kb = pos_in(order, b);
    assert(0 <= kb < order.len() && order[kb] == b);
    assert(kb == j);
}

proof fn lemma_path_descends(steps: Seq<AuthStepConfig>, order: Seq<Seq<char>>, p: Seq<Seq<char>>, i: int)
    requires
        order.no_duplicates(),
        deps_before(steps, order),
        is_dep_path(steps, p),
        order.contains(p[0]),
        1 <= i < p.len(),
    ensures
        order.contains(p[i]),
        pos_in(order, p[i]) < pos_in(order, p[0]),
    decreases i,
{
    let j = i - 1;
    assert(deps_of(steps, p[j]).contains(p[j + 1]));
    if i == 1 {
        lemma_edge_pos(steps, order, p[0], p[1]);
    } else {
        lemma_path_descends(steps, order, p, i - 1);
        lemma_edge_pos(steps, order, p[j], p[i]);
    }
}

/// A chain that has an execution order has no circular dependency.
pub proof fn lemma_order_excludes_cycle(steps: Seq<AuthStepConfig>, order: Seq<Seq<char>>)
    requires
        is_execution_order(steps, order),
    ensures
        !has_cycle(steps),
{
    if has_cycle(steps) {
        let p = choose|p: Seq<Seq<char>>| is_cycle(steps, p);
        let z: int = 0;
        assert(deps_of(steps, p[z]).contains(p[z + 1]));
        lemma_deps_name(steps, p[0]);
        let k = choose|k: int| 0 <= k < steps.len() && steps[k].plugin_name@ == p[0];
        assert(order.contains(steps[k].plugin_name@));
        lemma_path_descends(steps, order, p, p.len() - 1);
    }
}

/// Message of the failure reported for a circular dependency through `name`.
pub open spec fn circular_message(name: Seq<char>) -> Seq<char> {
    "Circular dependency detected involving step '"@ + name + "'"@
}

/// Failure with no retry and the given code and description.
pub open spec fn is_final_failure(f: AuthFailure, code: Seq<char>, description: Seq<char>) -> bool {
    &&& f.error_code@ == code
    &&& f.error_description@ == description
    &&& f.retry_after is None
    &&& !f.should_retry
}

/// A failure that is not retried.
pub fn final_failure(code: &str, description: String) -> (f: AuthFailure)
    ensures
        is_final_failure(f, code@, description@),
{
    AuthFailure { error_code: owned(code), error_description: description, retry_after: None, should_retry: false }
}

/// Order in which the steps run: each step after the steps it depends on,
/// otherwise in the order the steps are listed. Fails exactly when the
/// dependencies are circular.
pub fn calculate_execution_order(steps: &Vec<AuthStepConfig>) -> (r: Result<Vec<String>, AuthFailure>)
    ensures
        r is Ok <==> !has_cycle(steps@),
        r matches Ok(order) ==> is_execution_order(steps@, views(order@)),
        r matches Ok(order) ==> forall|x: Seq<char>| #[trigger] views(order@).contains(x) ==> known_name(steps@, x),
        r matches Err(f) ==> exists|n: Seq<char>|
            is_final_failure(f, "CIRCULAR_DEPENDENCY"@, circular_message(n))
                && exists|p: Seq<Seq<char>>| is_cycle(steps@, p) && p[0] == n,
{
    let mut order: Vec<String> = Vec::new();
    let mut stack: Vec<String> = Vec::new();
    let mut i: usize = 0;
    proof {
        assert(views(order@) =~= Seq::<Seq<char>>::empty());
        assert(views(stack@) =~= Seq::<Seq<char>>::empty());
    }
    while i < steps.len()
        invariant
            i <= steps@.len(),
            views(stack@) == Seq::<Seq<char>>::empty(),
            views(order@).no_duplicates(),
            deps_before(steps@, views(order@)),
            forall|j: int| 0 <= j < i ==> views(order@).contains(#[trigger] steps@[j].plugin_name@),
            forall|x: Seq<char>| #[trigger] views(order@).contains(x) ==> known_name(steps@, x),
        decreases steps.len() - i,
    {
        let ghost before = views(order@);
        assert(known_name(steps@, steps@[i as int].plugin_name@));
        match visit(steps, &steps[i].plugin_name, &mut stack, &mut order) {
            Err(n) => {
                let mut msg = owned("Circular dependency detected involving step '");
                msg.append(n.as_str());
                msg.append("'");
                let f = final_failure("CIRCULAR_DEPENDENCY", msg);
                proof {
                    assert(has_cycle(steps@));
                    assert(is_final_failure(f, "CIRCULAR_DEPENDENCY"@, circular_message(n@)));
                }
                return Err(f);
            },
            Ok(()) => {},
        }
        proof {
            assert forall|x: Seq<char>| #[trigger] views(order@).contains(x) implies known_name(steps@, x) by {
                if before.contains(x) {
                }
            }
            assert forall|j: int| 0 <= j < i + 1 implies views(order@).contains(#[trigger] steps@[j].plugin_name@) by {
                if j < i {
                    let q = choose|q: int| 0 <= q < before.len() && before[q] == steps@[j].plugin_name@;
                    assert(views(order@)[q] == before[q]);
                }
            }
        }
        i = i + 1;
    }
    proof {
        lemma_order_excludes_cycle(steps@, views(order@));
    }
    Ok(order)
}

/// Whether the steps' dependencies are circular.
pub fn has_circular_dependencies(steps: &Vec<AuthStepConfig>) -> (r: bool)
    ensures
        r == has_cycle(steps@),
{
    calculate_execution_order(steps).is_err()
}


/// Outcome of one attempt at running a chain.
pub enum ExecutionOutcome {
    Success,
    PartialSuccess { failed_optional_steps: Vec<String> },
    Failure { error: String },
}

/// Record of one step run within an attempt. Times are milliseconds since the Unix epoch.
pub struct StepExecution {
    pub step_name: String,
    pub started_at: u64,
    pub completed_at: Option<u64>,
    pub success: bool,
    pub error_message: Option<String>,
    pub retry_count: u32,
}

/// Record of one attempt at running a chain. Times are milliseconds since the Unix epoch.
pub struct ExecutionAttempt {
    pub attempt_number: u32,
    pub started_at: u64,
    pub completed_at: Option<u64>,
    pub steps_executed: Vec<StepExecution>,
    pub final_result: Option<ExecutionOutcome>,
}

/// Runs authentication chains: knows which plugin types are registered and
/// keeps the history of attempts.
pub struct AuthChainExecutor {
    plugins: Vec<String>,
    execution_history: Vec<ExecutionAttempt>,
}

/// Whether `steps[k]` names a registered plugin.
pub open spec fn step_registered(plugins: Seq<Seq<char>>, steps: Seq<AuthStepConfig>, k: int) -> bool {
    plugins.contains(steps[k].plugin_name@)
}

/// Whether dependency `j` of `steps[k]` names a step of the chain.
pub open spec fn dep_defined(steps: Seq<AuthStepConfig>, k: int, j: int) -> bool {
    step_names(steps).contains(steps[k].depends_on@[j]@)
}

/// Every dependency of every step names a step of the chain.
pub open spec fn all_deps_defined(steps: Seq<AuthStepConfig>) -> bool {
    forall|k: int, j: int| 0 <= k < steps.len() && 0 <= j < steps[k].depends_on@.len() ==> dep_defined(steps, k, j)
}

/// Message for a step naming an unregistered plugin.
pub open spec fn plugin_missing_message(name: Seq<char>) -> Seq<char> {
    "Plugin '"@ + name + "' not found"@
}

/// Message for a dependency that names no step of the chain.
pub open spec fn undefined_dep_message(step: Seq<char>, dep: Seq<char>) -> Seq<char> {
    "Step '"@ + step + "' depends on '"@ + dep + "' which is not defined in the chain"@
}

/// Message for a dependency that has not produced a token.
pub open spec fn unsatisfied_dep_message(step: Seq<char>, dep: Seq<char>) -> Seq<char> {
    "Step '"@ + step + "' depends on '"@ + dep + "' which has not completed successfully"@
}

/// Message for a step whose plugin is unknown when it runs.
pub open spec fn unknown_plugin_message(step: Seq<char>) -> Seq<char> {
    "Authentication plugin '"@ + step + "' not found"@
}

/// A chain that may run: no circular dependency, every step's plugin
/// registered, every dependency naming a step.
pub open spec fn chain_is_valid(plugins: Seq<Seq<char>>, steps: Seq<AuthStepConfig>) -> bool {
    &&& !has_cycle(steps)
    &&& forall|k: int| 0 <= k < steps.len() ==> step_registered(plugins, steps, k)
    &&& all_deps_defined(steps)
}

/// `f` reports the first problem of the chain, checked in this order:
/// circular dependencies, then unregistered plugins in step order, then
/// undefined dependencies in step and dependency order.
pub open spec fn chain_problem(plugins: Seq<Seq<char>>, steps: Seq<AuthStepConfig>, f: AuthFailure) -> bool {
    ||| has_cycle(steps) && is_final_failure(
        f,
        "CIRCULAR_DEPENDENCY"@,
        "Circular dependency detected in authentication chain"@,
    )
    ||| !has_cycle(steps) && exists|k: int|
        0 <= k < steps.len() && !step_registered(plugins, steps, k)
        && (forall|q: int| 0 <= q < k ==> step_registered(plugins, steps, q))
        && is_final_failure(f, "PLUGIN_NOT_FOUND"@, plugin_missing_message(steps[k].plugin_name@))
    ||| {
        &&& !has_cycle(steps)
        &&& forall|q: int| 0 <= q < steps.len() ==> step_registered(plugins, steps, q)
        &&& exists|k: int, j: int|
            0 <= k < steps.len() && 0 <= j < steps[k].depends_on@.len()
            && !dep_defined(steps, k, j)
            && (forall|k2: int, j2: int| 0 <= k2 < k && 0 <= j2 < steps[k2].depends_on@.len()
                ==> dep_defined(steps, k2, j2))
            && (forall|j2: int| 0 <= j2 < j ==> dep_defined(steps, k, j2))
            && is_final_failure(f, "INVALID_DEPENDENCY"@, undefined_dep_message(
                steps[k].plugin_name@,
                steps[k].depends_on@[j]@,
            ))
    }
}

/// Every dependency of `step` is among `done`.
pub open spec fn deps_satisfied(step: &AuthStepConfig, done: Set<Seq<char>>) -> bool {
    forall|j: int| 0 <= j < step.depends_on@.len() ==> done.contains(#[trigger] step.depends_on@[j]@)
}

/// `f` reports why `step` cannot run: its first dependency not among `done`,
/// or else its unregistered plugin.
pub open spec fn step_problem(plugins: Seq<Seq<char>>, step: &AuthStepConfig, done: Set<Seq<char>>, f: AuthFailure) -> bool {
    ||| exists|j: int|
        0 <= j < step.depends_on@.len() && !done.contains(step.depends_on@[j]@)
        && (forall|q: int| 0 <= q < j ==> done.contains(#[trigger] step.depends_on@[q]@))
        && is_final_failure(f, "DEPENDENCY_NOT_SATISFIED"@, unsatisfied_dep_message(
            step.plugin_name@,
            step.depends_on@[j]@,
        ))
    ||| deps_satisfied(step, done) && !plugins.contains(step.plugin_name@)
        && is_final_failure(f, "PLUGIN_NOT_FOUND"@, unknown_plugin_message(step.plugin_name@))
}

/// The texts of four strings, joined.
fn join4(a: &str, b: &String, c: &str, d: &String) -> (r: String)
    ensures
        r@ == a@ + b@ + c@ + d@,
{
    let mut s = owned(a);
    s.append(b.as_str());
    s.append(c);
    s.append(d.as_str());
    s
}

/// The texts of three strings, joined.
fn join3(a: &str, b: &String, c: &str) -> (r: String)
    ensures
        r@ == a@ + b@ + c@,
{
    let mut s = owned(a);
    s.append(b.as_str());
    s.append(c);
    s
}

impl AuthChainExecutor {
    /// Registered plugin types.
    pub closed spec fn plugin_types(&self) -> Seq<Seq<char>> {
        views(self.plugins@)
    }

    /// Attempts recorded so far.
    pub closed spec fn history(&self) -> Seq<ExecutionAttempt> {
        self.execution_history@
    }

    /// An executor with no plugins and no history.
    pub fn new() -> (r: Self)
        ensures
            r.plugin_types() == Seq::<Seq<char>>::empty(),
            r.history() == Seq::<ExecutionAttempt>::empty(),
    {
        let r = AuthChainExecutor { plugins: Vec::new(), execution_history: Vec::new() };
        assert(r.plugin_types() =~= Seq::<Seq<char>>::empty());
        r
    }

    /// Registers a plugin by the authentication type it handles.
    pub fn register_plugin(&mut self, auth_type: String)
        ensures
            old(self).plugin_types().contains(auth_type@) ==> final(self).plugin_types() == old(self).plugin_types(),
            !old(self).plugin_types().contains(auth_type@) ==> final(self).plugin_types()
                == old(self).plugin_types().push(auth_type@),
            final(self).history() == old(self).history(),
    {
        if !contains_string(&self.plugins, &auth_type) {
            let ghost before = self.plugins@;
            self.plugins.push(auth_type);
            assert(views(self.plugins@) =~= views(before).push(self.plugins@.last()@));
        }
    }

    /// Whether a plugin of type `name` is registered.
    pub fn has_plugin(&self, name: &String) -> (r: bool)
        ensures
            r == self.plugin_types().contains(name@),
    {
        contains_string(&self.plugins, name)
    }

    /// Attempts recorded so far, oldest first.
    pub fn get_execution_history(&self) -> (r: &Vec<ExecutionAttempt>)
        ensures
            r@ == self.history(),
    {
        &self.execution_history
    }

    /// Forgets all recorded attempts.
    pub fn clear_history(&mut self)
        ensures
            final(self).history() == Seq::<ExecutionAttempt>::empty(),
            final(self).plugin_types() == old(self).plugin_types(),
    {
        self.execution_history = Vec::new();
    }

    /// Records a finished attempt.
    pub fn record_attempt(&mut self, attempt: ExecutionAttempt)
        ensures
            final(self).history() == old(self).history().push(attempt),
            final(self).plugin_types() == old(self).plugin_types(),
    {
        self.execution_history.push(attempt);
    }

    /// Checks a chain before it runs: no circular dependency, every step's
    /// plugin registered, every dependency naming a step. The first problem
    /// found, in that order, is reported.
    pub fn validate_chain_config(&self, chain: &AuthChainConfig) -> (r: Result<(), AuthFailure>)
        ensures
            match r {
                Ok(_) => chain_is_valid(self.plugin_types(), chain.steps@),
                Err(f) => chain_problem(self.plugin_types(), chain.steps@, f),
            },
    {
        let steps = &chain.steps;
        if has_circular_dependencies(steps) {
            return Err(final_failure("CIRCULAR_DEPENDENCY", owned("Circular dependency detected in authentication chain")));
        }
        let mut k: usize = 0;
        while k < steps.len()
            invariant
                k <= steps@.len(),
                steps == &chain.steps,
                !has_cycle(steps@),
                forall|q: int| 0 <= q < k ==> step_registered(self.plugin_types(), steps@, q),
            decreases steps.len() - k,
        {
            if !self.has_plugin(&steps[k].plugin_name) {
                let f = final_failure("PLUGIN_NOT_FOUND", join3("Plugin '", &steps[k].plugin_name, "' not found"));
                assert(!step_registered(self.plugin_types(), steps@, k as int));
                return Err(f);
            }
            k = k + 1;
        }
        let mut names: Vec<String> = Vec::new();
        let mut q: usize = 0;
        while q < steps.len()
            invariant
                q <= steps@.len(),
                views(names@) == step_names(steps@).subrange(0, q as int),
            decreases steps.len() - q,
        {
            let ghost before = names@;
            names.push(copy_string(&steps[q].plugin_name));
            proof {
                assert(names@ == before.push(names@.last()));
                assert(views(names@) =~= views(before).push(steps@[q as int].plugin_name@));
                assert(views(names@) =~= step_names(steps@).subrange(0, q + 1));
            }
            q = q + 1;
        }
        proof {
            assert(views(names@) =~= step_names(steps@));
        }
        let mut k: usize = 0;
        while k < steps.len()
            invariant
                k <= steps@.len(),
                steps == &chain.steps,
                !has_cycle(steps@),
                forall|q: int| 0 <= q < steps@.len() ==> step_registered(self.plugin_types(), steps@, q),
                views(names@) == step_names(steps@),
                forall|k2: int, j2: int| 0 <= k2 < k && 0 <= j2 < steps@[k2].depends_on@.len()
                    ==> dep_defined(steps@, k2, j2),
            decreases steps.len() - k,
        {
            let deps = &steps[k].depends_on;
            let mut j: usize = 0;
            while j < deps.len()
                invariant
                    j <= deps@.len(),
                    k < steps@.len(),
                    steps == &chain.steps,
                    !has_cycle(steps@),
                    forall|q: int| 0 <= q < steps@.len() ==> step_registered(self.plugin_types(), steps@, q),
                    deps == &steps@[k as int].depends_on,
                    views(names@) == step_names(steps@),
                    forall|k2: int, j2: int| 0 <= k2 < k && 0 <= j2 < steps@[k2].depends_on@.len()
                        ==> dep_defined(steps@, k2, j2),
                    forall|j2: int| 0 <= j2 < j ==> dep_defined(steps@, k as int, j2),
                decreases deps.len() - j,
            {
                if !contains_string(&names, &deps[j]) {
                    let f = final_failure(
                        "INVALID_DEPENDENCY",
                        join4_tail("Step '", &steps[k].plugin_name, "' depends on '", &deps[j], "' which is not defined in the chain"),
                    );
                    assert(!dep_defined(steps@, k as int, j as int));
                    return Err(f);
                }
                j = j + 1;
            }
            k = k + 1;
        }
        Ok(())
    }

    /// Checks that a step can run: every dependency has produced a token and
    /// its plugin is registered. The first missing dependency is reported.
    pub fn check_step_ready(&self, step: &AuthStepConfig, result: &AuthChainResult) -> (r: Result<(), AuthFailure>)
        ensures
            match r {
                Ok(_) => deps_satisfied(step, result.tokens@.dom()) && self.plugin_types().contains(step.plugin_name@),
                Err(f) => step_problem(self.plugin_types(), step, result.tokens@.dom(), f),
            },
    {
        let mut j: usize = 0;
        while j < step.depends_on.len()
            invariant
                j <= step.depends_on@.len(),
                forall|q: int| 0 <= q < j ==> result.tokens@.dom().contains(#[trigger] step.depends_on@[q]@),
            decreases step.depends_on.len() - j,
        {
            if !result.tokens.contains_key(step.depends_on[j].as_str()) {
                let f = final_failure(
                    "DEPENDENCY_NOT_SATISFIED",
                    join4_tail("Step '", &step.plugin_name, "' depends on '", &step.depends_on[j], "' which has not completed successfully"),
                );
                return Err(f);
            }
            j = j + 1;
        }
        if !self.has_plugin(&step.plugin_name) {
            return Err(final_failure("PLUGIN_NOT_FOUND", join3("Authentication plugin '", &step.plugin_name, "' not found")));
        }
        Ok(())
    }
}

/// The texts of five strings, joined.
fn join4_tail(a: &str, b: &String, c: &str, d: &String, e: &str) -> (r: String)
    ensures
        r@ == a@ + b@ + c@ + d@ + e@,
{
    let mut s = join4(a, b, c, d);
    s.append(e);
    s
}


/// Name of the parameter that carries `field` of the token of dependency `dep`.
pub open spec fn dep_param_name(dep: Seq<char>, field: Seq<char>) -> Seq<char> {
    "dep_"@ + dep + "_"@ + field
}

/// Parameters with the token of dependency `dep` added: its text, its type
/// and, when `with_expiry` holds and the token has one, its expiry in whole
/// seconds since the Unix epoch.
pub open spec fn inject_token_fields(
    p: Map<Seq<char>, JsonView>,
    dep: Seq<char>,
    t: AuthToken,
    with_expiry: bool,
) -> Map<Seq<char>, JsonView> {
    let p1 = p.insert(dep_param_name(dep, "token"@), JsonView::String(t.token@)).insert(
        dep_param_name(dep, "type"@),
        JsonView::String(t.token_type@),
    );
    match t.expires_at {
        Some(ms) => if with_expiry {
            p1.insert(dep_param_name(dep, "expires_at"@), JsonView::Number(decimal((ms / 1000) as nat)))
        } else {
            p1
        },
        None => p1,
    }
}

/// Parameters with the tokens of the listed dependencies added, in order;
/// a dependency without a token adds nothing.
pub open spec fn dep_params(
    params: Map<Seq<char>, JsonView>,
    deps: Seq<Seq<char>>,
    tokens: Map<Seq<char>, AuthToken>,
) -> Map<Seq<char>, JsonView> {
    dep_params_with(params, deps, tokens, true)
}

/// Parameters with the tokens of the listed dependencies added, in order, as
/// `inject_token_fields` adds them; a dependency without a token adds nothing.
pub open spec fn dep_params_with(
    params: Map<Seq<char>, JsonView>,
    deps: Seq<Seq<char>>,
    tokens: Map<Seq<char>, AuthToken>,
    with_expiry: bool,
) -> Map<Seq<char>, JsonView>
    decreases deps.len(),
{
    if deps.len() == 0 {
        params
    } else {
        let p = dep_params_with(params, deps.drop_last(), tokens, with_expiry);
        let d = deps.last();
        if tokens.dom().contains(d) {
            inject_token_fields(p, d, tokens[d], with_expiry)
        } else {
            p
        }
    }
}

/// The texts of three strings, joined (owned middle).
fn name_of(dep: &String, field: &str) -> (r: String)
    ensures
        r@ == dep_param_name(dep@, field@),
{
    let mut s = owned("dep_");
    s.append(dep.as_str());
    s.append("_");
    s.append(field);
    s
}

/// Adds the token of `dep` to `params`.
fn inject_one(params: &mut StrMap<JsonValue>, dep: &String, t: &AuthToken, with_expiry: bool)
    ensures
        param_views(final(params)@) == inject_token_fields(param_views(old(params)@), dep@, *t, with_expiry),
{
    let ghost p0 = param_views(params@);
    let k1 = name_of(dep, "token");
    let v1 = JsonValue::String(copy_string(&t.token));
    proof { lemma_param_views_insert(params@, k1@, v1); }
    params.insert(k1, v1);
    let k2 = name_of(dep, "type");
    let v2 = JsonValue::String(copy_string(&t.token_type));
    proof { lemma_param_views_insert(params@, k2@, v2); }
    params.insert(k2, v2);
    match t.expires_at {
        Some(ms) => if with_expiry {
            let k3 = name_of(dep, "expires_at");
            let v3 = JsonValue::Number(decimal_text(ms / 1000));
            proof { lemma_param_views_insert(params@, k3@, v3); }
            params.insert(k3, v3);
        },
        None => {},
    }
}

/// The step's configuration with the tokens of its completed dependencies
/// made available: a custom configuration receives, for each dependency with
/// a token, the parameters `dep_<name>_token`, `dep_<name>_type` and, when the
/// token expires, `dep_<name>_expires_at`. Other configurations are unchanged.
pub fn enhance_config_with_dependencies(config: AuthConfig, dependencies: &Vec<String>, result: &AuthChainResult) -> (r: AuthConfig)
    ensures
        match config {
            AuthConfig::Custom { auth_type, parameters } => r matches AuthConfig::Custom { auth_type: t2, parameters: p2 }
                && t2@ == auth_type@
                && param_views(p2@) == dep_params(param_views(parameters@), views(dependencies@), result.tokens@),
            _ => r == config,
        },
{
    enhance_config_with(config, dependencies, result, true)
}

/// Whether `r` is `config` with the tokens of its completed dependencies
/// added as `dep_params_with` adds them, for a custom configuration, and
/// `config` itself otherwise.
pub open spec fn enhanced_config(
    config: AuthConfig,
    dependencies: Seq<Seq<char>>,
    tokens: Map<Seq<char>, AuthToken>,
    with_expiry: bool,
    r: AuthConfig,
) -> bool {
    match config {
        AuthConfig::Custom { auth_type, parameters } => r matches AuthConfig::Custom { auth_type: t2, parameters: p2 }
            && t2@ == auth_type@
            && param_views(p2@) == dep_params_with(param_views(parameters@), dependencies, tokens, with_expiry),
        _ => r == config,
    }
}

/// The configuration with the tokens of its completed dependencies added,
/// their expiries too when `with_expiry` holds.
pub(crate) fn enhance_config_with(
    config: AuthConfig,
    dependencies: &Vec<String>,
    result: &AuthChainResult,
    with_expiry: bool,
) -> (r: AuthConfig)
    ensures
        enhanced_config(config, views(dependencies@), result.tokens@, with_expiry, r),
{
    match config {
        AuthConfig::Custom { auth_type, parameters } => {
            let ghost p0 = param_views(parameters@);
            let mut params = parameters;
            let mut i: usize = 0;
            while i < dependencies.len()
                invariant
                    i <= dependencies@.len(),
                    param_views(params@) == dep_params_with(p0, views(dependencies@).subrange(0, i as int), result.tokens@, with_expiry),
                decreases dependencies.len() - i,
            {
                let ghost before = param_views(params@);
                let d = &dependencies[i];
                proof {
                    let s1 = views(dependencies@).subrange(0, i + 1);
                    assert(s1.drop_last() =~= views(dependencies@).subrange(0, i as int));
                    assert(s1.last() == d@);
                }
                match result.tokens.get(d.as_str()) {
                    Some(t) => {
                        inject_one(&mut params, d, t, with_expiry);
                    },
                    None => {},
                }
                i = i + 1;
            }
            proof {
                assert(views(dependencies@).subrange(0, dependencies@.len() as int) =~= views(dependencies@));
            }
            AuthConfig::Custom { auth_type, parameters: params }
        },
        other => other,
    }
}

/// A chain result with no tokens, no metadata and no failed step.
pub fn new_chain_result() -> (r: AuthChainResult)
    ensures
        r.tokens@ == Map::<Seq<char>, AuthToken>::empty(),
        r.metadata@ == Map::<Seq<char>, String>::empty(),
        r.failed_steps@.len() == 0,
{
    AuthChainResult { tokens: StrMap::new(), metadata: StrMap::new(), failed_steps: Vec::new() }
}

/// Whether a failed required step stops the chain under `strategy`.
pub open spec fn aborts(required: bool, strategy: FailureStrategy) -> bool {
    required && strategy != FailureStrategy::ContinueOnError
}

/// Records the outcome of one step. A success stores the step's token under
/// the step's name and merges its metadata (the step's entries win); a
/// failure adds the step to the failed steps and is handed back when it stops
/// the chain: the step is required and the strategy is not to continue.
pub fn record_step_outcome(
    result: &mut AuthChainResult,
    step: &AuthStepConfig,
    outcome: Result<AuthResult, AuthFailure>,
    strategy: &FailureStrategy,
) -> (abort: Option<AuthFailure>)
    ensures
        match outcome {
            Ok(a) => {
                &&& final(result).tokens@ == old(result).tokens@.insert(step.plugin_name@, a.token)
                &&& final(result).metadata@ == old(result).metadata@.union_prefer_right(a.metadata@)
                &&& final(result).failed_steps@ == old(result).failed_steps@
                &&& abort is None
            },
            Err(f) => {
                &&& final(result).tokens@ == old(result).tokens@
                &&& final(result).metadata@ == old(result).metadata@
                &&& views(final(result).failed_steps@) == views(old(result).failed_steps@).push(step.plugin_name@)
                &&& abort == if aborts(step.required, *strategy) { Some(f) } else { None }
            },
        },
{
    match outcome {
        Ok(a) => {
            let AuthResult { token, metadata } = a;
            result.tokens.insert(copy_string(&step.plugin_name), token);
            result.metadata.extend_from(metadata);
            None
        },
        Err(f) => {
            let ghost before = result.failed_steps@;
            result.failed_steps.push(copy_string(&step.plugin_name));
            proof {
                assert(views(result.failed_steps@) =~= views(before).push(step.plugin_name@));
            }
            let stop = step.required && match strategy {
                FailureStrategy::ContinueOnError => false,
                _ => true,
            };
            if stop { Some(f) } else { None }
        },
    }
}

/// Whether a failed attempt is tried again: the failure allows a retry and
/// attempt `retry_count + 1` is not the last of `max_attempts`.
pub fn should_retry(failure: &AuthFailure, retry_count: u32, max_attempts: u32) -> (r: bool)
    ensures
        r == (failure.should_retry && retry_count + 1 < max_attempts),
{
    failure.should_retry && (retry_count as u64) + 1 < max_attempts as u64
}

/// The outcome recorded for an attempt that produced `result`: success when
/// no step failed, else partial success listing the failed steps.
pub fn attempt_outcome(result: &AuthChainResult) -> (r: ExecutionOutcome)
    ensures
        result.failed_steps@.len() == 0 ==> r is Success,
        result.failed_steps@.len() > 0 ==> (r matches ExecutionOutcome::PartialSuccess { failed_optional_steps }
            && views(failed_optional_steps@) == views(result.failed_steps@)),
{
    if result.failed_steps.len() == 0 {
        ExecutionOutcome::Success
    } else {
        ExecutionOutcome::PartialSuccess { failed_optional_steps: copy_strings(&result.failed_steps) }
    }
}

/// Failure of a chain whose attempts ran out.
pub fn max_retries_failure(max_attempts: u32) -> (f: AuthFailure)
    ensures
        is_final_failure(
            f,
            "MAX_RETRIES_EXCEEDED"@,
            "Maximum retry attempts ("@ + decimal(max_attempts as nat) + ") exceeded"@,
        ),
{
    let mut d = owned("Maximum retry attempts (");
    let n = decimal_text(max_attempts as u64);
    d.append(n.as_str());
    d.append(") exceeded");
    final_failure("MAX_RETRIES_EXCEEDED", d)
}

/// Failure of a step whose attempts ran out.
pub fn step_retries_failure(step_name: &String) -> (f: AuthFailure)
    ensures
        is_final_failure(
            f,
            "STEP_MAX_RETRIES_EXCEEDED"@,
            "Step '"@ + step_name@ + "' exceeded maximum retry attempts"@,
        ),
{
    final_failure("STEP_MAX_RETRIES_EXCEEDED", join3("Step '", step_name, "' exceeded maximum retry attempts"))
}

} // verus!
