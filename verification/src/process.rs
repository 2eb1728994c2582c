//! Recursive process termination: the order in which a process tree is
//! killed.  Walking the process table and sending the signals is the
//! caller's; the library fixes the order, descendants strictly before
//! their ancestors.

use vstd::prelude::*;

verus! {

/// The children recorded for `id`: the list of the first entry naming it,
/// or none.
pub open spec fn children_of(tree: Seq<(u32, Seq<u32>)>, id: u32) -> Seq<u32>
    decreases tree.len(),
{
    if tree.len() == 0 {
        Seq::empty()
    } else if tree.first().0 == id {
        tree.first().1
    } else {
        children_of(tree.drop_first(), id)
    }
}

/// The kill order rooted at `id`: every recorded descendant, deepest
/// first, then `id` itself.  The budget bounds the walk, so that a cyclic
/// parent map cannot run it forever; a real process table is a forest and
/// never exhausts a budget as large as the table.
pub open spec fn kill_order_spec(tree: Seq<(u32, Seq<u32>)>, id: u32, budget: nat) -> Seq<u32>
    decreases budget, 0nat, 0nat,
{
    if budget == 0 {
        seq![id]
    } else {
        kill_list_spec(tree, children_of(tree, id), (budget - 1) as nat).push(id)
    }
}

/// The kill orders of a list of roots, one after the other.
pub open spec fn kill_list_spec(tree: Seq<(u32, Seq<u32>)>, ids: Seq<u32>, budget: nat) -> Seq<
    u32,
>
    decreases budget, 1nat, ids.len(),
{
    if ids.len() == 0 {
        Seq::empty()
    } else {
        kill_order_spec(tree, ids.first(), budget) + kill_list_spec(
            tree,
            ids.drop_first(),
            budget,
        )
    }
}

/// The parent recorded for `id`: the second element of the first entry
/// naming it, or nothing.
pub open spec fn parent_of(parents: Seq<(u32, u32)>, id: u32) -> Option<u32>
    decreases parents.len(),
{
    if parents.len() == 0 {
        None
    } else if parents.first().0 == id {
        Some(parents.first().1)
    } else {
        parent_of(parents.drop_first(), id)
    }
}

/// Whether walking the parent map upward from `start` reaches `target`
/// within `budget` steps: the window owner itself counts, and so does any
/// recorded ancestor.
pub open spec fn reaches_ancestor(
    parents: Seq<(u32, u32)>,
    start: u32,
    target: u32,
    budget: nat,
) -> bool
    decreases budget,
{
    if start == target {
        true
    } else if budget == 0 {
        false
    } else {
        match parent_of(parents, start) {
            Some(up) => reaches_ancestor(parents, up, target, (budget - 1) as nat),
            None => false,
        }
    }
}

/// Finds the parent recorded for `id`.
fn lookup_parent(parents: &Vec<(u32, u32)>, id: u32) -> (r: Option<u32>)
    ensures
        r == parent_of(parents@, id),
{
    let ghost t = parents@;
    let mut i: usize = 0;
    proof {
        assert(t.skip(0) =~= t);
    }
    while i < parents.len()
        invariant
            i <= parents@.len(),
            t == parents@,
            parent_of(t, id) == parent_of(t.skip(i as int), id),
        decreases parents@.len() - i,
    {
        let ghost rest = t.skip(i as int);
        proof {
            assert(rest.first() == t[i as int]);
            assert(rest.drop_first() =~= t.skip(i + 1));
        }
        if parents[i].0 == id {
            return Some(parents[i].1);
        }
        i += 1;
    }
    proof {
        assert(t.skip(i as int) =~= Seq::<(u32, u32)>::empty());
    }
    None
}

/// Decides whether the process owning a window is `target` or one of its
/// descendants: the walk climbs the parent map from the window's process
/// until `target` is met or the map runs out.  The budget bounds the walk,
/// so that a cyclic parent map cannot run it forever.
pub fn owns_window(parents: &Vec<(u32, u32)>, window_pid: u32, target: u32, budget: u64) -> (r:
    bool)
    ensures
        r == reaches_ancestor(parents@, window_pid, target, budget as nat),
{
    let mut current: u32 = window_pid;
    let mut left: u64 = budget;
    loop
        invariant
            left <= budget,
            reaches_ancestor(parents@, window_pid, target, budget as nat) == reaches_ancestor(
                parents@,
                current,
                target,
                left as nat,
            ),
        ensures
            reaches_ancestor(parents@, window_pid, target, budget as nat) == reaches_ancestor(
                parents@,
                current,
                target,
                left as nat,
            ),
            current == target || left == 0 || parent_of(parents@, current) is None,
        decreases left,
    {
        if current == target {
            break;
        }
        if left == 0 {
            break;
        }
        match lookup_parent(parents, current) {
            Some(up) => {
                current = up;
                left -= 1;
            },
            None => {
                break;
            },
        }
    }
    current == target
}

/// Finds the children recorded for `id`.
fn lookup_children<'a>(tree: &'a Vec<(u32, Vec<u32>)>, id: u32) -> (r: Option<&'a Vec<u32>>)
    ensures
        match r {
            Some(c) => c@ == children_of(tree@.map_values(|e: (u32, Vec<u32>)| (e.0, e.1@)), id),
            None => children_of(tree@.map_values(|e: (u32, Vec<u32>)| (e.0, e.1@)), id) == Seq::<
                u32,
            >::empty(),
        },
{
    let ghost t = tree@.map_values(|e: (u32, Vec<u32>)| (e.0, e.1@));
    let mut i: usize = 0;
    proof {
        assert(t.skip(0) =~= t);
    }
    while i < tree.len()
        invariant
            i <= tree@.len(),
            t == tree@.map_values(|e: (u32, Vec<u32>)| (e.0, e.1@)),
            children_of(t, id) == children_of(t.skip(i as int), id),
        decreases tree@.len() - i,
    {
        let ghost rest = t.skip(i as int);
        proof {
            assert(rest.first() == (tree@[i as int].0, tree@[i as int].1@));
            assert(rest.drop_first() =~= t.skip(i + 1));
        }
        if tree[i].0 == id {
            return Some(&tree[i].1);
        }
        i += 1;
    }
    proof {
        assert(t.skip(i as int) =~= Seq::<(u32, Seq<u32>)>::empty());
    }
    None
}

/// Computes the kill order for the tree rooted at `id`: children before
/// parents, the root itself last.  The budget caps the recursion depth.
pub fn kill_order(tree: &Vec<(u32, Vec<u32>)>, id: u32, budget: u64) -> (r: Vec<u32>)
    ensures
        r@ == kill_order_spec(
            tree@.map_values(|e: (u32, Vec<u32>)| (e.0, e.1@)),
            id,
            budget as nat,
        ),
        r@.len() >= 1,
        r@.last() == id,
    decreases budget, 0nat, 0nat,
{
    let ghost t = tree@.map_values(|e: (u32, Vec<u32>)| (e.0, e.1@));
    if budget == 0 {
        let mut r: Vec<u32> = Vec::new();
        r.push(id);
        proof {
            assert(r@ =~= seq![id]);
        }
        return r;
    }
    let mut r: Vec<u32>;
    match lookup_children(tree, id) {
        Some(children) => {
            r = kill_list(tree, children, budget - 1);
        },
        None => {
            r = Vec::new();
            proof {
                assert(kill_list_spec(t, Seq::<u32>::empty(), (budget - 1) as nat) =~= Seq::<
                    u32,
                >::empty());
                assert(r@ =~= kill_list_spec(t, children_of(t, id), (budget - 1) as nat));
            }
        },
    }
    r.push(id);
    r
}

/// Computes the kill orders for a list of roots, one after the other.
fn kill_list(tree: &Vec<(u32, Vec<u32>)>, ids: &Vec<u32>, budget: u64) -> (r: Vec<u32>)
    ensures
        r@ == kill_list_spec(
            tree@.map_values(|e: (u32, Vec<u32>)| (e.0, e.1@)),
            ids@,
            budget as nat,
        ),
    decreases budget, 1nat, ids@.len(),
{
    let ghost t = tree@.map_values(|e: (u32, Vec<u32>)| (e.0, e.1@));
    let mut r: Vec<u32> = Vec::new();
    let mut i: usize = 0;
    proof {
        assert(r@ =~= Seq::<u32>::empty());
        assert(ids@.skip(0) =~= ids@);
    }
    while i < ids.len()
        invariant
            i <= ids@.len(),
            t == tree@.map_values(|e: (u32, Vec<u32>)| (e.0, e.1@)),
            kill_list_spec(t, ids@, budget as nat) == r@ + kill_list_spec(
                t,
                ids@.skip(i as int),
                budget as nat,
            ),
        decreases ids@.len() - i,
    {
        let ghost rest = ids@.skip(i as int);
        proof {
            assert(rest.first() == ids@[i as int]);
            assert(rest.drop_first() =~= ids@.skip(i + 1));
        }
        let mut sub = kill_order(tree, ids[i], budget);
        r.append(&mut sub);
        i += 1;
    }
    proof {
        assert(kill_list_spec(t, ids@.skip(i as int), budget as nat) =~= Seq::<u32>::empty());
        assert(kill_list_spec(t, ids@, budget as nat) =~= r@);
    }
    r
}

} // verus!
