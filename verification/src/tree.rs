//! Cycle-safe hierarchical ordering: a depth-first layout of parent/child
//! links over a flat record list.
//!
//! Parent pointers are unvalidated data: they may dangle, point at a record
//! outside the set, or form a cycle. A record whose parent is absent,
//! empty, or itself counts as a root. Each identifier is emitted at most
//! once, and the walk never descends past the fixed depth bound.

use vstd::prelude::*;
use crate::filter::clone_task;
use crate::record::{Task, TaskV};
use crate::strutil::str_eq;

verus! {

/// The deepest level the walk descends to.
pub const MAX_DEPTH: u8 = 64;

/// One row of the hierarchical display: the record, its depth, whether it
/// is the last sibling at its level, and for each ancestor level whether
/// that ancestor was a last sibling (for drawing the branch lines).
pub struct TreeRow {
    pub task: Task,
    pub depth: u8,
    pub is_last: bool,
    pub ancestor_is_last: Vec<bool>,
}

/// The first position holding a record with the given identifier.
pub open spec fn first_idx_from(dv: Seq<TaskV>, id: Seq<char>, from: int) -> Option<int>
    decreases dv.len() - from,
{
    if from < 0 || from >= dv.len() {
        None
    } else if dv[from].id == id {
        Some(from)
    } else {
        first_idx_from(dv, id, from + 1)
    }
}

pub open spec fn first_idx(dv: Seq<TaskV>, id: Seq<char>) -> Option<int> {
    first_idx_from(dv, id, 0)
}

proof fn lemma_first_idx_from(dv: Seq<TaskV>, id: Seq<char>, from: int)
    requires
        0 <= from <= dv.len(),
    ensures
        match first_idx_from(dv, id, from) {
            Some(i) => from <= i < dv.len() && dv[i].id == id && (forall|j: int|
                from <= j < i ==> dv[j].id != id),
            None => forall|j: int| from <= j < dv.len() ==> dv[j].id != id,
        },
    decreases dv.len() - from,
{
    if from < dv.len() && dv[from].id != id {
        lemma_first_idx_from(dv, id, from + 1);
    }
}

/// The characterization of `first_idx`: the least position with this
/// identifier, or nothing when no record carries it.
pub proof fn lemma_first_idx(dv: Seq<TaskV>, id: Seq<char>)
    ensures
        match first_idx(dv, id) {
            Some(i) => 0 <= i < dv.len() && dv[i].id == id && (forall|j: int|
                0 <= j < i ==> dv[j].id != id),
            None => forall|j: int| 0 <= j < dv.len() ==> dv[j].id != id,
        },
{
    lemma_first_idx_from(dv, id, 0);
}

/// Whether some record in the set carries the identifier.
pub open spec fn id_present(dv: Seq<TaskV>, id: Seq<char>) -> bool {
    exists|p: int| 0 <= p < dv.len() && dv[p].id == id
}

/// A record stands at the top level when its parent pointer is empty,
/// names itself, or names no record in the set.
pub open spec fn is_root(dv: Seq<TaskV>, i: int) -> bool {
    ||| dv[i].parent_id.len() == 0
    ||| dv[i].parent_id == dv[i].id
    ||| !id_present(dv, dv[i].parent_id)
}

/// A record that names itself as its parent stands at the top level.
pub proof fn lemma_self_parent_is_root(dv: Seq<TaskV>, i: int)
    requires
        0 <= i < dv.len(),
        dv[i].parent_id == dv[i].id,
    ensures
        is_root(dv, i),
{
}

/// The input position a row's record stands at, found by its identifier
/// (unique identifiers make this the record's one position).
pub open spec fn row_input_pos(dv: Seq<TaskV>, row: TreeRow) -> int {
    match first_idx(dv, row.task@.id) {
        Some(i) => i,
        None => -1,
    }
}

/// No two records share an identifier.
pub open spec fn ids_unique(dv: Seq<TaskV>) -> bool {
    forall|i: int, j: int| 0 <= i < j < dv.len() ==> dv[i].id != dv[j].id
}

/// Where a record attaches: beneath the first record its parent pointer
/// names, or nowhere when the pointer is empty, names itself, or names
/// nothing in the set.
pub open spec fn attach_idx(dv: Seq<TaskV>, j: int) -> Option<int> {
    if dv[j].parent_id.len() == 0 || dv[j].parent_id == dv[j].id {
        None
    } else {
        first_idx(dv, dv[j].parent_id)
    }
}

/// Whether an index appears in some child list.
pub open spec fn in_children(cs: Seq<Seq<usize>>, j: int) -> bool {
    exists|p: int, q: int|
        0 <= p < cs.len() && 0 <= q < cs[p].len() && #[trigger] cs[p][q] == j
}

/// What the child index promises: every listed child is a real position
/// whose parent pointer is non-empty, names another record present in the
/// set, and is not the child's own identifier.
pub open spec fn children_wf(dv: Seq<TaskV>, cs: Seq<Seq<usize>>) -> bool {
    &&& cs.len() == dv.len()
    &&& forall|p: int, q: int|
        0 <= p < cs.len() && 0 <= q < cs[p].len() ==> {
            let j = #[trigger] cs[p][q] as int;
            &&& 0 <= j < dv.len()
            &&& dv[j].parent_id.len() > 0
            &&& dv[j].parent_id != dv[j].id
            &&& dv[j].parent_id == dv[p as int].id
        }
}

/// A listed child is never a root.
proof fn lemma_child_not_root(dv: Seq<TaskV>, cs: Seq<Seq<usize>>, j: int)
    requires
        children_wf(dv, cs),
        in_children(cs, j),
    ensures
        0 <= j < dv.len(),
        !is_root(dv, j),
{
    let (p, q): (int, int) = choose|p: int, q: int|
        0 <= p < cs.len() && 0 <= q < cs[p].len() && #[trigger] cs[p][q] == j;
    assert(dv[j].parent_id == dv[p].id);
    assert(id_present(dv, dv[j].parent_id));
}

/// The walk's bookkeeping, kept true through every emission:
/// rows never repeat an identifier; a visit mark stands exactly when a row
/// with that identifier's first position is out; every top-level row is a
/// root already passed by the top-level scan and every deeper row is
/// somebody's listed child; no row lies below the depth bound; and each
/// row carries one branch flag per ancestor level below the first.
pub open spec fn walk_inv(
    dv: Seq<TaskV>,
    cs: Seq<Seq<usize>>,
    visited: Seq<bool>,
    out: Seq<TreeRow>,
    rb: int,
) -> bool {
    &&& visited.len() == dv.len()
    &&& forall|k1: int, k2: int|
        0 <= k1 < k2 < out.len() ==> (#[trigger] out[k1].task@.id) != (#[trigger] out[k2].task@.id)
    &&& forall|c: int|
        0 <= c < dv.len() ==> (visited[c] <==> (exists|k: int|
            0 <= k < out.len() && (#[trigger] out[k].task@.id) == dv[c].id && first_idx(
                dv,
                dv[c].id,
            ) == Some(c)))
    &&& forall|k: int|
        0 <= k < out.len() ==> (exists|j: int|
            0 <= j < dv.len() && (#[trigger] out[k].task@) == dv[j] && (if out[k].depth == 0 {
                is_root(dv, j) && j < rb
            } else {
                in_children(cs, j)
            }))
    &&& forall|k: int|
        0 <= k < out.len() ==> (#[trigger] out[k].depth) <= MAX_DEPTH
            && out[k].ancestor_is_last@.len() == (if out[k].depth == 0 {
            0int
        } else {
            out[k].depth - 1
        })
}

/// A true invariant stays true when the top-level scan moves on.
proof fn lemma_walk_inv_widen(
    dv: Seq<TaskV>,
    cs: Seq<Seq<usize>>,
    visited: Seq<bool>,
    out: Seq<TreeRow>,
    rb1: int,
    rb2: int,
)
    requires
        walk_inv(dv, cs, visited, out, rb1),
        rb1 <= rb2,
    ensures
        walk_inv(dv, cs, visited, out, rb2),
{
    assert forall|k: int| 0 <= k < out.len() implies (exists|j: int|
        0 <= j < dv.len() && (#[trigger] out[k].task@) == dv[j] && (if out[k].depth == 0 {
            is_root(dv, j) && j < rb2
        } else {
            in_children(cs, j)
        })) by {
        let j = choose|j: int|
            0 <= j < dv.len() && (#[trigger] out[k].task@) == dv[j] && (if out[k].depth == 0 {
                is_root(dv, j) && j < rb1
            } else {
                in_children(cs, j)
            });
        assert(0 <= j < dv.len() && out[k].task@ == dv[j] && (if out[k].depth == 0 {
            is_root(dv, j) && j < rb2
        } else {
            in_children(cs, j)
        }));
    }
}

/// The first position carrying the same identifier as the record at `idx`.
fn first_with_id_of(tasks: &Vec<Task>, idx: usize) -> (r: usize)
    requires
        idx < tasks@.len(),
    ensures
        r <= idx,
        first_idx(tasks.deep_view(), tasks.deep_view()[idx as int].id) == Some(r as int),
{
    let ghost dv = tasks.deep_view();
    let mut i: usize = 0;
    while i < idx
        invariant
            i <= idx < tasks@.len(),
            dv == tasks.deep_view(),
            first_idx_from(dv, dv[idx as int].id, 0) == first_idx_from(dv, dv[idx as int].id, i as int),
        decreases idx - i,
    {
        proof {
            assert(dv[i as int] == tasks@[i as int]@);
            assert(dv[idx as int] == tasks@[idx as int]@);
        }
        if str_eq(tasks[i].id.as_str(), tasks[idx].id.as_str()) {
            return i;
        }
        i = i + 1;
    }
    proof {
        assert(dv[idx as int] == tasks@[idx as int]@);
    }
    r_done(tasks, idx)
}

fn r_done(tasks: &Vec<Task>, idx: usize) -> (r: usize)
    requires
        idx < tasks@.len(),
        first_idx_from(
            tasks.deep_view(),
            tasks.deep_view()[idx as int].id,
            0,
        ) == first_idx_from(tasks.deep_view(), tasks.deep_view()[idx as int].id, idx as int),
    ensures
        r == idx,
        first_idx(tasks.deep_view(), tasks.deep_view()[idx as int].id) == Some(idx as int),
{
    idx
}

fn copy_bools(v: &Vec<bool>) -> (r: Vec<bool>)
    ensures
        r@ == v@,
{
    let mut r: Vec<bool> = Vec::new();
    let mut i: usize = 0;
    while i < v.len()
        invariant
            i <= v@.len(),
            r@ == v@.take(i as int),
        decreases v@.len() - i,
    {
        r.push(v[i]);
        proof {
            assert(r@ =~= v@.take(i + 1));
        }
        i = i + 1;
    }
    proof {
        assert(r@ =~= v@);
    }
    r
}

/// Emits the record at `idx` and then its subtree, refusing identifiers
/// already emitted (the cycle guard) and never descending past the depth
/// bound (the second, independent guard).
#[allow(clippy::too_many_arguments)]
fn emit_subtree(
    tasks: &Vec<Task>,
    children: &Vec<Vec<usize>>,
    idx: usize,
    depth: u8,
    is_last: bool,
    anc: Vec<bool>,
    visited: &mut Vec<bool>,
    out: &mut Vec<TreeRow>,
    Ghost(rb): Ghost<int>,
)
    requires
        children_wf(tasks.deep_view(), children.deep_view()),
        idx < tasks@.len(),
        depth <= MAX_DEPTH + 1,
        walk_inv(tasks.deep_view(), children.deep_view(), old(visited)@, old(out)@, rb),
        ({
            if depth == 0 {
                is_root(tasks.deep_view(), idx as int) && idx < rb
            } else {
                in_children(children.deep_view(), idx as int)
            }
        }),
        anc@.len() == (if depth == 0 {
            0int
        } else {
            depth - 1
        }),
    ensures
        walk_inv(tasks.deep_view(), children.deep_view(), final(visited)@, final(out)@, rb),
        final(visited)@.len() == old(visited)@.len(),
        forall|c: int|
            0 <= c < old(visited)@.len() && old(visited)@[c] ==> final(visited)@[c],
        final(out)@.len() >= old(out)@.len(),
        final(out)@.take(old(out)@.len() as int) == old(out)@,
        forall|k: int|
            old(out)@.len() <= k < final(out)@.len() ==> (#[trigger] final(out)@[k].depth)
                >= depth,
        forall|k: int|
            old(out)@.len() < k < final(out)@.len() ==> (#[trigger] final(out)@[k].depth) > depth,
        ({
            let dv = tasks.deep_view();
            let c = first_idx(dv, dv[idx as int].id).unwrap();
            depth <= MAX_DEPTH && !old(visited)@[c] ==> final(out)@.len() > old(out)@.len()
                && final(out)@[old(out)@.len() as int].task@ == dv[idx as int]
                && final(out)@[old(out)@.len() as int].depth == depth
                && final(out)@[old(out)@.len() as int].is_last == is_last
                && final(out)@[old(out)@.len() as int].ancestor_is_last@ == anc@
        }),
    decreases (MAX_DEPTH + 1 - depth) as int, 0int,
{
    let ghost dv = tasks.deep_view();
    let ghost cs = children.deep_view();
    proof {
        assert(dv[idx as int] == tasks@[idx as int]@);
        lemma_first_idx(dv, dv[idx as int].id);
    }
    if depth > MAX_DEPTH {
        return ;
    }
    let canon = first_with_id_of(tasks, idx);
    if visited[canon] {
        return ;
    }
    let ghost old_out = out@;
    let row = TreeRow {
        task: clone_task(&tasks[idx]),
        depth,
        is_last,
        ancestor_is_last: copy_bools(&anc),
    };
    out.push(row);
    visited.set(canon, true);
    proof {
        assert(dv[canon as int].id == dv[idx as int].id);
        assert(out@[old_out.len() as int].task@ == dv[idx as int]);
        // No earlier row carries this identifier: such a row would have set
        // the visit mark at the identifier's first position already.
        assert forall|k: int| 0 <= k < old_out.len() implies (#[trigger] old_out[k].task@.id)
            != dv[idx as int].id by {
            if old_out[k].task@.id == dv[idx as int].id {
                assert(first_idx(dv, dv[canon as int].id) == Some(canon as int));
                assert(old(visited)@[canon as int]);
            }
        }
        assert forall|k1: int, k2: int| 0 <= k1 < k2 < out@.len() implies (#[trigger] out@[
        k1].task@.id) != (#[trigger] out@[k2].task@.id) by {
            if k2 == out@.len() - 1 {
                assert(old_out[k1].task@.id != dv[idx as int].id);
            }
        }
        // The visit marks still match the rows, one mark per identifier.
        assert forall|c: int| 0 <= c < dv.len() implies (visited@[c] <==> (exists|k: int|
            0 <= k < out@.len() && (#[trigger] out@[k].task@.id) == dv[c].id && first_idx(
                dv,
                dv[c].id,
            ) == Some(c))) by {
            if c == canon as int {
                assert(out@[old_out.len() as int].task@.id == dv[c].id);
            } else {
                if visited@[c] {
                    let k = choose|k: int|
                        0 <= k < old_out.len() && (#[trigger] old_out[k].task@.id) == dv[c].id
                            && first_idx(dv, dv[c].id) == Some(c);
                    assert(out@[k].task@.id == dv[c].id);
                }
                if exists|k: int|
                    0 <= k < out@.len() && (#[trigger] out@[k].task@.id) == dv[c].id && first_idx(
                        dv,
                        dv[c].id,
                    ) == Some(c) {
                    let k = choose|k: int|
                        0 <= k < out@.len() && (#[trigger] out@[k].task@.id) == dv[c].id
                            && first_idx(dv, dv[c].id) == Some(c);
                    if k == out@.len() - 1 {
                        assert(first_idx(dv, dv[idx as int].id) == Some(canon as int));
                        assert(false);
                    } else {
                        assert(old_out[k].task@.id == dv[c].id);
                    }
                }
            }
        }
        // Every row still traces back to an input record.
        assert forall|k: int| 0 <= k < out@.len() implies (exists|j: int|
            0 <= j < dv.len() && (#[trigger] out@[k].task@) == dv[j] && (if out@[k].depth == 0 {
                is_root(dv, j) && j < rb
            } else {
                in_children(cs, j)
            })) by {
            if k < old_out.len() {
                let j = choose|j: int|
                    0 <= j < dv.len() && (#[trigger] old_out[k].task@) == dv[j] && (if old_out[
                    k].depth == 0 {
                        is_root(dv, j) && j < rb
                    } else {
                        in_children(cs, j)
                    });
                assert(out@[k].task@ == dv[j] && (if out@[k].depth == 0 {
                    is_root(dv, j) && j < rb
                } else {
                    in_children(cs, j)
                }));
            } else {
                assert(out@[k].task@ == dv[idx as int] && (if out@[k].depth == 0 {
                    is_root(dv, idx as int) && idx < rb
                } else {
                    in_children(cs, idx as int)
                }));
            }
        }
    }
    // Walk the children of this record, each one level deeper.
    let kids_len = children[idx].len();
    let mut q: usize = 0;
    while q < kids_len
        invariant
            children_wf(dv, cs),
            dv == tasks.deep_view(),
            cs == children.deep_view(),
            idx < tasks@.len(),
            kids_len == cs[idx as int].len(),
            q <= kids_len,
            depth <= MAX_DEPTH,
            walk_inv(dv, cs, visited@, out@, rb),
            visited@.len() == dv.len(),
            visited@.len() == old(visited)@.len(),
            forall|c: int| 0 <= c < old(visited)@.len() && old(visited)@[c] ==> visited@[c],
            out@.len() > old_out.len(),
            out@.take(old_out.len() as int) == old_out,
            out@[old_out.len() as int].task@ == dv[idx as int],
            out@[old_out.len() as int].depth == depth,
            out@[old_out.len() as int].is_last == is_last,
            out@[old_out.len() as int].ancestor_is_last@ == anc@,
            anc@.len() == (if depth == 0 {
                0int
            } else {
                depth - 1
            }),
            forall|k: int|
                old_out.len() <= k < out@.len() ==> (#[trigger] out@[k].depth) >= depth,
            forall|k: int|
                old_out.len() < k < out@.len() ==> (#[trigger] out@[k].depth) > depth,
        decreases kids_len - q,
    {
        proof {
            assert(cs[idx as int][q as int] == children@[idx as int]@[q as int]);
        }
        let kid = children[idx][q];
        proof {
            assert(in_children(cs, kid as int));
        }
        let kid_is_last = q == kids_len - 1;
        let mut kid_anc = copy_bools(&anc);
        if depth >= 1 {
            kid_anc.push(is_last);
        }
        proof {
            assert(kid_anc@.len() == depth as int);
        }
        let ghost pre_out = out@;
        emit_subtree(
            tasks,
            children,
            kid,
            depth + 1,
            kid_is_last,
            kid_anc,
            visited,
            out,
            Ghost(rb),
        );
        proof {
            assert(out@.take(old_out.len() as int) =~= pre_out.take(old_out.len() as int));
            assert(out@[old_out.len() as int] == pre_out[old_out.len() as int]);
            assert forall|k: int|
                old_out.len() <= k < out@.len() implies (#[trigger] out@[k].depth) >= depth by {
                if k < pre_out.len() {
                    assert(out@.take(pre_out.len() as int)[k] == out@[k]);
                    assert(out@[k] == pre_out[k]);
                }
            }
            assert forall|k: int|
                old_out.len() < k < out@.len() implies (#[trigger] out@[k].depth) > depth by {
                if k < pre_out.len() {
                    assert(out@.take(pre_out.len() as int)[k] == out@[k]);
                    assert(out@[k] == pre_out[k]);
                }
            }
        }
        q = q + 1;
    }
}

fn attach_index(tasks: &Vec<Task>, j: usize) -> (r: Option<usize>)
    requires
        j < tasks@.len(),
    ensures
        ({
            let dv = tasks.deep_view();
            match r {
                Some(p) => p < dv.len() && attach_idx(dv, j as int) == Some(p as int) && dv[
                p as int].id == dv[j as int].parent_id && dv[j as int].parent_id.len() > 0 && dv[
                j as int].parent_id != dv[j as int].id && !is_root(dv, j as int),
                None => attach_idx(dv, j as int) is None && is_root(dv, j as int),
            }
        }),
{
    let ghost dv = tasks.deep_view();
    proof {
        assert(dv[j as int] == tasks@[j as int]@);
    }
    if tasks[j].parent_id.as_str().unicode_len() == 0 {
        return None;
    }
    if str_eq(tasks[j].parent_id.as_str(), tasks[j].id.as_str()) {
        return None;
    }
    let n = tasks.len();
    let mut p: usize = 0;
    while p < n
        invariant
            n == tasks@.len(),
            dv == tasks.deep_view(),
            dv.len() == n,
            j < n,
            p <= n,
            dv[j as int].parent_id.len() > 0,
            dv[j as int].parent_id != dv[j as int].id,
            first_idx_from(dv, dv[j as int].parent_id, 0) == first_idx_from(
                dv,
                dv[j as int].parent_id,
                p as int,
            ),
        decreases n - p,
    {
        proof {
            assert(dv[p as int] == tasks@[p as int]@);
        }
        if str_eq(tasks[p].id.as_str(), tasks[j].parent_id.as_str()) {
            return Some(p);
        }
        p = p + 1;
    }
    proof {
        lemma_first_idx(dv, dv[j as int].parent_id);
        assert(!id_present(dv, dv[j as int].parent_id));
    }
    None
}

/// The depth-first hierarchical layout of a record list.
///
/// Every row sits at depth at most `MAX_DEPTH` and carries one branch flag
/// per ancestor level below the first; no identifier is emitted twice;
/// every row is one of the input records and every top-level row is a
/// root. With unique identifiers, every top-level record — parent empty,
/// parent naming itself, or parent absent from the set — appears exactly
/// once, at depth zero, flagged as the last sibling exactly when no root
/// follows it, and top-level rows keep the roots' input order. The order
/// of children under one parent follows the child index built here and is
/// exercised by the tests, not stated here.
#[verifier::rlimit(80)]
pub fn tree_order(tasks: &Vec<Task>) -> (r: Vec<TreeRow>)
    ensures
        forall|k: int|
            0 <= k < r@.len() ==> (#[trigger] r@[k].depth) <= MAX_DEPTH
                && r@[k].ancestor_is_last@.len() == (if r@[k].depth == 0 {
                0int
            } else {
                r@[k].depth - 1
            }),
        forall|k1: int, k2: int|
            0 <= k1 < k2 < r@.len() ==> (#[trigger] r@[k1].task@.id) != (#[trigger] r@[
            k2].task@.id),
        forall|k: int|
            0 <= k < r@.len() ==> (exists|j: int|
                0 <= j < tasks.deep_view().len() && (#[trigger] r@[k].task@)
                    == tasks.deep_view()[j] && (r@[k].depth == 0 ==> is_root(
                    tasks.deep_view(),
                    j,
                ))),
        ids_unique(tasks.deep_view()) ==> (forall|i: int|
            0 <= i < tasks.deep_view().len() && is_root(tasks.deep_view(), i) ==> (exists|k: int|
                0 <= k < r@.len() && (#[trigger] r@[k].task@) == tasks.deep_view()[i] && r@[
                k].depth == 0 && r@[k].is_last == !(exists|j: int|
                    i < j < tasks.deep_view().len() && is_root(tasks.deep_view(), j)))),
        ids_unique(tasks.deep_view()) ==> (forall|k1: int, k2: int|
            0 <= k1 < k2 < r@.len() && (#[trigger] r@[k1].depth) == 0 && (#[trigger] r@[
            k2].depth) == 0 ==> row_input_pos(tasks.deep_view(), r@[k1]) < row_input_pos(
                tasks.deep_view(),
                r@[k2],
            )),
{
    let ghost dv = tasks.deep_view();
    let n = tasks.len();

    // Build the child lists: a record attaches beneath the first record
    // whose identifier its parent pointer names, unless the pointer is
    // empty, names itself, or names nothing in the set.
    let mut children: Vec<Vec<usize>> = Vec::new();
    let mut i: usize = 0;
    while i < n
        invariant
            n == tasks@.len(),
            dv == tasks.deep_view(),
            dv.len() == n,
            i <= n,
            children@.len() == i,
            children.deep_view().len() == i,
            forall|p: int, q: int|
                0 <= p < i && 0 <= q < children.deep_view()[p].len() ==> {
                    let jj = #[trigger] children.deep_view()[p][q] as int;
                    &&& 0 <= jj < dv.len()
                    &&& dv[jj].parent_id.len() > 0
                    &&& dv[jj].parent_id != dv[jj].id
                    &&& dv[jj].parent_id == dv[p as int].id
                },
        decreases n - i,
    {
        let mut kids: Vec<usize> = Vec::new();
        let mut j: usize = 0;
        while j < n
            invariant
                n == tasks@.len(),
                dv == tasks.deep_view(),
                dv.len() == n,
                i < n,
                j <= n,
                forall|q: int| 0 <= q < kids@.len() ==> {
                    let jj = #[trigger] kids@[q] as int;
                    &&& 0 <= jj < dv.len()
                    &&& dv[jj].parent_id.len() > 0
                    &&& dv[jj].parent_id != dv[jj].id
                    &&& dv[jj].parent_id == dv[i as int].id
                },
            decreases n - j,
        {
            match attach_index(tasks, j) {
                Some(p) => {
                    if p == i {
                        kids.push(j);
                    }
                },
                None => {},
            }
            j = j + 1;
        }
        let ghost cs_before = children.deep_view();
        children.push(kids);
        proof {
            let cs = children.deep_view();
            assert(cs.len() == cs_before.len() + 1);
            assert(forall|p: int| 0 <= p < i ==> #[trigger] cs[p] == cs_before[p]);
            assert forall|p: int, q: int|
                0 <= p < i + 1 && 0 <= q < cs[p].len() implies {
                let jj = #[trigger] cs[p][q] as int;
                &&& 0 <= jj < dv.len()
                &&& dv[jj].parent_id.len() > 0
                &&& dv[jj].parent_id != dv[jj].id
                &&& dv[jj].parent_id == dv[p as int].id
            } by {
                if p < i {
                    assert(cs[p] == cs_before[p]);
                } else {
                    assert(children@[i as int] == kids);
                    assert(cs[p] == kids.deep_view());
                    assert(cs[p][q] == kids@[q]);
                }
            }
        }
        i = i + 1;
    }
    let mut roots: Vec<usize> = Vec::new();
    let mut j: usize = 0;
    while j < n
        invariant
            n == tasks@.len(),
            dv == tasks.deep_view(),
            dv.len() == n,
            j <= n,
            forall|k: int| 0 <= k < roots@.len() ==> (#[trigger] roots@[k]) < n,
            forall|k: int|
                0 <= k < roots@.len() ==> is_root(dv, #[trigger] roots@[k] as int),
            forall|k: int, k2: int|
                0 <= k2 < k < roots@.len() ==> #[trigger] roots@[k2] < #[trigger] roots@[k],
            forall|p: int|
                0 <= p < j && is_root(dv, p) ==> (exists|k: int|
                    0 <= k < roots@.len() && #[trigger] roots@[k] == p),
            forall|k: int| 0 <= k < roots@.len() ==> (#[trigger] roots@[k]) < j,
        decreases n - j,
    {
        let ghost pre_roots = roots@;
        match attach_index(tasks, j) {
            Some(_) => {
                proof {
                    assert(!is_root(dv, j as int));
                }
            },
            None => {
                roots.push(j);
                proof {
                    assert(is_root(dv, j as int));
                }
            },
        }
        proof {
            assert forall|p: int| 0 <= p < j + 1 && is_root(dv, p) implies (exists|k: int|
                0 <= k < roots@.len() && #[trigger] roots@[k] == p) by {
                if p == j as int {
                    assert(roots@[roots@.len() - 1] == p);
                } else {
                    let k = choose|k: int| 0 <= k < pre_roots.len() && #[trigger] pre_roots[k] == p;
                    assert(roots@[k] == p);
                }
            }
        }
        j = j + 1;
    }

    // Walk each top-level record in turn.
    let mut visited: Vec<bool> = Vec::new();
    let mut v: usize = 0;
    while v < n
        invariant
            v <= n,
            visited@.len() == v,
            forall|c: int| 0 <= c < v ==> !(#[trigger] visited@[c]),
        decreases n - v,
    {
        visited.push(false);
        v = v + 1;
    }
    let mut out: Vec<TreeRow> = Vec::new();
    let root_count = roots.len();
    let mut k: usize = 0;
    while k < root_count
        invariant
            n == tasks@.len(),
            dv == tasks.deep_view(),
            dv.len() == n,
            children_wf(dv, children.deep_view()),
            root_count == roots@.len(),
            k <= root_count,
            forall|x: int| 0 <= x < roots@.len() ==> (#[trigger] roots@[x]) < n,
            forall|x: int| 0 <= x < roots@.len() ==> is_root(dv, #[trigger] roots@[x] as int),
            forall|x: int|
                0 <= x < roots@.len() ==> is_root(dv, roots@[x] as int) && (forall|x2: int|
                    0 <= x2 < x ==> #[trigger] roots@[x2] < #[trigger] roots@[x]),
            forall|p: int|
                0 <= p < dv.len() ==> is_root(dv, p) ==> (exists|x: int|
                    0 <= x < roots@.len() && #[trigger] roots@[x] == p),
            visited@.len() == n,
            walk_inv(dv, children.deep_view(), visited@, out@, if k == 0 {
                0int
            } else {
                roots@[k - 1] as int + 1
            }),
            ids_unique(dv) ==> (forall|x: int|
                0 <= x < k ==> (exists|kk: int|
                    0 <= kk < out@.len() && (#[trigger] out@[kk].task@) == dv[#[trigger] roots@[
                    x] as int] && out@[kk].depth == 0 && out@[kk].is_last == (x == root_count
                    - 1))),
            ids_unique(dv) ==> (forall|k1: int, k2: int|
                0 <= k1 < k2 < out@.len() && (#[trigger] out@[k1].depth) == 0 && (#[trigger] out@[
                k2].depth) == 0 ==> row_input_pos(dv, out@[k1]) < row_input_pos(dv, out@[k2])),
        decreases root_count - k,
    {
        let root = roots[k];
        let ghost rb0: int = if k == 0 {
            0int
        } else {
            roots@[k - 1] as int + 1
        };
        let ghost rb = root as int + 1;
        proof {
            lemma_first_idx(dv, dv[root as int].id);
            if ids_unique(dv) {
                assert(first_idx(dv, dv[root as int].id) == Some(root as int));
                // This root cannot have been emitted yet: an emitted row
                // with its identifier would be the record itself, reached
                // either as a child (it is a root, so it is in no child
                // list) or as an earlier root (its position lies beyond
                // every earlier root).
                if visited@[root as int] {
                    let kk = choose|kk: int|
                        0 <= kk < out@.len() && (#[trigger] out@[kk].task@.id) == dv[
                        root as int].id && first_idx(dv, dv[root as int].id) == Some(root as int);
                    let jj = choose|jj: int|
                        0 <= jj < dv.len() && (#[trigger] out@[kk].task@) == dv[jj] && (if out@[
                        kk].depth == 0 {
                            is_root(dv, jj) && jj < rb0
                        } else {
                            in_children(children.deep_view(), jj)
                        });
                    assert(dv[jj].id == dv[root as int].id);
                    assert(jj == root as int);
                    if out@[kk].depth == 0 {
                        assert(jj < rb0);
                        if k > 0 {
                            assert(roots@[k - 1] < roots@[k as int]);
                        }
                        assert(false);
                    } else {
                        lemma_child_not_root(dv, children.deep_view(), jj);
                        assert(false);
                    }
                }
            }
            lemma_walk_inv_widen(dv, children.deep_view(), visited@, out@, rb0, rb);
        }
        let ghost pre_visited = visited@;
        let ghost pre_out = out@;
        emit_subtree(
            tasks,
            &children,
            root,
            0,
            k == root_count - 1,
            Vec::new(),
            &mut visited,
            &mut out,
            Ghost(rb),
        );
        proof {
            if ids_unique(dv) {
                let ghost lnew = pre_out.len() as int;
                assert(!pre_visited[root as int]);
                assert(out@[lnew].task@ == dv[root as int]);
                assert(out@[lnew].depth == 0);
                assert(out@[lnew].is_last == (k == root_count - 1));
                // Roots already emitted stay emitted: rows are only appended.
                assert forall|x: int| 0 <= x < k + 1 implies (exists|kk: int|
                    0 <= kk < out@.len() && (#[trigger] out@[kk].task@) == dv[#[trigger] roots@[
                    x] as int] && out@[kk].depth == 0 && out@[kk].is_last == (x == root_count
                    - 1)) by {
                    if x < k {
                        let kk = choose|kk: int|
                            0 <= kk < pre_out.len() && (#[trigger] pre_out[kk].task@) == dv[
                            roots@[x] as int] && pre_out[kk].depth == 0 && pre_out[kk].is_last == (
                            x == root_count - 1);
                        assert(out@.take(pre_out.len() as int)[kk] == out@[kk]);
                        assert(out@[kk].task@ == dv[roots@[x] as int] && out@[kk].depth == 0
                            && out@[kk].is_last == (x == root_count - 1));
                    } else {
                        assert(out@[lnew].task@ == dv[roots@[x] as int] && out@[lnew].depth == 0
                            && out@[lnew].is_last == (x == root_count - 1));
                    }
                }
                // Top-level rows keep the top-level scan's order: every
                // earlier top-level row's record stands before this root.
                assert forall|k1: int, k2: int|
                    0 <= k1 < k2 < out@.len() && (#[trigger] out@[k1].depth) == 0 && (
                #[trigger] out@[k2].depth) == 0 implies row_input_pos(dv, out@[k1])
                    < row_input_pos(dv, out@[k2]) by {
                    if k2 < lnew {
                        assert(out@.take(pre_out.len() as int)[k1] == out@[k1]);
                        assert(out@.take(pre_out.len() as int)[k2] == out@[k2]);
                        assert(row_input_pos(dv, pre_out[k1]) < row_input_pos(dv, pre_out[k2]));
                    } else if k2 == lnew {
                        assert(out@.take(pre_out.len() as int)[k1] == out@[k1]);
                        let jj = choose|jj: int|
                            0 <= jj < dv.len() && (#[trigger] pre_out[k1].task@) == dv[jj] && (
                            if pre_out[k1].depth == 0 {
                                is_root(dv, jj) && jj < rb0
                            } else {
                                in_children(children.deep_view(), jj)
                            });
                        lemma_first_idx(dv, dv[jj].id);
                        assert(first_idx(dv, dv[jj].id) == Some(jj));
                        assert(row_input_pos(dv, out@[k1]) == jj);
                        if k > 0 {
                            assert(roots@[k - 1] < roots@[k as int]);
                        }
                        assert(jj < root as int);
                        assert(row_input_pos(dv, out@[k2]) == root as int);
                    } else {
                        assert(out@[k2].depth > 0);
                        assert(false);
                    }
                }
            }
        }
        k = k + 1;
    }
    proof {
        if ids_unique(dv) {
            assert forall|i2: int|
                0 <= i2 < dv.len() && is_root(dv, i2) implies (exists|kk: int|
                0 <= kk < out@.len() && (#[trigger] out@[kk].task@) == dv[i2] && out@[kk].depth
                    == 0 && out@[kk].is_last == !(exists|j: int|
                    i2 < j < dv.len() && is_root(dv, j))) by {
                let x = choose|x: int| 0 <= x < roots@.len() && #[trigger] roots@[x] == i2;
                let kk = choose|kk: int|
                    0 <= kk < out@.len() && (#[trigger] out@[kk].task@) == dv[roots@[x] as int]
                        && out@[kk].depth == 0 && out@[kk].is_last == (x == root_count - 1);
                // The last scan position holds the last root, and only it.
                if x == root_count - 1 {
                    if exists|j: int| i2 < j < dv.len() && is_root(dv, j) {
                        let j = choose|j: int| i2 < j < dv.len() && is_root(dv, j);
                        let x2 = choose|x2: int|
                            0 <= x2 < roots@.len() && #[trigger] roots@[x2] == j;
                        assert(roots@[x2] > roots@[x]);
                        if x2 <= x {
                            if x2 < x {
                                assert(roots@[x2] < roots@[x]);
                            }
                            assert(false);
                        }
                        assert(false);
                    }
                } else {
                    assert(roots@[x] < roots@[x + 1]);
                    assert(is_root(dv, roots@[x + 1] as int));
                    assert(exists|j: int| i2 < j < dv.len() && is_root(dv, j));
                }
                assert(out@[kk].task@ == dv[i2] && out@[kk].depth == 0 && out@[kk].is_last == !(
                exists|j: int| i2 < j < dv.len() && is_root(dv, j)));
            }
        }
    }
    out
}

/// The indentation run of the ancestor levels: a blank where the ancestor
/// was a last sibling, a vertical bar where a branch continues past it.
pub open spec fn spec_indent(anc: Seq<bool>) -> Seq<char>
    decreases anc.len(),
{
    if anc.len() == 0 {
        Seq::empty()
    } else {
        spec_indent(anc.drop_last()) + (if anc.last() {
            "    "@
        } else {
            "\u{2502}   "@
        })
    }
}

/// The indentation and branch-drawing prefix of one tree row: nothing at
/// the top level; otherwise the ancestors' indentation, then the last-branch
/// connector when the row is the last sibling, the continuing connector
/// otherwise.
pub open spec fn spec_tree_prefix(depth: u8, is_last: bool, anc: Seq<bool>) -> Seq<char> {
    if depth == 0 {
        Seq::empty()
    } else {
        spec_indent(anc) + (if is_last {
            "\u{2514}\u{2500}\u{2500} "@
        } else {
            "\u{251c}\u{2500}\u{2500} "@
        })
    }
}

/// The indentation and branch-drawing prefix of one tree row.
pub fn tree_prefix(row: &TreeRow) -> (r: String)
    ensures
        r@ == spec_tree_prefix(row.depth, row.is_last, row.ancestor_is_last@),
{
    if row.depth == 0 {
        return String::new();
    }
    let mut prefix = String::new();
    let ghost anc = row.ancestor_is_last@;
    let mut i: usize = 0;
    proof {
        assert(anc.take(0) =~= Seq::<bool>::empty());
        assert(prefix@ =~= spec_indent(anc.take(0)));
    }
    while i < row.ancestor_is_last.len()
        invariant
            i <= row.ancestor_is_last@.len(),
            anc == row.ancestor_is_last@,
            prefix@ == spec_indent(anc.take(i as int)),
        decreases row.ancestor_is_last@.len() - i,
    {
        proof {
            assert(anc.take(i + 1).drop_last() =~= anc.take(i as int));
            assert(anc.take(i + 1).last() == anc[i as int]);
        }
        if row.ancestor_is_last[i] {
            prefix.append("    ");
        } else {
            prefix.append("\u{2502}   ");
        }
        i = i + 1;
    }
    proof {
        assert(anc.take(anc.len() as int) =~= anc);
    }
    if row.is_last {
        prefix.append("\u{2514}\u{2500}\u{2500} ");
    } else {
        prefix.append("\u{251c}\u{2500}\u{2500} ");
    }
    prefix
}

} // verus!
