//! The process tree view: rows in depth-first order under their parents.

use vstd::prelude::*;
use vstd::set_lib::{lemma_len_subset, lemma_subset_equality};

verus! {

/// A row of the process table as the tree needs it.
#[derive(Debug, Clone, Copy, PartialEq, Eq, Structural)]
pub struct TreeRow {
    pub pid: i32,
    pub parent_pid: i32,
}

pub open spec fn visible(rows: Seq<TreeRow>, pid: i32) -> bool {
    exists|i: int| 0 <= i < rows.len() && rows[i].pid == pid
}

/// A row starts a tree when its parent is itself or is not listed (filtered out, not
/// readable).
pub open spec fn is_root(rows: Seq<TreeRow>, i: int) -> bool {
    rows[i].parent_pid == rows[i].pid || !visible(rows, rows[i].parent_pid)
}

/// Rows among the first `n` that start a tree, in table order.
pub open spec fn roots(rows: Seq<TreeRow>, n: nat) -> Seq<nat>
    decreases n,
{
    if n == 0 {
        seq![]
    } else if is_root(rows, n - 1) {
        roots(rows, (n - 1) as nat).push((n - 1) as nat)
    } else {
        roots(rows, (n - 1) as nat)
    }
}

/// Rows among the first `n` whose parent is `pid`, in table order.
pub open spec fn kids(rows: Seq<TreeRow>, pid: i32, n: nat) -> Seq<nat>
    decreases n,
{
    if n == 0 {
        seq![]
    } else if !is_root(rows, n - 1) && rows[n - 1].parent_pid == pid {
        kids(rows, pid, (n - 1) as nat).push((n - 1) as nat)
    } else {
        kids(rows, pid, (n - 1) as nat)
    }
}

/// `stack` with `items` pushed in reverse at `depth`, so that they pop in order.
pub open spec fn push_rev(stack: Seq<(nat, nat)>, items: Seq<nat>, depth: nat) -> Seq<(nat, nat)> {
    stack + Seq::new(items.len(), |j: int| (depth, items[items.len() - 1 - j]))
}

/// Depth-first walk: pop a row; skip it when its pid was already shown (a duplicate pid
/// or a loop of parents); else show it and push its children. `budget` bounds the rows
/// still to show.
pub open spec fn walk(rows: Seq<TreeRow>, stack: Seq<(nat, nat)>, shown: Seq<i32>, budget: nat) -> Seq<(nat, nat)>
    decreases budget, stack.len(),
{
    if stack.len() == 0 || budget == 0 {
        seq![]
    } else {
        let top = stack.last();
        let rest = stack.drop_last();
        let pid = rows[top.1 as int].pid;
        if shown.contains(pid) {
            walk(rows, rest, shown, budget)
        } else {
            seq![top] + walk(rows, push_rev(rest, kids(rows, pid, rows.len()), top.0 + 1), shown.push(pid), (budget - 1) as nat)
        }
    }
}

/// The tree view of the table: each tree after the one before, in table order of its
/// root; under each row its children in table order, one level deeper. Each pid is shown
/// once; rows caught in a loop of parents have no root and are not shown.
pub open spec fn tree_order_spec(rows: Seq<TreeRow>) -> Seq<(nat, nat)> {
    walk(rows, push_rev(seq![], roots(rows, rows.len()), 0), seq![], rows.len())
}

pub open spec fn pids(rows: Seq<TreeRow>) -> Seq<i32> {
    rows.map_values(|r: TreeRow| r.pid)
}

/// Shown pids are distinct pids of the table; when as many are shown as there are rows,
/// every pid of the table is shown.
proof fn lemma_all_shown(rows: Seq<TreeRow>, shown: Seq<i32>, pid: i32)
    requires
        shown.no_duplicates(),
        forall|k: int| 0 <= k < shown.len() ==> visible(rows, #[trigger] shown[k]),
        shown.len() >= rows.len(),
        visible(rows, pid),
    ensures
        shown.contains(pid),
{
    let p = pids(rows);
    let a = shown.to_set();
    let b = p.to_set();
    shown.unique_seq_to_set();
    p.lemma_cardinality_of_set();
    assert forall|x: i32| a.contains(x) implies b.contains(x) by {
        let k = choose|k: int| 0 <= k < shown.len() && shown[k] == x;
        let i = choose|i: int| 0 <= i < rows.len() && rows[i].pid == shown[k];
        assert(p[i] == x);
    }
    lemma_len_subset(a, b);
    lemma_subset_equality(a, b);
    let i = choose|i: int| 0 <= i < rows.len() && rows[i].pid == pid;
    assert(p[i] == pid);
    assert(b.contains(pid));
}

pub open spec fn index_view(v: Seq<usize>) -> Seq<nat> {
    v.map_values(|i: usize| i as nat)
}

pub open spec fn pairs_view(v: Seq<(usize, usize)>) -> Seq<(nat, nat)> {
    v.map_values(|p: (usize, usize)| (p.0 as nat, p.1 as nat))
}

fn is_visible(rows: &[TreeRow], pid: i32) -> (b: bool)
    ensures
        b == visible(rows@, pid),
{
    let mut i: usize = 0;
    while i < rows.len()
        invariant
            i <= rows@.len(),
            forall|j: int| 0 <= j < i ==> rows@[j].pid != pid,
        decreases rows@.len() - i,
    {
        if rows[i].pid == pid {
            return true;
        }
        i = i + 1;
    }
    false
}

fn is_root_at(rows: &[TreeRow], i: usize) -> (b: bool)
    requires
        i < rows@.len(),
    ensures
        b == is_root(rows@, i as int),
{
    rows[i].parent_pid == rows[i].pid || !is_visible(rows, rows[i].parent_pid)
}

fn roots_of(rows: &[TreeRow]) -> (r: Vec<usize>)
    ensures
        index_view(r@) == roots(rows@, rows@.len()),
        forall|k: int| 0 <= k < r@.len() ==> r@[k] < rows@.len(),
{
    let mut r: Vec<usize> = Vec::new();
    let mut i: usize = 0;
    while i < rows.len()
        invariant
            i <= rows@.len(),
            index_view(r@) == roots(rows@, i as nat),
            forall|k: int| 0 <= k < r@.len() ==> r@[k] < i,
        decreases rows@.len() - i,
    {
        let ghost before = r@;
        if is_root_at(rows, i) {
            r.push(i);
            assert(index_view(r@) =~= index_view(before).push(i as nat));
        }
        i = i + 1;
    }
    r
}

fn kids_of(rows: &[TreeRow], pid: i32) -> (r: Vec<usize>)
    ensures
        index_view(r@) == kids(rows@, pid, rows@.len()),
        forall|k: int| 0 <= k < r@.len() ==> r@[k] < rows@.len(),
{
    let mut r: Vec<usize> = Vec::new();
    let mut i: usize = 0;
    while i < rows.len()
        invariant
            i <= rows@.len(),
            index_view(r@) == kids(rows@, pid, i as nat),
            forall|k: int| 0 <= k < r@.len() ==> r@[k] < i,
        decreases rows@.len() - i,
    {
        let ghost before = r@;
        if !is_root_at(rows, i) && rows[i].parent_pid == pid {
            r.push(i);
            assert(index_view(r@) =~= index_view(before).push(i as nat));
        }
        i = i + 1;
    }
    r
}

fn push_reversed(stack: &mut Vec<(usize, usize)>, items: &Vec<usize>, depth: usize)
    ensures
        pairs_view(final(stack)@) == push_rev(pairs_view(old(stack)@), index_view(items@), depth as nat),
        final(stack)@.len() == old(stack)@.len() + items@.len(),
        forall|k: int| 0 <= k < old(stack)@.len() ==> #[trigger] final(stack)@[k] == old(stack)@[k],
        forall|k: int| old(stack)@.len() <= k < final(stack)@.len() ==> #[trigger] final(stack)@[k] == (
            depth,
            items@[items@.len() - 1 - (k - old(stack)@.len())],
        ),
{
    let n = items.len();
    let mut j: usize = 0;
    while j < n
        invariant
            j <= n,
            n == items@.len(),
            stack@.len() == old(stack)@.len() + j,
            pairs_view(stack@) == pairs_view(old(stack)@) + Seq::new(
                j as nat,
                |m: int| (depth as nat, index_view(items@)[n - 1 - m]),
            ),
            forall|k: int| 0 <= k < old(stack)@.len() ==> #[trigger] stack@[k] == old(stack)@[k],
            forall|k: int| old(stack)@.len() <= k < stack@.len() ==> #[trigger] stack@[k] == (
                depth,
                items@[n - 1 - (k - old(stack)@.len())],
            ),
        decreases n - j,
    {
        let ghost before = stack@;
        let item = items[n - 1 - j];
        assert(items@[n - 1 - j] == item);
        stack.push((depth, item));
        proof {
            let prefix = Seq::new(j as nat, |m: int| (depth as nat, index_view(items@)[n - 1 - m]));
            let longer = Seq::new((j + 1) as nat, |m: int| (depth as nat, index_view(items@)[n - 1 - m]));
            assert(longer =~= prefix.push((depth as nat, item as nat)));
            assert(pairs_view(stack@) =~= pairs_view(before).push((depth as nat, item as nat)));
            assert(pairs_view(stack@) =~= pairs_view(old(stack)@) + longer);
        }
        j = j + 1;
    }
    assert(Seq::new(n as nat, |m: int| (depth as nat, index_view(items@)[n - 1 - m])) =~= Seq::new(
        index_view(items@).len(),
        |m: int| (depth as nat, index_view(items@)[index_view(items@).len() - 1 - m]),
    ));
}

fn contains_pid(shown: &Vec<i32>, pid: i32) -> (b: bool)
    ensures
        b == shown@.contains(pid),
{
    let mut i: usize = 0;
    while i < shown.len()
        invariant
            i <= shown@.len(),
            forall|j: int| 0 <= j < i ==> shown@[j] != pid,
        decreases shown@.len() - i,
    {
        if shown[i] == pid {
            return true;
        }
        i = i + 1;
    }
    false
}

/// Rows in tree order, each with its depth, as indices into `rows`.
#[verifier::spinoff_prover]
pub fn tree_order(rows: &[TreeRow]) -> (r: Vec<(usize, usize)>)
    ensures
        pairs_view(r@) == tree_order_spec(rows@),
        forall|k: int| 0 <= k < r@.len() ==> #[trigger] r@[k].1 < rows@.len(),
{
    let n = rows.len();
    let starts = roots_of(rows);
    let mut stack: Vec<(usize, usize)> = Vec::new();
    assert(pairs_view(stack@) =~= Seq::<(nat, nat)>::empty());
    push_reversed(&mut stack, &starts, 0);
    let ghost total = tree_order_spec(rows@);
    assert forall|k: int| 0 <= k < stack@.len() implies #[trigger] stack@[k].1 < n && stack@[k].0 <= 0 by {
        assert(stack@[k] == (0usize, starts@[starts@.len() - 1 - k]));
    }
    let mut shown: Vec<i32> = Vec::new();
    let mut out: Vec<(usize, usize)> = Vec::new();
    assert(pairs_view(out@) + walk(rows@, pairs_view(stack@), shown@, n as nat) =~= total);
    while stack.len() > 0
        invariant
            n == rows@.len(),
            shown@.len() <= n,
            shown@.no_duplicates(),
            forall|k: int| 0 <= k < shown@.len() ==> visible(rows@, #[trigger] shown@[k]),
            forall|k: int| 0 <= k < stack@.len() ==> #[trigger] stack@[k].1 < n && stack@[k].0 <= shown@.len(),
            forall|k: int| 0 <= k < out@.len() ==> #[trigger] out@[k].1 < n,
            total == tree_order_spec(rows@),
            total == pairs_view(out@) + walk(rows@, pairs_view(stack@), shown@, (n - shown@.len()) as nat),
        decreases n - shown@.len(), stack@.len(),
    {
        let ghost before_stack = pairs_view(stack@);
        let ghost raw_stack = stack@;
        let top = stack.pop().unwrap();
        let (depth, i) = top;
        assert(raw_stack[raw_stack.len() - 1] == top);
        assert(i < n && depth <= shown@.len());
        proof {
            assert(pairs_view(stack@) =~= before_stack.drop_last());
            assert(before_stack.last() == (depth as nat, i as nat));
        }
        let pid = rows[i].pid;
        let budget = n - shown.len();
        if contains_pid(&shown, pid) {
            proof {
                if budget == 0 {
                    assert(walk(rows@, pairs_view(stack@), shown@, 0) == Seq::<(nat, nat)>::empty());
                }
            }
        } else {
            proof {
                assert(visible(rows@, pid));
                if budget == 0 {
                    lemma_all_shown(rows@, shown@, pid);
                }
            }
            let ghost before_out = pairs_view(out@);
            out.push((depth, i));
            assert(pairs_view(out@) =~= before_out.push((depth as nat, i as nat)));
            let children = kids_of(rows, pid);
            let ghost before_shown = shown@;
            shown.push(pid);
            proof {
                assert forall|a: int, b: int| 0 <= a < shown@.len() && 0 <= b < shown@.len() && a != b implies shown@[a]
                    != shown@[b] by {
                    if a < before_shown.len() && b < before_shown.len() {
                        assert(shown@[a] == before_shown[a] && shown@[b] == before_shown[b]);
                    } else if a < before_shown.len() {
                        assert(shown@[a] == before_shown[a]);
                    } else if b < before_shown.len() {
                        assert(shown@[b] == before_shown[b]);
                    }
                }
                assert forall|k: int| 0 <= k < shown@.len() implies visible(rows@, #[trigger] shown@[k]) by {
                    if k < before_shown.len() {
                        assert(shown@[k] == before_shown[k]);
                    }
                }
            }
            let ghost rest_stack = stack@;
            push_reversed(&mut stack, &children, depth + 1);
            proof {
                assert forall|k: int| 0 <= k < stack@.len() implies #[trigger] stack@[k].1 < n && stack@[k].0
                    <= shown@.len() by {
                    if k >= rest_stack.len() {
                        assert(stack@[k] == (
                            (depth + 1) as usize,
                            children@[children@.len() - 1 - (k - rest_stack.len())],
                        ));
                    } else {
                        assert(stack@[k] == rest_stack[k]);
                    }
                }
                assert(before_out.push((depth as nat, i as nat)) + walk(
                    rows@,
                    pairs_view(stack@),
                    shown@,
                    (n - shown@.len()) as nat,
                ) =~= before_out + walk(rows@, before_stack, before_shown, budget as nat));
            }
        }
    }
    assert(walk(rows@, pairs_view(stack@), shown@, (n - shown@.len()) as nat) == Seq::<(nat, nat)>::empty());
    assert(pairs_view(out@) + Seq::<(nat, nat)>::empty() =~= pairs_view(out@));
    out
}

proof fn lemma_walk_distinct(rows: Seq<TreeRow>, stack: Seq<(nat, nat)>, shown: Seq<i32>, budget: nat)
    ensures
        ({
            let out = walk(rows, stack, shown, budget);
            &&& forall|a: int, b: int| 0 <= a < b < out.len() ==> rows[#[trigger] out[a].1 as int].pid
                != rows[#[trigger] out[b].1 as int].pid
            &&& forall|a: int| 0 <= a < out.len() ==> !shown.contains(rows[#[trigger] out[a].1 as int].pid)
        }),
    decreases budget, stack.len(),
{
    if stack.len() > 0 && budget > 0 {
        let top = stack.last();
        let rest = stack.drop_last();
        let pid = rows[top.1 as int].pid;
        if shown.contains(pid) {
            lemma_walk_distinct(rows, rest, shown, budget);
            assert(walk(rows, stack, shown, budget) == walk(rows, rest, shown, budget));
        } else {
            let next = push_rev(rest, kids(rows, pid, rows.len()), top.0 + 1);
            let sub = walk(rows, next, shown.push(pid), (budget - 1) as nat);
            lemma_walk_distinct(rows, next, shown.push(pid), (budget - 1) as nat);
            let out = walk(rows, stack, shown, budget);
            assert(out == seq![top] + sub);
            assert(out[0] == top);
            assert forall|a: int| 0 <= a < sub.len() implies !shown.push(pid).contains(rows[#[trigger] sub[a].1 as int].pid)
                && rows[sub[a].1 as int].pid != pid && !shown.contains(rows[sub[a].1 as int].pid) by {
                if rows[sub[a].1 as int].pid == pid {
                    assert(shown.push(pid)[shown.len() as int] == pid);
                }
                if shown.contains(rows[sub[a].1 as int].pid) {
                    let k = choose|k: int| 0 <= k < shown.len() && shown[k] == rows[sub[a].1 as int].pid;
                    assert(shown.push(pid)[k] == shown[k]);
                }
            }
            assert forall|a: int, b: int| 0 <= a < b < out.len() implies rows[#[trigger] out[a].1 as int].pid
                != rows[#[trigger] out[b].1 as int].pid by {
                if a == 0 {
                    assert(out[b] == sub[b - 1]);
                } else {
                    assert(out[a] == sub[a - 1] && out[b] == sub[b - 1]);
                }
            }
            assert forall|a: int| 0 <= a < out.len() implies !shown.contains(rows[#[trigger] out[a].1 as int].pid) by {
                if a > 0 {
                    assert(out[a] == sub[a - 1]);
                }
            }
        }
    }
}

/// The tree view shows each pid at most once, even when pids repeat or parents form a
/// loop.
pub proof fn lemma_tree_shows_each_pid_once(rows: Seq<TreeRow>)
    ensures
        forall|a: int, b: int| 0 <= a < b < tree_order_spec(rows).len() ==> rows[#[trigger] tree_order_spec(rows)[a].1 as int].pid
            != rows[#[trigger] tree_order_spec(rows)[b].1 as int].pid,
{
    lemma_walk_distinct(rows, push_rev(seq![], roots(rows, rows.len()), 0), seq![], rows.len());
}

proof fn lemma_roots_are_roots(rows: Seq<TreeRow>, n: nat)
    ensures
        forall|k: int| 0 <= k < roots(rows, n).len() ==> is_root(rows, #[trigger] roots(rows, n)[k] as int),
    decreases n,
{
    if n > 0 {
        lemma_roots_are_roots(rows, (n - 1) as nat);
        let r = roots(rows, (n - 1) as nat);
        assert forall|k: int| 0 <= k < roots(rows, n).len() implies is_root(rows, #[trigger] roots(rows, n)[k] as int) by {
            if k < r.len() {
                assert(roots(rows, n)[k] == r[k]);
            }
        }
    }
}

proof fn lemma_kids_are_not_roots(rows: Seq<TreeRow>, pid: i32, n: nat)
    ensures
        forall|k: int| 0 <= k < kids(rows, pid, n).len() ==> !is_root(rows, #[trigger] kids(rows, pid, n)[k] as int),
    decreases n,
{
    if n > 0 {
        lemma_kids_are_not_roots(rows, pid, (n - 1) as nat);
        let r = kids(rows, pid, (n - 1) as nat);
        assert forall|k: int| 0 <= k < kids(rows, pid, n).len() implies !is_root(rows, #[trigger] kids(rows, pid, n)[k] as int) by {
            if k < r.len() {
                assert(kids(rows, pid, n)[k] == r[k]);
            }
        }
    }
}

/// Stack entries at depth 0 are roots, deeper ones are not.
pub open spec fn depth_matches_rootness(rows: Seq<TreeRow>, entries: Seq<(nat, nat)>) -> bool {
    forall|k: int| 0 <= k < entries.len() ==> ((#[trigger] entries[k]).0 == 0 <==> is_root(rows, entries[k].1 as int))
}

proof fn lemma_walk_depths(rows: Seq<TreeRow>, stack: Seq<(nat, nat)>, shown: Seq<i32>, budget: nat)
    requires
        depth_matches_rootness(rows, stack),
    ensures
        depth_matches_rootness(rows, walk(rows, stack, shown, budget)),
    decreases budget, stack.len(),
{
    if stack.len() > 0 && budget > 0 {
        let top = stack.last();
        let rest = stack.drop_last();
        let pid = rows[top.1 as int].pid;
        assert(depth_matches_rootness(rows, rest)) by {
            assert forall|k: int| 0 <= k < rest.len() implies ((#[trigger] rest[k]).0 == 0 <==> is_root(rows, rest[k].1 as int)) by {
                assert(rest[k] == stack[k]);
            }
        }
        if shown.contains(pid) {
            lemma_walk_depths(rows, rest, shown, budget);
            assert(walk(rows, stack, shown, budget) == walk(rows, rest, shown, budget));
        } else {
            let ks = kids(rows, pid, rows.len());
            let next = push_rev(rest, ks, top.0 + 1);
            lemma_kids_are_not_roots(rows, pid, rows.len());
            assert forall|k: int| 0 <= k < next.len() implies ((#[trigger] next[k]).0 == 0 <==> is_root(rows, next[k].1 as int)) by {
                if k >= rest.len() {
                    assert(next[k] == (top.0 + 1, ks[ks.len() - 1 - (k - rest.len())]));
                } else {
                    assert(next[k] == rest[k]);
                }
            }
            lemma_walk_depths(rows, next, shown.push(pid), (budget - 1) as nat);
            let sub = walk(rows, next, shown.push(pid), (budget - 1) as nat);
            let out = walk(rows, stack, shown, budget);
            assert(stack[stack.len() - 1] == top);
            assert forall|k: int| 0 <= k < out.len() implies ((#[trigger] out[k]).0 == 0 <==> is_root(rows, out[k].1 as int)) by {
                if k > 0 {
                    assert(out[k] == sub[k - 1]);
                }
            }
        }
    }
}

/// In the tree view a row sits at depth 0 exactly when its parent is itself or is not
/// listed; every other row is shown below a parent.
pub proof fn lemma_tree_depth_zero_is_root(rows: Seq<TreeRow>)
    ensures
        depth_matches_rootness(rows, tree_order_spec(rows)),
{
    let start = push_rev(seq![], roots(rows, rows.len()), 0);
    lemma_roots_are_roots(rows, rows.len());
    let rs = roots(rows, rows.len());
    assert forall|k: int| 0 <= k < start.len() implies ((#[trigger] start[k]).0 == 0 <==> is_root(rows, start[k].1 as int)) by {
        assert(start[k] == (0nat, rs[rs.len() - 1 - k]));
    }
    lemma_walk_depths(rows, start, seq![], rows.len());
}

proof fn lemma_kids_have_parent(rows: Seq<TreeRow>, pid: i32, n: nat)
    requires
        n <= rows.len(),
    ensures
        forall|k: int| 0 <= k < kids(rows, pid, n).len() ==> (#[trigger] kids(rows, pid, n)[k]) < rows.len()
            && rows[kids(rows, pid, n)[k] as int].parent_pid == pid,
    decreases n,
{
    if n > 0 {
        lemma_kids_have_parent(rows, pid, (n - 1) as nat);
        let r = kids(rows, pid, (n - 1) as nat);
        assert forall|k: int| 0 <= k < kids(rows, pid, n).len() implies (#[trigger] kids(rows, pid, n)[k]) < rows.len()
            && rows[kids(rows, pid, n)[k] as int].parent_pid == pid by {
            if k < r.len() {
                assert(kids(rows, pid, n)[k] == r[k]);
            }
        }
    }
}

/// Entry `e` hangs under entry `j` of `shown`: `j` is one level up, is its parent, and
/// everything shown after `j` is at `e`'s level or deeper.
pub open spec fn hangs_under(rows: Seq<TreeRow>, shown: Seq<(nat, nat)>, e: (nat, nat), j: int) -> bool {
    &&& 0 <= j < shown.len()
    &&& shown[j].0 + 1 == e.0
    &&& rows[shown[j].1 as int].pid == rows[e.1 as int].parent_pid
    &&& forall|m: int| j < m < shown.len() ==> (#[trigger] shown[m]).0 >= e.0
}

/// Every indented entry sits inside its parent's block: the parent comes earlier, one
/// level up, and only deeper entries stand between them.
pub open spec fn nested_under_parents(rows: Seq<TreeRow>, entries: Seq<(nat, nat)>) -> bool {
    forall|k: int|
        0 <= k < entries.len() && (#[trigger] entries[k]).0 > 0 ==> exists|j: int| hangs_under(rows, entries.take(k), entries[k], j)
}

spec fn stack_ready(rows: Seq<TreeRow>, shown: Seq<(nat, nat)>, stack: Seq<(nat, nat)>) -> bool {
    &&& forall|a: int, b: int| 0 <= a < b < stack.len() ==> (#[trigger] stack[a]).0 <= (#[trigger] stack[b]).0
    &&& forall|i: int| 0 <= i < stack.len() && (#[trigger] stack[i]).0 > 0 ==> exists|j: int| hangs_under(rows, shown, stack[i], j)
    &&& forall|i: int| 0 <= i < stack.len() ==> (#[trigger] stack[i]).1 < rows.len()
}

proof fn lemma_walk_nested(rows: Seq<TreeRow>, stack: Seq<(nat, nat)>, shown: Seq<i32>, budget: nat, before: Seq<(nat, nat)>)
    requires
        nested_under_parents(rows, before),
        stack_ready(rows, before, stack),
    ensures
        nested_under_parents(rows, before + walk(rows, stack, shown, budget)),
    decreases budget, stack.len(),
{
    if stack.len() == 0 || budget == 0 {
        assert(before + walk(rows, stack, shown, budget) =~= before);
    } else {
        let top = stack.last();
        let rest = stack.drop_last();
        let pid = rows[top.1 as int].pid;
        assert(stack[stack.len() - 1] == top);
        assert forall|i: int| 0 <= i < rest.len() implies #[trigger] rest[i] == stack[i] && rest[i].0 <= top.0 by {
            assert(rest[i] == stack[i]);
        }
        if shown.contains(pid) {
            assert(stack_ready(rows, before, rest)) by {
                assert forall|i: int| 0 <= i < rest.len() && (#[trigger] rest[i]).0 > 0 implies exists|j: int|
                    hangs_under(rows, before, rest[i], j) by {
                    assert(rest[i] == stack[i]);
                }
            }
            lemma_walk_nested(rows, rest, shown, budget, before);
        } else {
            let after = before.push(top);
            let ks = kids(rows, pid, rows.len());
            let next = push_rev(rest, ks, top.0 + 1);
            lemma_kids_have_parent(rows, pid, rows.len());
            assert(nested_under_parents(rows, after)) by {
                assert forall|k: int| 0 <= k < after.len() && (#[trigger] after[k]).0 > 0 implies exists|j: int|
                    hangs_under(rows, after.take(k), after[k], j) by {
                    if k < before.len() {
                        assert(after.take(k) =~= before.take(k));
                        assert(after[k] == before[k]);
                    } else {
                        assert(after.take(k) =~= before);
                        assert(after[k] == stack[stack.len() - 1]);
                    }
                }
            }
            assert(stack_ready(rows, after, next)) by {
                assert forall|a: int, b: int| 0 <= a < b < next.len() implies (#[trigger] next[a]).0 <= (
                #[trigger] next[b]).0 by {
                    if b < rest.len() {
                        assert(next[a] == stack[a] && next[b] == stack[b]);
                    } else if a < rest.len() {
                        assert(next[a] == stack[a]);
                        assert(next[b] == (top.0 + 1, ks[ks.len() - 1 - (b - rest.len())]));
                    } else {
                        assert(next[a] == (top.0 + 1, ks[ks.len() - 1 - (a - rest.len())]));
                        assert(next[b] == (top.0 + 1, ks[ks.len() - 1 - (b - rest.len())]));
                    }
                }
                assert forall|i: int| 0 <= i < next.len() && (#[trigger] next[i]).0 > 0 implies exists|j: int|
                    hangs_under(rows, after, next[i], j) by {
                    if i < rest.len() {
                        assert(next[i] == stack[i]);
                        let j = choose|j: int| hangs_under(rows, before, stack[i], j);
                        assert(after[j] == before[j]);
                        assert forall|m: int| j < m < after.len() implies (#[trigger] after[m]).0 >= next[i].0 by {
                            if m < before.len() {
                                assert(after[m] == before[m]);
                            }
                        }
                        assert(hangs_under(rows, after, next[i], j));
                    } else {
                        let kid = ks[ks.len() - 1 - (i - rest.len())];
                        assert(next[i] == (top.0 + 1, kid));
                        assert(hangs_under(rows, after, next[i], before.len() as int));
                    }
                }
                assert forall|i: int| 0 <= i < next.len() implies (#[trigger] next[i]).1 < rows.len() by {
                    if i < rest.len() {
                        assert(next[i] == stack[i]);
                    } else {
                        assert(next[i] == (top.0 + 1, ks[ks.len() - 1 - (i - rest.len())]));
                    }
                }
            }
            lemma_walk_nested(rows, next, shown.push(pid), (budget - 1) as nat, after);
            assert(before + walk(rows, stack, shown, budget) =~= after + walk(rows, next, shown.push(pid), (budget - 1) as nat));
        }
    }
}

proof fn lemma_roots_in_range(rows: Seq<TreeRow>, n: nat)
    requires
        n <= rows.len(),
    ensures
        forall|k: int| 0 <= k < roots(rows, n).len() ==> (#[trigger] roots(rows, n)[k]) < rows.len(),
    decreases n,
{
    if n > 0 {
        lemma_roots_in_range(rows, (n - 1) as nat);
        let r = roots(rows, (n - 1) as nat);
        assert forall|k: int| 0 <= k < roots(rows, n).len() implies (#[trigger] roots(rows, n)[k]) < rows.len() by {
            if k < r.len() {
                assert(roots(rows, n)[k] == r[k]);
            }
        }
    }
}

/// In the tree view each indented row sits inside its parent's block: its parent is shown
/// before it, one level up, and only rows deeper than it stand between them, so that the
/// indentation draws the tree.
pub proof fn lemma_tree_rows_follow_parents(rows: Seq<TreeRow>)
    ensures
        nested_under_parents(rows, tree_order_spec(rows)),
{
    let start = push_rev(seq![], roots(rows, rows.len()), 0);
    let rs = roots(rows, rows.len());
    lemma_roots_in_range(rows, rows.len());
    assert(stack_ready(rows, seq![], start)) by {
        assert forall|i: int| 0 <= i < start.len() implies (#[trigger] start[i]) == (0nat, rs[rs.len() - 1 - i]) by {}
    }
    assert(nested_under_parents(rows, Seq::<(nat, nat)>::empty()));
    lemma_walk_nested(rows, start, seq![], rows.len(), seq![]);
    assert(Seq::<(nat, nat)>::empty() + tree_order_spec(rows) =~= tree_order_spec(rows));
}

} // verus!
