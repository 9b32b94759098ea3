//! Which processes the process table shows, and in what order.
//!
//! A sample's shares (CPU, GPU, energy impact, power) are non-negative floats; a row
//! holds each as the bit pattern of that float, which for non-negative values orders
//! exactly as the float does, with 0 for zero.

use vstd::prelude::*;
use crate::text::{chars_of, eq_chars};
use crate::tree::{pairs_view, tree_order, tree_order_spec, TreeRow};
use crate::tui::{row_matches, process_matches, SortKey};

verus! {

/// What the process table reads of a sampled process to filter and order it.
#[derive(Debug, Clone, PartialEq, Eq)]
pub struct ProcessRowKey {
    pub pid: i32,
    pub parent_pid: i32,
    pub name: String,
    pub user: String,
    /// CPU share; `None` until a second sample gives a rate.
    pub cpu: Option<u64>,
    pub gpu: Option<u64>,
    pub energy: Option<u64>,
    pub power: Option<u64>,
    pub resident_bytes: Option<u64>,
}

/// A way of ordering rows, largest value first.
#[derive(Debug, Clone, Copy, PartialEq, Eq, Structural)]
pub enum Criterion {
    /// CPU share; rows without one come last.
    Cpu,
    /// GPU share, missing counting as zero.
    Gpu,
    /// Energy impact, missing counting as zero.
    Energy,
    /// Power, missing counting as zero.
    Power,
    /// Resident memory; rows without it come last.
    Memory,
    /// Resident memory, missing counting as zero.
    MemoryOrZero,
    /// Process id, largest first.
    Pid,
    /// Process id, smallest first.
    PidAscending,
}

pub open spec fn known_first(v: Option<u64>) -> int {
    match v {
        Some(x) => x as int,
        None => -1,
    }
}

pub open spec fn or_zero(v: Option<u64>) -> int {
    match v {
        Some(x) => x as int,
        None => 0,
    }
}

/// The value a row is ordered by, largest first.
pub open spec fn order_value(row: ProcessRowKey, c: Criterion) -> int {
    match c {
        Criterion::Cpu => known_first(row.cpu),
        Criterion::Gpu => or_zero(row.gpu),
        Criterion::Energy => or_zero(row.energy),
        Criterion::Power => or_zero(row.power),
        Criterion::Memory => known_first(row.resident_bytes),
        Criterion::MemoryOrZero => or_zero(row.resident_bytes),
        Criterion::Pid => row.pid as int,
        Criterion::PidAscending => -(row.pid as int),
    }
}

fn value_of(row: &ProcessRowKey, c: Criterion) -> (v: i128)
    ensures
        v == order_value(*row, c),
{
    let known = |v: Option<u64>| -> (r: i128)
        ensures
            r == known_first(v),
        {
            match v {
                Some(x) => x as i128,
                None => -1,
            }
        };
    let zero = |v: Option<u64>| -> (r: i128)
        ensures
            r == or_zero(v),
        {
            match v {
                Some(x) => x as i128,
                None => 0,
            }
        };
    match c {
        Criterion::Cpu => known(row.cpu),
        Criterion::Gpu => zero(row.gpu),
        Criterion::Energy => zero(row.energy),
        Criterion::Power => zero(row.power),
        Criterion::Memory => known(row.resident_bytes),
        Criterion::MemoryOrZero => zero(row.resident_bytes),
        Criterion::Pid => row.pid as i128,
        Criterion::PidAscending => -(row.pid as i128),
    }
}

/// Row `x` put into `sorted` after every row whose value is at least its own.
pub open spec fn insert_by(sorted: Seq<usize>, x: usize, rows: Seq<ProcessRowKey>, c: Criterion) -> Seq<usize>
    decreases sorted.len(),
{
    if sorted.len() == 0 || order_value(rows[x as int], c) <= order_value(rows[sorted.last() as int], c) {
        sorted.push(x)
    } else {
        insert_by(sorted.drop_last(), x, rows, c).push(sorted.last())
    }
}

/// The rows `idx` by value, largest first, rows of equal value keeping their order: a
/// stable sort.
pub open spec fn stable_desc(idx: Seq<usize>, rows: Seq<ProcessRowKey>, c: Criterion) -> Seq<usize>
    decreases idx.len(),
{
    if idx.len() == 0 {
        idx
    } else {
        insert_by(stable_desc(idx.drop_last(), rows, c), idx.last(), rows, c)
    }
}

/// The indices below `n` of the rows that `keep` accepts, in order.
pub open spec fn indices_where(rows: Seq<ProcessRowKey>, n: nat, keep: spec_fn(ProcessRowKey) -> bool) -> Seq<usize>
    decreases n,
{
    if n == 0 {
        Seq::empty()
    } else if keep(rows[n - 1]) {
        indices_where(rows, (n - 1) as nat, keep).push((n - 1) as usize)
    } else {
        indices_where(rows, (n - 1) as nat, keep)
    }
}

proof fn lemma_insert_by_at(sorted: Seq<usize>, x: usize, rows: Seq<ProcessRowKey>, c: Criterion, k: int)
    requires
        0 <= k <= sorted.len(),
        forall|m: int| k <= m < sorted.len() ==> order_value(rows[x as int], c) > order_value(
            rows[#[trigger] sorted[m] as int],
            c,
        ),
        k == 0 || order_value(rows[x as int], c) <= order_value(rows[sorted[k - 1] as int], c),
    ensures
        insert_by(sorted, x, rows, c) == sorted.insert(k, x),
    decreases sorted.len(),
{
    if sorted.len() == k {
        assert(sorted.push(x) =~= sorted.insert(k, x));
    } else {
        let d = sorted.drop_last();
        assert(order_value(rows[x as int], c) > order_value(rows[sorted[sorted.len() - 1] as int], c));
        lemma_insert_by_at(d, x, rows, c, k);
        assert(d.insert(k, x).push(sorted.last()) =~= sorted.insert(k, x));
    }
}

/// `idx` sorted by value, largest first, keeping ties in order.
fn sort_desc(rows: &[ProcessRowKey], idx: &Vec<usize>, c: Criterion) -> (r: Vec<usize>)
    requires
        forall|m: int| 0 <= m < idx@.len() ==> #[trigger] idx@[m] < rows@.len(),
    ensures
        r@ == stable_desc(idx@, rows@, c),
        forall|m: int| 0 <= m < r@.len() ==> #[trigger] r@[m] < rows@.len(),
{
    let mut out: Vec<usize> = Vec::new();
    let mut i: usize = 0;
    assert(idx@.take(0) =~= Seq::<usize>::empty());
    while i < idx.len()
        invariant
            i <= idx@.len(),
            forall|m: int| 0 <= m < idx@.len() ==> #[trigger] idx@[m] < rows@.len(),
            forall|m: int| 0 <= m < out@.len() ==> #[trigger] out@[m] < rows@.len(),
            out@ == stable_desc(idx@.take(i as int), rows@, c),
        decreases idx@.len() - i,
    {
        let x = idx[i];
        let vx = value_of(&rows[x], c);
        let mut k = out.len();
        while k > 0 && vx > value_of(&rows[out[k - 1]], c)
            invariant
                k <= out@.len(),
                x < rows@.len(),
                vx == order_value(rows@[x as int], c),
                forall|m: int| 0 <= m < out@.len() ==> #[trigger] out@[m] < rows@.len(),
                forall|m: int| k <= m < out@.len() ==> order_value(rows@[x as int], c) > order_value(
                    rows@[#[trigger] out@[m] as int],
                    c,
                ),
            decreases k,
        {
            k = k - 1;
        }
        proof {
            assert(idx@.take(i + 1).drop_last() =~= idx@.take(i as int));
            assert(idx@.take(i + 1).last() == x);
            lemma_insert_by_at(out@, x, rows@, c, k as int);
        }
        out.insert(k, x);
        i = i + 1;
    }
    assert(idx@.take(idx@.len() as int) =~= idx@);
    out
}

/// A row counts as busy unless its CPU share is known to be zero and it shows no energy
/// impact: a process that wakes often but spends little CPU still costs energy.
pub open spec fn busy(row: ProcessRowKey) -> bool {
    ||| row.cpu is None
    ||| row.cpu.unwrap() > 0
    ||| (row.energy is Some && row.energy.unwrap() > 0)
}

/// Whether the process page shows a row: it passes the search and user filters, and it
/// is busy when idle rows are hidden.
pub open spec fn table_keeps(row: ProcessRowKey, query: Seq<char>, user_filter: Seq<char>, hide_idle: bool) -> bool {
    &&& row_matches(row.name@, row.pid, row.user@, query, user_filter)
    &&& (!hide_idle || busy(row))
}

pub open spec fn criterion_of(key: SortKey) -> Criterion {
    match key {
        SortKey::Cpu => Criterion::Cpu,
        SortKey::Gpu => Criterion::Gpu,
        SortKey::Energy => Criterion::Energy,
        SortKey::Power => Criterion::Power,
        SortKey::Memory => Criterion::Memory,
        SortKey::Pid => Criterion::Pid,
    }
}

/// The rows the process page shows, in its order: the rows it keeps, by the sort column
/// largest first with ties in sample order, the whole list turned around when the order
/// is ascending.
pub open spec fn table_order(
    rows: Seq<ProcessRowKey>,
    query: Seq<char>,
    user_filter: Seq<char>,
    hide_idle: bool,
    key: SortKey,
    descending: bool,
) -> Seq<usize> {
    let kept = indices_where(rows, rows.len(), |r: ProcessRowKey| table_keeps(r, query, user_filter, hide_idle));
    let sorted = stable_desc(kept, rows, criterion_of(key));
    if descending {
        sorted
    } else {
        sorted.reverse()
    }
}

pub open spec fn tree_row(row: ProcessRowKey) -> TreeRow {
    TreeRow { pid: row.pid, parent_pid: row.parent_pid }
}

/// The process page's rows as (depth, index into the sample): in tree order under their
/// parents when the tree view is on, else flat at depth 0.
pub open spec fn table_rows(rows: Seq<ProcessRowKey>, order: Seq<usize>, tree_view: bool) -> Seq<(nat, nat)> {
    if tree_view {
        tree_order_spec(order.map_values(|i: usize| tree_row(rows[i as int]))).map_values(
            |p: (nat, nat)| (p.0, order[p.1 as int] as nat),
        )
    } else {
        order.map_values(|i: usize| (0nat, i as nat))
    }
}

/// The rows that `table_order` keeps, in sample order.
fn kept_rows(rows: &[ProcessRowKey], query: &str, user_filter: &str, hide_idle: bool) -> (r: Vec<usize>)
    ensures
        r@ == indices_where(rows@, rows@.len(), |x: ProcessRowKey| table_keeps(x, query@, user_filter@, hide_idle)),
        forall|m: int| 0 <= m < r@.len() ==> #[trigger] r@[m] < rows@.len(),
{
    let ghost keep = |x: ProcessRowKey| table_keeps(x, query@, user_filter@, hide_idle);
    let mut r: Vec<usize> = Vec::new();
    let mut i: usize = 0;
    while i < rows.len()
        invariant
            i <= rows@.len(),
            keep == (|x: ProcessRowKey| table_keeps(x, query@, user_filter@, hide_idle)),
            r@ == indices_where(rows@, i as nat, keep),
            forall|m: int| 0 <= m < r@.len() ==> #[trigger] r@[m] < i,
        decreases rows@.len() - i,
    {
        let row = &rows[i];
        let matches = process_matches(row.name.as_str(), row.pid, row.user.as_str(), query, user_filter);
        let is_busy = match row.cpu {
            None => true,
            Some(v) => v > 0,
        } || match row.energy {
            Some(v) => v > 0,
            None => false,
        };
        if matches && (!hide_idle || is_busy) {
            r.push(i);
        }
        i = i + 1;
    }
    r
}

/// The process page's rows, from the rows of a sample and the page's filters and order.
pub fn ordered_rows(
    rows: &[ProcessRowKey],
    query: &str,
    user_filter: &str,
    hide_idle: bool,
    key: SortKey,
    descending: bool,
    tree_view: bool,
) -> (r: Vec<(usize, usize)>)
    ensures
        pairs_view(r@) == table_rows(
            rows@,
            table_order(rows@, query@, user_filter@, hide_idle, key, descending),
            tree_view,
        ),
{
    let kept = kept_rows(rows, query, user_filter, hide_idle);
    let c = match key {
        SortKey::Cpu => Criterion::Cpu,
        SortKey::Gpu => Criterion::Gpu,
        SortKey::Energy => Criterion::Energy,
        SortKey::Power => Criterion::Power,
        SortKey::Memory => Criterion::Memory,
        SortKey::Pid => Criterion::Pid,
    };
    let sorted = sort_desc(rows, &kept, c);
    let ghost order = table_order(rows@, query@, user_filter@, hide_idle, key, descending);
    let mut ordered: Vec<usize> = Vec::new();
    if descending {
        ordered = sorted;
    } else {
        let mut k = sorted.len();
        while k > 0
            invariant
                k <= sorted@.len(),
                ordered@ == sorted@.subrange(k as int, sorted@.len() as int).reverse(),
            decreases k,
        {
            k = k - 1;
            ordered.push(sorted[k]);
            assert(ordered@ =~= sorted@.subrange(k as int, sorted@.len() as int).reverse());
        }
        assert(sorted@.subrange(0, sorted@.len() as int) =~= sorted@);
    }
    assert(ordered@ == order);
    assert(forall|m: int| 0 <= m < ordered@.len() ==> #[trigger] ordered@[m] < rows@.len());
    let mut r: Vec<(usize, usize)> = Vec::new();
    if tree_view {
        let mut tree_rows: Vec<TreeRow> = Vec::new();
        let mut i: usize = 0;
        while i < ordered.len()
            invariant
                i <= ordered@.len(),
                forall|m: int| 0 <= m < ordered@.len() ==> #[trigger] ordered@[m] < rows@.len(),
                tree_rows@ == ordered@.take(i as int).map_values(|j: usize| tree_row(rows@[j as int])),
            decreases ordered@.len() - i,
        {
            let row = &rows[ordered[i]];
            tree_rows.push(TreeRow { pid: row.pid, parent_pid: row.parent_pid });
            assert(tree_rows@ =~= ordered@.take(i + 1).map_values(|j: usize| tree_row(rows@[j as int])));
            i = i + 1;
        }
        assert(ordered@.take(ordered@.len() as int) =~= ordered@);
        let shape = tree_order(tree_rows.as_slice());
        let ghost spec_shape = tree_order_spec(tree_rows@);
        let mut j: usize = 0;
        while j < shape.len()
            invariant
                j <= shape@.len(),
                pairs_view(shape@) == spec_shape,
                tree_rows@.len() == ordered@.len(),
                forall|m: int| 0 <= m < shape@.len() ==> #[trigger] shape@[m].1 < ordered@.len(),
                pairs_view(r@) == spec_shape.take(j as int).map_values(|p: (nat, nat)| (p.0, ordered@[p.1 as int] as nat)),
            decreases shape@.len() - j,
        {
            let (depth, at) = shape[j];
            let ghost prev = pairs_view(r@);
            assert(spec_shape[j as int] == (depth as nat, at as nat));
            r.push((depth, ordered[at]));
            assert(pairs_view(r@) =~= prev.push((depth as nat, ordered@[at as int] as nat)));
            assert(spec_shape.take(j + 1).map_values(|p: (nat, nat)| (p.0, ordered@[p.1 as int] as nat)) =~= spec_shape.take(
                j as int,
            ).map_values(|p: (nat, nat)| (p.0, ordered@[p.1 as int] as nat)).push((depth as nat, ordered@[at as int] as nat)));
            j = j + 1;
        }
        assert(spec_shape.take(spec_shape.len() as int) =~= spec_shape);
    } else {
        let mut j: usize = 0;
        while j < ordered.len()
            invariant
                j <= ordered@.len(),
                pairs_view(r@) == ordered@.take(j as int).map_values(|i: usize| (0nat, i as nat)),
            decreases ordered@.len() - j,
        {
            let ghost prev = pairs_view(r@);
            r.push((0, ordered[j]));
            assert(pairs_view(r@) =~= prev.push((0nat, ordered@[j as int] as nat)));
            assert(ordered@.take(j + 1).map_values(|i: usize| (0nat, i as nat)) =~= ordered@.take(j as int).map_values(
                |i: usize| (0nat, i as nat),
            ).push((0nat, ordered@[j as int] as nat)));
            j = j + 1;
        }
        assert(ordered@.take(ordered@.len() as int) =~= ordered@);
    }
    r
}

/// Whether `ps` lists a row: its pid is the one asked for, and its user is exactly the one
/// asked for, each only when asked.
pub open spec fn listed(row: ProcessRowKey, pid: Option<i32>, user: Option<Seq<char>>) -> bool {
    &&& (pid is None || row.pid == pid.unwrap())
    &&& (user is None || row.user@ == user.unwrap())
}

/// The order `ps --sort` names: memory (`memory`, `mem`) with missing as zero, pid
/// ascending, energy (`energy`, `nrg`), power (`power`, `watts`); anything else is CPU.
pub open spec fn listing_criterion(sort: Seq<char>) -> Criterion {
    if sort == "memory"@ || sort == "mem"@ {
        Criterion::MemoryOrZero
    } else if sort == "pid"@ {
        Criterion::PidAscending
    } else if sort == "energy"@ || sort == "nrg"@ {
        Criterion::Energy
    } else if sort == "power"@ || sort == "watts"@ {
        Criterion::Power
    } else {
        Criterion::Cpu
    }
}

pub open spec fn text_view(v: Option<&str>) -> Option<Seq<char>> {
    match v {
        Some(t) => Some(t@),
        None => None,
    }
}

/// The rows `ps` prints: those listed, in the named order with ties in sample order, cut
/// to `limit` rows when one is given.
pub open spec fn listing(
    rows: Seq<ProcessRowKey>,
    pid: Option<i32>,
    user: Option<Seq<char>>,
    sort: Seq<char>,
    limit: Option<usize>,
) -> Seq<usize> {
    let sorted = stable_desc(
        indices_where(rows, rows.len(), |r: ProcessRowKey| listed(r, pid, user)),
        rows,
        listing_criterion(sort),
    );
    match limit {
        Some(n) => if n < sorted.len() { sorted.take(n as int) } else { sorted },
        None => sorted,
    }
}

/// The rows `ps` prints, as indices into `rows`.
pub fn filter_processes(
    rows: &[ProcessRowKey],
    pid: Option<i32>,
    user: Option<&str>,
    sort: &str,
    limit: Option<usize>,
) -> (r: Vec<usize>)
    ensures
        r@ == listing(rows@, pid, text_view(user), sort@, limit),
{
    let ghost keep = |x: ProcessRowKey| listed(x, pid, text_view(user));
    let mut kept: Vec<usize> = Vec::new();
    let mut i: usize = 0;
    while i < rows.len()
        invariant
            i <= rows@.len(),
            keep == (|x: ProcessRowKey| listed(x, pid, text_view(user))),
            kept@ == indices_where(rows@, i as nat, keep),
            forall|m: int| 0 <= m < kept@.len() ==> #[trigger] kept@[m] < i,
        decreases rows@.len() - i,
    {
        let row = &rows[i];
        let pid_ok = match pid {
            Some(p) => row.pid == p,
            None => true,
        };
        let user_ok = match user {
            Some(u) => eq_chars(chars_of(row.user.as_str()).as_slice(), u),
            None => true,
        };
        if pid_ok && user_ok {
            kept.push(i);
        }
        i = i + 1;
    }
    let s = chars_of(sort);
    let s = s.as_slice();
    let c = if eq_chars(s, "memory") || eq_chars(s, "mem") {
        Criterion::MemoryOrZero
    } else if eq_chars(s, "pid") {
        Criterion::PidAscending
    } else if eq_chars(s, "energy") || eq_chars(s, "nrg") {
        Criterion::Energy
    } else if eq_chars(s, "power") || eq_chars(s, "watts") {
        Criterion::Power
    } else {
        Criterion::Cpu
    };
    let mut sorted = sort_desc(rows, &kept, c);
    if let Some(n) = limit {
        if n < sorted.len() {
            sorted.truncate(n);
        }
    }
    sorted
}

/// No row of `s` comes before one of larger value.
pub open spec fn largest_first(s: Seq<usize>, rows: Seq<ProcessRowKey>, c: Criterion) -> bool {
    forall|i: int, j: int|
        0 <= i < j < s.len() ==> order_value(rows[#[trigger] s[i] as int], c) >= order_value(
            rows[#[trigger] s[j] as int],
            c,
        )
}

spec fn insert_at(sorted: Seq<usize>, x: usize, rows: Seq<ProcessRowKey>, c: Criterion) -> nat
    decreases sorted.len(),
{
    if sorted.len() == 0 || order_value(rows[x as int], c) <= order_value(rows[sorted.last() as int], c) {
        sorted.len()
    } else {
        insert_at(sorted.drop_last(), x, rows, c)
    }
}

proof fn lemma_insert_at(sorted: Seq<usize>, x: usize, rows: Seq<ProcessRowKey>, c: Criterion)
    ensures
        insert_at(sorted, x, rows, c) <= sorted.len(),
        forall|m: int|
            insert_at(sorted, x, rows, c) <= m < sorted.len() ==> order_value(rows[x as int], c) > order_value(
                rows[#[trigger] sorted[m] as int],
                c,
            ),
        insert_at(sorted, x, rows, c) == 0 || order_value(rows[x as int], c) <= order_value(
            rows[sorted[insert_at(sorted, x, rows, c) - 1] as int],
            c,
        ),
    decreases sorted.len(),
{
    if sorted.len() > 0 && order_value(rows[x as int], c) > order_value(rows[sorted.last() as int], c) {
        let d = sorted.drop_last();
        lemma_insert_at(d, x, rows, c);
        assert forall|m: int| insert_at(sorted, x, rows, c) <= m < sorted.len() implies order_value(rows[x as int], c)
            > order_value(rows[#[trigger] sorted[m] as int], c) by {
            if m < d.len() {
                assert(sorted[m] == d[m]);
            }
        }
    }
}

proof fn lemma_stable_desc_sorted(idx: Seq<usize>, rows: Seq<ProcessRowKey>, c: Criterion)
    ensures
        largest_first(stable_desc(idx, rows, c), rows, c),
        stable_desc(idx, rows, c).to_multiset() == idx.to_multiset(),
    decreases idx.len(),
{
    broadcast use vstd::seq_lib::to_multiset_build, vstd::seq_lib::to_multiset_insert;

    if idx.len() > 0 {
        let t = stable_desc(idx.drop_last(), rows, c);
        let x = idx.last();
        lemma_stable_desc_sorted(idx.drop_last(), rows, c);
        lemma_insert_at(t, x, rows, c);
        let p = insert_at(t, x, rows, c) as int;
        lemma_insert_by_at(t, x, rows, c, p);
        let u = t.insert(p, x);
        assert forall|i: int, j: int| 0 <= i < j < u.len() implies order_value(rows[#[trigger] u[i] as int], c)
            >= order_value(rows[#[trigger] u[j] as int], c) by {
            if j < p {
                assert(u[i] == t[i] && u[j] == t[j]);
            } else if j == p {
                assert(u[i] == t[i] && u[j] == x);
                if i < p - 1 {
                    assert(order_value(rows[t[i] as int], c) >= order_value(rows[t[p - 1] as int], c));
                }
            } else if i < p {
                assert(u[i] == t[i] && u[j] == t[j - 1]);
            } else if i == p {
                assert(u[i] == x && u[j] == t[j - 1]);
            } else {
                assert(u[i] == t[i - 1] && u[j] == t[j - 1]);
            }
        }
        assert(idx =~= idx.drop_last().push(x));
    }
}

/// The process table follows its sort column: in descending order no row comes before
/// one of larger value, in ascending order none before one of smaller value; and it holds
/// exactly the rows the filters keep, each once.
pub proof fn lemma_table_follows_its_column(
    rows: Seq<ProcessRowKey>,
    query: Seq<char>,
    user_filter: Seq<char>,
    hide_idle: bool,
    key: SortKey,
    descending: bool,
)
    ensures
        ({
            let o = table_order(rows, query, user_filter, hide_idle, key, descending);
            let c = criterion_of(key);
            &&& forall|i: int, j: int|
                0 <= i < j < o.len() ==> if descending {
                    order_value(rows[#[trigger] o[i] as int], c) >= order_value(rows[#[trigger] o[j] as int], c)
                } else {
                    order_value(rows[o[i] as int], c) <= order_value(rows[o[j] as int], c)
                }
            &&& o.to_multiset() == indices_where(
                rows,
                rows.len(),
                |r: ProcessRowKey| table_keeps(r, query, user_filter, hide_idle),
            ).to_multiset()
        }),
{
    let kept = indices_where(rows, rows.len(), |r: ProcessRowKey| table_keeps(r, query, user_filter, hide_idle));
    let c = criterion_of(key);
    let sorted = stable_desc(kept, rows, c);
    lemma_stable_desc_sorted(kept, rows, c);
    if !descending {
        let o = sorted.reverse();
        sorted.lemma_reverse_to_multiset();
        assert forall|i: int, j: int| 0 <= i < j < o.len() implies order_value(rows[#[trigger] o[i] as int], c)
            <= order_value(rows[#[trigger] o[j] as int], c) by {
            let n = sorted.len() as int;
            assert(o[i] == sorted[n - 1 - i] && o[j] == sorted[n - 1 - j]);
        }
    }
}

/// Reversing the direction (`O`, `R`) shows the same rows in exactly the opposite order.
pub proof fn lemma_reversing_turns_the_table_around(
    rows: Seq<ProcessRowKey>,
    query: Seq<char>,
    user_filter: Seq<char>,
    hide_idle: bool,
    key: SortKey,
)
    ensures
        table_order(rows, query, user_filter, hide_idle, key, false) == table_order(
            rows,
            query,
            user_filter,
            hide_idle,
            key,
            true,
        ).reverse(),
        table_order(rows, query, user_filter, hide_idle, key, true) == table_order(
            rows,
            query,
            user_filter,
            hide_idle,
            key,
            false,
        ).reverse(),
{
    let down = table_order(rows, query, user_filter, hide_idle, key, true);
    assert(down.reverse().reverse() =~= down);
}

proof fn lemma_indices_where_contains(rows: Seq<ProcessRowKey>, n: nat, keep: spec_fn(ProcessRowKey) -> bool, k: usize)
    requires
        n <= rows.len(),
        rows.len() <= usize::MAX,
    ensures
        indices_where(rows, n, keep).contains(k) <==> (k < n && keep(rows[k as int])),
    decreases n,
{
    if n > 0 {
        lemma_indices_where_contains(rows, (n - 1) as nat, keep, k);
        let before = indices_where(rows, (n - 1) as nat, keep);
        if keep(rows[n - 1]) {
            let after = before.push((n - 1) as usize);
            if k == n - 1 {
                assert(after[after.len() - 1] == k);
            } else if after.contains(k) {
                let j = choose|j: int| 0 <= j < after.len() && after[j] == k;
                assert(j < before.len());
                assert(before[j] == k);
            } else if before.contains(k) {
                let j = choose|j: int| 0 <= j < before.len() && before[j] == k;
                assert(after[j] == k);
            }
        }
    }
}

/// Hiding idle processes (`i`) only ever takes rows away: a row shown with idle rows
/// hidden is shown with them visible, and a busy row is shown either way.
pub proof fn lemma_hiding_idle_only_removes_rows(
    rows: Seq<ProcessRowKey>,
    query: Seq<char>,
    user_filter: Seq<char>,
    key: SortKey,
    descending: bool,
    k: usize,
)
    requires
        rows.len() <= usize::MAX,
    ensures
        table_order(rows, query, user_filter, true, key, descending).contains(k) ==> table_order(
            rows,
            query,
            user_filter,
            false,
            key,
            descending,
        ).contains(k),
        k < rows.len() && busy(rows[k as int]) ==> (table_order(rows, query, user_filter, true, key, descending).contains(k)
            <==> table_order(rows, query, user_filter, false, key, descending).contains(k)),
{
    let hidden = |r: ProcessRowKey| table_keeps(r, query, user_filter, true);
    let shown = |r: ProcessRowKey| table_keeps(r, query, user_filter, false);
    lemma_table_follows_its_column(rows, query, user_filter, true, key, descending);
    lemma_table_follows_its_column(rows, query, user_filter, false, key, descending);
    lemma_indices_where_contains(rows, rows.len(), hidden, k);
    lemma_indices_where_contains(rows, rows.len(), shown, k);
    let a = table_order(rows, query, user_filter, true, key, descending);
    let b = table_order(rows, query, user_filter, false, key, descending);
    let ka = indices_where(rows, rows.len(), hidden);
    let kb = indices_where(rows, rows.len(), shown);
    vstd::seq_lib::to_multiset_contains(a, k);
    vstd::seq_lib::to_multiset_contains(ka, k);
    vstd::seq_lib::to_multiset_contains(b, k);
    vstd::seq_lib::to_multiset_contains(kb, k);
}

} // verus!
