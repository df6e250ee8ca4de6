//! Stable grouping of the positions of a list by an integer key.
//!
//! The positions are first put in order of their keys, positions with the same
//! key staying in the order they stand in; that ordered list is then cut into
//! its runs of equal keys. Each key of the list ends up with exactly one group,
//! and the groups come out by ascending key.

use itertools::Itertools;
use vstd::prelude::*;

verus! {

/// A position of a key list, with the key that stands there.
#[derive(Clone, Copy, Debug)]
pub struct Keyed {
    pub key: i32,
    pub position: usize,
}

/// The positions that share one key.
#[derive(Clone, Debug)]
pub struct Group {
    pub key: i32,
    pub members: Vec<usize>,
}

/// The positions of `keys` at which `key` stands, ascending.
pub open spec fn positions_of(keys: Seq<i32>, key: i32) -> Seq<int>
    decreases keys.len(),
{
    if keys.len() == 0 {
        Seq::empty()
    } else {
        let rest = positions_of(keys.drop_last(), key);
        if keys.last() == key {
            rest.push(keys.len() - 1)
        } else {
            rest
        }
    }
}

/// The positions as integers.
pub open spec fn as_ints(s: Seq<usize>) -> Seq<int> {
    s.map_values(|m: usize| m as int)
}

/// The order of a stable sort: by key, and by position where the keys agree.
pub open spec fn comes_before(a: Keyed, b: Keyed) -> bool {
    a.key < b.key || (a.key == b.key && a.position < b.position)
}

/// Some entry of `order` stands for position `p`.
pub open spec fn holds_position(order: Seq<Keyed>, p: int) -> bool {
    exists|a: int| 0 <= a < order.len() && (#[trigger] order[a]).position == p
}

/// `order` lists every position of `keys` once, each with its key, sorted by
/// key and, among equal keys, by position.
pub open spec fn is_stable_order(keys: Seq<i32>, order: Seq<Keyed>) -> bool {
    &&& order.len() == keys.len()
    &&& forall|a: int|
        0 <= a < order.len() ==> (#[trigger] order[a]).position < keys.len() && order[a].key
            == keys[order[a].position as int]
    &&& forall|a: int, b: int|
        0 <= a < b < order.len() ==> comes_before(#[trigger] order[a], #[trigger] order[b])
    &&& forall|p: int| 0 <= p < keys.len() ==> #[trigger] holds_position(order, p)
}

/// Where run `r` begins: the lengths of the runs before it, summed.
pub open spec fn run_start(runs: Seq<(i32, usize)>, r: int) -> int
    decreases r,
{
    if r <= 0 {
        0
    } else {
        run_start(runs, r - 1) + runs[r - 1].1
    }
}

/// `runs` cuts `entries` into its maximal runs of equal keys: the runs are
/// not empty, they cover `entries` from front to back, all entries of a run
/// have the run's key, and two neighbouring runs differ in their key.
pub open spec fn is_run_split(entries: Seq<Keyed>, runs: Seq<(i32, usize)>) -> bool {
    &&& run_start(runs, runs.len() as int) == entries.len()
    &&& forall|r: int| 0 <= r < runs.len() ==> (#[trigger] runs[r]).1 > 0
    &&& forall|r: int, a: int|
        0 <= r < runs.len() && run_start(runs, r) <= a < run_start(runs, r + 1) ==> (
        #[trigger] entries[a]).key == (#[trigger] runs[r]).0
    &&& forall|r: int| 0 < r < runs.len() ==> runs[r - 1].0 != (#[trigger] runs[r]).0
}

/// `groups` is the grouping of the positions of `keys`: one group for each
/// key that occurs, by ascending key, each holding all positions of its key
/// in ascending order.
pub open spec fn is_grouping(keys: Seq<i32>, groups: Seq<Group>) -> bool {
    &&& forall|i: int, j: int|
        0 <= i < j < groups.len() ==> (#[trigger] groups[i]).key < (#[trigger] groups[j]).key
    &&& forall|i: int|
        0 <= i < groups.len() ==> as_ints((#[trigger] groups[i]).members@) == positions_of(
            keys,
            groups[i].key,
        ) && groups[i].members@.len() > 0
    &&& forall|p: int| 0 <= p < keys.len() ==> has_group(groups, #[trigger] keys[p])
}

/// Some group has the key `key`.
pub open spec fn has_group(groups: Seq<Group>, key: i32) -> bool {
    exists|i: int| 0 <= i < groups.len() && (#[trigger] groups[i]).key == key
}

/// Every position that `positions_of` lists lies in the list and holds the key.
pub proof fn lemma_positions_hold_key(keys: Seq<i32>, key: i32)
    ensures
        forall|i: int|
            0 <= i < positions_of(keys, key).len() ==> 0 <= #[trigger] positions_of(keys, key)[i]
                < keys.len() && keys[positions_of(keys, key)[i]] == key,
    decreases keys.len(),
{
    if keys.len() > 0 {
        let rest = positions_of(keys.drop_last(), key);
        lemma_positions_hold_key(keys.drop_last(), key);
        assert forall|i: int| 0 <= i < positions_of(keys, key).len() implies 0
            <= #[trigger] positions_of(keys, key)[i] < keys.len() && keys[positions_of(
            keys,
            key,
        )[i]] == key by {
            if i < rest.len() {
                assert(keys.drop_last()[rest[i]] == key);
            }
        }
    }
}

proof fn lemma_positions_characterized(keys: Seq<i32>, key: i32, s: Seq<int>)
    requires
        forall|i: int| 0 <= i < s.len() ==> 0 <= #[trigger] s[i] < keys.len() && keys[s[i]] == key,
        forall|i: int, j: int| 0 <= i < j < s.len() ==> #[trigger] s[i] < #[trigger] s[j],
        forall|p: int| 0 <= p < keys.len() && #[trigger] keys[p] == key ==> s.contains(p),
    ensures
        s == positions_of(keys, key),
    decreases keys.len(),
{
    if keys.len() == 0 {
        if s.len() > 0 {
            assert(0 <= s[0] < keys.len());
        }
    } else {
        let n = keys.len() as int;
        let front = keys.drop_last();
        if keys.last() == key {
            let at = choose|i: int| 0 <= i < s.len() && s[i] == n - 1;
            if at < s.len() - 1 {
                assert(s[at] < s[at + 1]);
            }
            let rest = s.drop_last();
            assert forall|p: int| 0 <= p < front.len() && #[trigger] front[p] == key implies rest.contains(p) by {
                let i = choose|i: int| 0 <= i < s.len() && s[i] == p;
                assert(rest[i] == p);
            }
            assert forall|i: int| 0 <= i < rest.len() implies 0 <= #[trigger] rest[i] < front.len()
                && front[rest[i]] == key by {
                assert(s[i] < s[s.len() - 1]);
            }
            lemma_positions_characterized(front, key, rest);
        } else {
            assert forall|i: int| 0 <= i < s.len() implies 0 <= #[trigger] s[i] < front.len()
                && front[s[i]] == key by {
                assert(keys[s[i]] == key);
            }
            assert forall|p: int| 0 <= p < front.len() && #[trigger] front[p] == key implies s.contains(p) by {
                assert(keys[p] == key);
            }
            lemma_positions_characterized(front, key, s);
        }
    }
}

proof fn lemma_insert_holds(order: Seq<Keyed>, at: int, entry: Keyed, p: int)
    requires
        0 <= at <= order.len(),
        holds_position(order, p) || entry.position == p,
    ensures
        holds_position(order.insert(at, entry), p),
{
    let after = order.insert(at, entry);
    if entry.position == p {
        assert(after[at].position == p);
    } else {
        let a = choose|a: int| 0 <= a < order.len() && (#[trigger] order[a]).position == p;
        if a < at {
            assert(after[a].position == p);
        } else {
            assert(after[a + 1].position == p);
        }
    }
}

/// The positions of `keys` in the order of a stable sort by key.
pub fn stable_order(keys: &Vec<i32>) -> (order: Vec<Keyed>)
    ensures
        is_stable_order(keys@, order@),
{
    let mut order: Vec<Keyed> = Vec::new();
    let mut p: usize = 0;
    while p < keys.len()
        invariant
            p <= keys.len(),
            order.len() == p,
            forall|a: int|
                0 <= a < order.len() ==> (#[trigger] order[a]).position < p && order[a].key
                    == keys[order[a].position as int],
            forall|a: int, b: int|
                0 <= a < b < order.len() ==> comes_before(#[trigger] order[a], #[trigger] order[b]),
            forall|q: int| 0 <= q < p ==> #[trigger] holds_position(order@, q),
        decreases keys.len() - p,
    {
        let key = keys[p];
        let mut at: usize = order.len();
        while at > 0 && order[at - 1].key > key
            invariant
                at <= order.len(),
                forall|b: int| at <= b < order.len() ==> (#[trigger] order[b]).key > key,
            decreases at,
        {
            at -= 1;
        }
        let entry = Keyed { key, position: p };
        let ghost before = order@;
        order.insert(at, entry);
        proof {
            assert forall|a: int, b: int| 0 <= a < b < order.len() implies comes_before(
                #[trigger] order[a],
                #[trigger] order[b],
            ) by {
                if b < at {
                    assert(order[a] == before[a] && order[b] == before[b]);
                } else if b == at {
                    if a < at - 1 {
                        assert(comes_before(before[a], before[at - 1]));
                    }
                } else if a < at {
                    assert(order[a] == before[a] && order[b] == before[b - 1]);
                    if a < b - 1 {
                        assert(comes_before(before[a], before[b - 1]));
                    }
                } else if a == at {
                    assert(order[b] == before[b - 1]);
                } else {
                    assert(order[a] == before[a - 1] && order[b] == before[b - 1]);
                }
            }
            assert forall|q: int| 0 <= q < p + 1 implies #[trigger] holds_position(order@, q) by {
                lemma_insert_holds(before, at as int, entry, q);
            }
            assert forall|a: int| 0 <= a < order.len() implies (#[trigger] order[a]).position < p
                + 1 && order[a].key == keys[order[a].position as int] by {
                if a < at {
                    assert(order[a] == before[a]);
                } else if a > at {
                    assert(order[a] == before[a - 1]);
                }
            }
        }
        p += 1;
    }
    order
}

/// The runs of equal keys in `entries`, each as its key and its length.
///
/// Calls `Itertools::group_by` with the entry's key as the grouping key, and
/// counts each group. That adaptor puts consecutive elements with equal keys
/// in one group and starts a new group where the key changes, which is what
/// `is_run_split` says; nothing of it is proved here.
#[verifier::external_body]
fn key_runs(entries: &Vec<Keyed>) -> (runs: Vec<(i32, usize)>)
    ensures
        is_run_split(entries@, runs@),
{
    let grouped = entries.iter().group_by(|entry| entry.key);
    let runs = grouped.into_iter().map(|(key, run)| (key, run.count())).collect();
    runs
}

proof fn lemma_run_start_grows(runs: Seq<(i32, usize)>, i: int, j: int)
    requires
        0 <= i <= j <= runs.len(),
    ensures
        run_start(runs, i) <= run_start(runs, j),
    decreases j - i,
{
    if i < j {
        lemma_run_start_grows(runs, i, j - 1);
    }
}

/// Every position below the total length lies in one of the runs.
proof fn lemma_run_around(runs: Seq<(i32, usize)>, upto: int, a: int) -> (r: int)
    requires
        0 <= upto <= runs.len(),
        0 <= a < run_start(runs, upto),
    ensures
        0 <= r < upto,
        run_start(runs, r) <= a < run_start(runs, r + 1),
    decreases upto,
{
    if a >= run_start(runs, upto - 1) {
        upto - 1
    } else {
        lemma_run_around(runs, upto - 1, a)
    }
}

/// In a sorted list the keys of the runs ascend strictly.
proof fn lemma_run_keys_ascend(entries: Seq<Keyed>, runs: Seq<(i32, usize)>, i: int, j: int)
    requires
        is_run_split(entries, runs),
        forall|a: int, b: int|
            0 <= a < b < entries.len() ==> comes_before(#[trigger] entries[a], #[trigger] entries[b]),
        0 <= i < j < runs.len(),
    ensures
        runs[i].0 < runs[j].0,
    decreases j - i,
{
    let a = run_start(runs, j - 1);
    let b = run_start(runs, j);
    assert(runs[j].1 > 0);
    lemma_run_start_grows(runs, 0, j - 1);
    lemma_run_start_grows(runs, j + 1, runs.len() as int);
    assert(entries[a].key == runs[j - 1].0);
    assert(comes_before(entries[a], entries[b]));
    if i < j - 1 {
        lemma_run_keys_ascend(entries, runs, i, j - 1);
    }
}

/// The run with key `runs[r].0` holds exactly the positions of that key.
proof fn lemma_run_is_positions(
    keys: Seq<i32>,
    order: Seq<Keyed>,
    runs: Seq<(i32, usize)>,
    r: int,
    members: Seq<usize>,
)
    requires
        is_stable_order(keys, order),
        is_run_split(order, runs),
        0 <= r < runs.len(),
        members.len() == runs[r].1,
        forall|i: int|
            0 <= i < members.len() ==> #[trigger] members[i] == order[run_start(runs, r)
                + i].position,
    ensures
        as_ints(members) == positions_of(keys, runs[r].0),
{
    let start = run_start(runs, r);
    let key = runs[r].0;
    let s = as_ints(members);
    lemma_run_start_grows(runs, 0, r);
    lemma_run_start_grows(runs, r + 1, runs.len() as int);
    assert forall|i: int| 0 <= i < s.len() implies 0 <= #[trigger] s[i] < keys.len() && keys[s[i]]
        == key by {
        assert(order[start + i].key == key);
    }
    assert forall|i: int, j: int| 0 <= i < j < s.len() implies #[trigger] s[i] < #[trigger] s[j] by {
        assert(comes_before(order[start + i], order[start + j]));
    }
    assert forall|p: int| 0 <= p < keys.len() && #[trigger] keys[p] == key implies s.contains(
        p,
    ) by {
        assert(holds_position(order, p));
        let a = choose|a: int| 0 <= a < order.len() && (#[trigger] order[a]).position == p;
        let at = lemma_run_around(runs, runs.len() as int, a);
        if at < r {
            lemma_run_keys_ascend(order, runs, at, r);
        } else if r < at {
            lemma_run_keys_ascend(order, runs, r, at);
        }
        assert(s[a - start] == p);
    }
    lemma_positions_characterized(keys, key, s);
}

/// Groups the positions of `keys` by their key.
pub fn group_by_key(keys: &Vec<i32>) -> (groups: Vec<Group>)
    ensures
        is_grouping(keys@, groups@),
{
    let order = stable_order(keys);
    let runs = key_runs(&order);
    let mut groups: Vec<Group> = Vec::new();
    let mut start: usize = 0;
    let mut r: usize = 0;
    while r < runs.len()
        invariant
            is_stable_order(keys@, order@),
            is_run_split(order@, runs@),
            r <= runs.len(),
            start == run_start(runs@, r as int),
            groups.len() == r,
            forall|i: int|
                0 <= i < r ==> (#[trigger] groups[i]).key == runs[i].0 && as_ints(
                    groups[i].members@,
                ) == positions_of(keys@, runs[i].0) && groups[i].members@.len() > 0,
        decreases runs.len() - r,
    {
        let key = runs[r].0;
        let len = runs[r].1;
        proof {
            lemma_run_start_grows(runs@, r + 1, runs.len() as int);
            assert(start + len <= order.len());
        }
        let end = start + len;
        let mut members: Vec<usize> = Vec::new();
        let mut a = start;
        while a < end
            invariant
                start <= a <= end <= order.len(),
                members.len() == a - start,
                forall|i: int|
                    0 <= i < members.len() ==> #[trigger] members[i] == order[start
                        + i].position,
            decreases end - a,
        {
            members.push(order[a].position);
            a += 1;
        }
        proof {
            lemma_run_is_positions(keys@, order@, runs@, r as int, members@);
        }
        groups.push(Group { key, members });
        start = end;
        r += 1;
    }
    proof {
        assert forall|i: int, j: int| 0 <= i < j < groups.len() implies (#[trigger] groups[i]).key
            < (#[trigger] groups[j]).key by {
            lemma_run_keys_ascend(order@, runs@, i, j);
        }
        assert forall|p: int| 0 <= p < keys.len() implies has_group(groups@, #[trigger] keys@[p]) by {
            assert(holds_position(order@, p));
            let a = choose|a: int| 0 <= a < order.len() && (#[trigger] order[a]).position == p;
            let at = lemma_run_around(runs@, runs.len() as int, a);
            assert(groups[at].key == keys[p]);
        }
    }
    groups
}

} // verus!
