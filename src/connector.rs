//! The order of connection attempts: SRV records by priority then weighted
//! choice, and addresses of a target alternating IPv6 and IPv4.

use vstd::prelude::*;

verus! {

broadcast use vstd::seq_lib::group_to_multiset_ensures, vstd::multiset::group_multiset_axioms;

/// The SRV service of XMPP clients.
pub const CLIENT_SERVICE: &'static str = "_xmpp-client._tcp";

/// The port used when there is no SRV record.
pub const DEFAULT_PORT: u16 = 5222;

/// The time between two staggered connection attempts, in milliseconds.
pub const ATTEMPT_DELAY_MS: u64 = 250;

/// One SRV answer.
#[derive(Clone, Debug, PartialEq)]
pub struct SrvRecord {
    /// Lower is tried first.
    pub priority: u16,
    /// Within a priority, the relative chance of being tried first.
    pub weight: u16,
    /// The port to connect to.
    pub port: u16,
    /// The host to connect to.
    pub target: String,
}

/// Whether no record of `s` has a lower priority than `p`.
pub open spec fn all_at_least(s: Seq<SrvRecord>, p: u16) -> bool {
    forall|k: int| 0 <= k < s.len() ==> p <= #[trigger] s[k].priority
}

/// Whether the priorities of `s` never go down.
pub open spec fn by_priority(s: Seq<SrvRecord>) -> bool {
    forall|i: int, j: int| 0 <= i < j < s.len() ==> s[i].priority <= s[j].priority
}

/// The lowest priority in `v` (0 when `v` is empty).
pub open spec fn lowest(v: Seq<SrvRecord>) -> u16
    decreases v.len(),
{
    if v.len() == 0 {
        0
    } else if v.len() == 1 {
        v[0].priority
    } else if v.last().priority < lowest(v.drop_last()) {
        v.last().priority
    } else {
        lowest(v.drop_last())
    }
}

/// The `k`-th draw, or 0 when there are fewer draws.
pub open spec fn draw_at(draws: Seq<u32>, k: int) -> u32 {
    if 0 <= k < draws.len() {
        draws[k]
    } else {
        0
    }
}

/// The order of attempts for the records `rem`, the `k`-th choice made with
/// the `k`-th draw: the weighted pick among the lowest priority, then the rest.
pub open spec fn srv_order(rem: Seq<SrvRecord>, draws: Seq<u32>, k: int) -> Seq<SrvRecord>
    decreases rem.len(),
{
    if rem.len() == 0 {
        Seq::empty()
    } else {
        let idx = weighted_pick(rem, lowest(rem), draw_at(draws, k));
        if 0 <= idx < rem.len() {
            seq![rem[idx]] + srv_order(rem.remove(idx), draws, k + 1)
        } else {
            Seq::empty()
        }
    }
}

fn lowest_priority(v: &Vec<SrvRecord>) -> (r: u16)
    requires
        v@.len() > 0,
    ensures
        all_at_least(v@, r),
        exists|k: int| 0 <= k < v@.len() && v@[k].priority == r,
        r == lowest(v@),
{
    let mut best = v[0].priority;
    let mut i: usize = 1;
    proof {
        assert(v@.take(1) =~= seq![v@[0]]);
    }
    while i < v.len()
        invariant
            1 <= i <= v@.len(),
            best == lowest(v@.take(i as int)),
            forall|k: int| 0 <= k < i ==> best <= #[trigger] v@[k].priority,
            exists|k: int| 0 <= k < v@.len() && v@[k].priority == best,
        decreases v@.len() - i,
    {
        proof {
            assert(v@.take(i + 1).drop_last() =~= v@.take(i as int));
            assert(v@.take(i + 1).last() == v@[i as int]);
        }
        if v[i].priority < best {
            best = v[i].priority;
        }
        i = i + 1;
    }
    proof {
        assert(v@.take(v@.len() as int) =~= v@);
    }
    best
}

/// The sum of the weights of the records of priority `p` among `v[..j]`.
pub open spec fn weight_sum(v: Seq<SrvRecord>, p: u16, j: int) -> int
    decreases j,
{
    if j <= 0 || j > v.len() {
        0
    } else {
        weight_sum(v, p, j - 1) + if v[j - 1].priority == p {
            v[j - 1].weight as int
        } else {
            0
        }
    }
}

/// The first index at or after `j` of a record of priority `p`.
pub open spec fn first_of(v: Seq<SrvRecord>, p: u16, j: int) -> int
    decreases v.len() - j,
{
    if j < 0 || j >= v.len() {
        v.len() as int
    } else if v[j].priority == p {
        j
    } else {
        first_of(v, p, j + 1)
    }
}

/// The first index `j` of a record of priority `p` whose running sum of
/// weights (up to and with it) reaches `goal`, searching from `j`.
pub open spec fn reaching(v: Seq<SrvRecord>, p: u16, goal: int, j: int) -> int
    decreases v.len() - j,
{
    if j < 0 || j >= v.len() {
        v.len() as int
    } else if v[j].priority == p && weight_sum(v, p, j + 1) >= goal {
        j
    } else {
        reaching(v, p, goal, j + 1)
    }
}

/// The record that the weighted choice picks among those of priority `p`:
/// with `total` the sum of their weights, the first whose running sum reaches
/// `draw` modulo `total + 1`.
pub open spec fn weighted_pick(v: Seq<SrvRecord>, p: u16, draw: u32) -> int {
    let goal = (draw as int) % (weight_sum(v, p, v.len() as int) + 1);
    let j = reaching(v, p, goal, 0);
    if j < v.len() {
        j
    } else {
        first_of(v, p, 0)
    }
}

proof fn lemma_weight_sum_bound(v: Seq<SrvRecord>, p: u16, j: int)
    requires
        0 <= j <= v.len(),
    ensures
        0 <= weight_sum(v, p, j) <= 65535 * j,
    decreases j,
{
    if j > 0 {
        lemma_weight_sum_bound(v, p, j - 1);
    }
}

fn pick_weighted(v: &Vec<SrvRecord>, p: u16, draw: u32) -> (r: usize)
    requires
        exists|k: int| 0 <= k < v@.len() && v@[k].priority == p,
    ensures
        r < v@.len(),
        v@[r as int].priority == p,
        r == weighted_pick(v@, p, draw),
{
    let mut total: u128 = 0;
    let mut first: usize = v.len();
    let mut i: usize = 0;
    while i < v.len()
        invariant
            i <= v@.len(),
            total == weight_sum(v@, p, i as int),
            first_of(v@, p, 0) == if first < v@.len() { first as int } else { first_of(v@, p, i as int) },
            first <= v@.len(),
            first < v@.len() ==> v@[first as int].priority == p,
        decreases v@.len() - i,
    {
        proof {
            lemma_weight_sum_bound(v@, p, i as int);
            assert(65535 * (i as int) <= 65535 * (usize::MAX as int)) by (nonlinear_arith)
                requires
                    i <= usize::MAX,
            ;
        }
        if v[i].priority == p {
            if first == v.len() {
                first = i;
            }
            total = total + v[i].weight as u128;
        }
        i = i + 1;
    }
    proof {
        if first == v@.len() {
            let k = choose|k: int| 0 <= k < v@.len() && v@[k].priority == p;
            lemma_first_of_finds(v@, p, 0, k);
        }
    }
    proof {
        lemma_weight_sum_bound(v@, p, v@.len() as int);
        assert(65535 * (v@.len() as int) <= 65535 * (usize::MAX as int)) by (nonlinear_arith)
            requires
                v@.len() <= usize::MAX,
        ;
    }
    let goal: u128 = draw as u128 % (total + 1);
    let mut running: u128 = 0;
    let mut j: usize = 0;
    while j < v.len()
        invariant
            j <= v@.len(),
            first < v@.len(),
            v@[first as int].priority == p,
            first as int == first_of(v@, p, 0),
            goal as int == (draw as int) % (weight_sum(v@, p, v@.len() as int) + 1),
            running == weight_sum(v@, p, j as int),
            reaching(v@, p, goal as int, 0) == reaching(v@, p, goal as int, j as int),
        decreases v@.len() - j,
    {
        proof {
            lemma_weight_sum_bound(v@, p, j as int);
            assert(65535 * (j as int) <= 65535 * (usize::MAX as int)) by (nonlinear_arith)
                requires
                    j <= usize::MAX,
            ;
        }
        if v[j].priority == p {
            running = running + v[j].weight as u128;
            if running >= goal {
                return j;
            }
        }
        j = j + 1;
    }
    first
}

proof fn lemma_first_of_finds(v: Seq<SrvRecord>, p: u16, j: int, k: int)
    requires
        0 <= j <= k < v.len(),
        v[k].priority == p,
    ensures
        first_of(v, p, j) <= k,
        v[first_of(v, p, j)].priority == p,
    decreases k - j,
{
    if v[j].priority != p {
        lemma_first_of_finds(v, p, j + 1, k);
    }
}

/// The order in which the targets of an SRV answer are tried: by priority,
/// lowest first, and within a priority by weighted choice, the `k`-th choice
/// made with `draws[k]` (0 when there are fewer draws). Every record is tried.
pub fn order_srv(records: Vec<SrvRecord>, draws: &Vec<u32>) -> (r: Vec<SrvRecord>)
    ensures
        r@ == srv_order(records@, draws@, 0),
        r@.to_multiset() == records@.to_multiset(),
        by_priority(r@),
{
    let mut remaining = records;
    let n: usize = remaining.len();
    let mut out: Vec<SrvRecord> = Vec::new();
    let ghost all = remaining@.to_multiset();
    let mut k: usize = 0;
    proof {
        assert(out@ + srv_order(remaining@, draws@, 0) =~= srv_order(records@, draws@, 0));
        assert(out@.to_multiset().len() == 0);
        assert(out@.to_multiset() =~= vstd::multiset::Multiset::empty());
        assert(out@.to_multiset().add(remaining@.to_multiset()) =~= remaining@.to_multiset());
    }
    while remaining.len() > 0
        invariant
            out@.to_multiset().add(remaining@.to_multiset()) == all,
            all == records@.to_multiset(),
            k + remaining@.len() == records@.len(),
            records@.len() == n,
            out@ + srv_order(remaining@, draws@, k as int) == srv_order(records@, draws@, 0),
            by_priority(out@),
            forall|i: int, j: int|
                0 <= i < out@.len() && 0 <= j < remaining@.len() ==> out@[i].priority
                    <= remaining@[j].priority,
        decreases remaining@.len(),
    {
        let p = lowest_priority(&remaining);
        let draw: u32 = if k < draws.len() {
            draws[k]
        } else {
            0
        };
        let idx = pick_weighted(&remaining, p, draw);
        let ghost before_r = remaining@;
        let ghost before_o = out@;
        let chosen = remaining.remove(idx);
        proof {
            assert(remaining@ == before_r.remove(idx as int));
            assert(all_at_least(before_r, p));
        }
        out.push(chosen);
        proof {
            assert(out@ == before_o.push(before_r[idx as int]));
            assert(remaining@.to_multiset() == before_r.to_multiset().remove(before_r[idx as int]));
            assert(out@.to_multiset() == before_o.to_multiset().insert(before_r[idx as int]));
            assert(before_r.to_multiset().count(before_r[idx as int]) > 0) by {
                assert(before_r.contains(before_r[idx as int]));
            }
            assert(out@.to_multiset().add(remaining@.to_multiset()) =~= all);
            assert forall|i: int, j: int| 0 <= i < out@.len() && 0 <= j < remaining@.len() implies out@[i].priority
                <= remaining@[j].priority by {
                let jj = if j < idx { j } else { j + 1 };
                assert(remaining@[j] == before_r[jj]);
                if i < before_o.len() {
                    assert(before_o[i].priority <= before_r[jj].priority);
                } else {
                    assert(before_r[jj].priority >= p);
                }
            }
            assert forall|i: int, j: int| 0 <= i < j < out@.len() implies out@[i].priority
                <= out@[j].priority by {
                if j == before_o.len() {
                    assert(before_o[i].priority <= before_r[idx as int].priority);
                } else {
                    assert(before_o[i].priority <= before_o[j].priority);
                }
            }
        }
        proof {
            assert(srv_order(before_r, draws@, k as int) == seq![before_r[idx as int]] + srv_order(
                remaining@,
                draws@,
                k + 1,
            ));
            assert(before_o + (seq![before_r[idx as int]] + srv_order(remaining@, draws@, k + 1))
                =~= out@ + srv_order(remaining@, draws@, k + 1));
        }
        k = k + 1;
    }
    proof {
        assert(out@ + Seq::<SrvRecord>::empty() =~= out@);
        assert(remaining@.to_multiset().len() == 0);
        assert(remaining@.to_multiset() =~= vstd::multiset::Multiset::empty());
        assert(out@.to_multiset().add(vstd::multiset::Multiset::empty()) =~= out@.to_multiset());
    }
    out
}

/// Every target of an SRV answer is in the order of attempts, so it is tried
/// unless a target before it was reached.
pub proof fn lemma_every_target_tried(records: Seq<SrvRecord>, order: Seq<SrvRecord>, t: SrvRecord)
    requires
        order.to_multiset() == records.to_multiset(),
        records.contains(t),
    ensures
        order.contains(t),
{
    vstd::seq_lib::to_multiset_contains(records, t);
    vstd::seq_lib::to_multiset_contains(order, t);
}

/// The addresses of a target in the order they are tried: IPv6 and IPv4
/// alternate, IPv6 first; `(true, i)` is the `i`-th IPv6 address, `(false, i)`
/// the `i`-th IPv4 one.
pub open spec fn attempt_at(n6: nat, n4: nat, k: int) -> (bool, int) {
    let m = if n6 < n4 {
        n6
    } else {
        n4
    };
    if k < 2 * m {
        (k % 2 == 0, k / 2)
    } else if n6 > n4 {
        (true, k - m)
    } else {
        (false, k - m)
    }
}

/// The order in which `n6` IPv6 and `n4` IPv4 addresses are tried.
pub fn attempt_order(n6: usize, n4: usize) -> (r: Vec<(bool, usize)>)
    requires
        n6 + n4 <= usize::MAX,
    ensures
        r@.len() == n6 + n4,
        forall|k: int| 0 <= k < r@.len() ==> (#[trigger] r@[k]).0 == attempt_at(n6 as nat, n4 as nat, k).0
            && r@[k].1 as int == attempt_at(n6 as nat, n4 as nat, k).1,
{
    let m = if n6 < n4 {
        n6
    } else {
        n4
    };
    let mut r: Vec<(bool, usize)> = Vec::new();
    let mut i: usize = 0;
    while i < m
        invariant
            m == (if n6 < n4 { n6 } else { n4 }),
            i <= m,
            r@.len() == 2 * i,
            forall|k: int| 0 <= k < r@.len() ==> (#[trigger] r@[k]).0 == attempt_at(n6 as nat, n4 as nat, k).0
                && r@[k].1 as int == attempt_at(n6 as nat, n4 as nat, k).1,
        decreases m - i,
    {
        r.push((true, i));
        r.push((false, i));
        i = i + 1;
    }
    let mut j: usize = m;
    let rest = if n6 > n4 {
        n6
    } else {
        n4
    };
    while j < rest
        invariant
            m == (if n6 < n4 { n6 } else { n4 }),
            rest == (if n6 > n4 { n6 } else { n4 }),
            m <= j <= rest,
            r@.len() == m + j,
            forall|k: int| 0 <= k < r@.len() ==> (#[trigger] r@[k]).0 == attempt_at(n6 as nat, n4 as nat, k).0
                && r@[k].1 as int == attempt_at(n6 as nat, n4 as nat, k).1,
        decreases rest - j,
    {
        r.push((n6 > n4, j));
        j = j + 1;
    }
    r
}

} // verus!
