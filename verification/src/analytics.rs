//! Surplus analytics of competing settlements.
//!
//! After an auction is decided, the winning settlement is compared with
//! the alternative solutions: which orders others matched that the
//! winner does not settle, and how much surplus the best alternative
//! would have achieved per order. The caller feeds the findings to its
//! bookkeeping.

use vstd::prelude::*;
use crate::order::{Address, OrderUid};
use crate::settlement::Settlement;

verus! {

/// An exact surplus ratio: numerator over denominator.
#[derive(Clone, Copy, Debug, PartialEq, Eq, Structural)]
pub struct Ratio {
    pub numer: u64,
    pub denom: u64,
}

/// `a` is a strictly smaller ratio than `b`, by cross multiplication.
pub open spec fn ratio_lt(a: Ratio, b: Ratio) -> bool {
    a.numer * b.denom < b.numer * a.denom
}

/// The surplus one solver's settlement achieves for one order.
#[derive(Clone, Copy, Debug, PartialEq, Eq, Structural)]
pub struct SurplusInfo {
    pub solver: Address,
    pub ratio: Ratio,
}

impl SurplusInfo {
    /// Strictly more surplus than the other.
    pub fn is_better_than(&self, other: &SurplusInfo) -> (r: bool)
        ensures
            r == ratio_lt(other.ratio, self.ratio),
    {
        proof {
            assert((self.ratio.numer as int) * (other.ratio.denom as int) <= 0xffff_ffff_ffff_ffff
                * 0xffff_ffff_ffff_ffff) by (nonlinear_arith)
                requires
                    self.ratio.numer as int <= 0xffff_ffff_ffff_ffff,
                    other.ratio.denom as int <= 0xffff_ffff_ffff_ffff,
            ;
            assert((other.ratio.numer as int) * (self.ratio.denom as int) <= 0xffff_ffff_ffff_ffff
                * 0xffff_ffff_ffff_ffff) by (nonlinear_arith)
                requires
                    other.ratio.numer as int <= 0xffff_ffff_ffff_ffff,
                    self.ratio.denom as int <= 0xffff_ffff_ffff_ffff,
            ;
        }
        (self.ratio.numer as u128) * (other.ratio.denom as u128) > (other.ratio.numer as u128)
            * (self.ratio.denom as u128)
    }
}

/// The settlement holds a trade of this order.
pub open spec fn trades_order(s: Settlement, uid: OrderUid) -> bool {
    exists|i: int|
        0 <= i < s.trades@.len() && (#[trigger] s.trades@[i]).order.metadata.uid == uid
}

/// One of the first `n` trades is of this order.
pub open spec fn trades_order_upto(s: Settlement, n: int, uid: OrderUid) -> bool {
    exists|i: int| 0 <= i < n && i < s.trades@.len() && (#[trigger] s.trades@[i]).order.metadata.uid == uid
}

/// Some settlement of the list holds a trade of this order.
pub open spec fn any_trades_order(settlements: Seq<Settlement>, uid: OrderUid) -> bool {
    exists|k: int| 0 <= k < settlements.len() && trades_order(#[trigger] settlements[k], uid)
}

fn settlement_trades(s: &Settlement, uid: OrderUid) -> (r: bool)
    ensures
        r == trades_order(*s, uid),
{
    let mut i: usize = 0;
    while i < s.trades.len()
        invariant
            0 <= i <= s.trades@.len(),
            forall|k: int| 0 <= k < i ==> (#[trigger] s.trades@[k]).order.metadata.uid != uid,
        decreases s.trades@.len() - i,
    {
        if s.trades[i].order.metadata.uid == uid {
            return true;
        }
        i = i + 1;
    }
    false
}

fn uid_list_contains(uids: &Vec<OrderUid>, uid: OrderUid) -> (r: bool)
    ensures
        r == uids@.contains(uid),
{
    let mut i: usize = 0;
    while i < uids.len()
        invariant
            0 <= i <= uids@.len(),
            forall|k: int| 0 <= k < i ==> uids@[k] != uid,
        decreases uids@.len() - i,
    {
        if uids[i] == uid {
            return true;
        }
        i = i + 1;
    }
    false
}

/// The orders that alternative solutions matched but the winning
/// solution does not settle, without duplicates; the caller reports
/// their number.
pub fn report_matched_but_not_settled(
    winning_solution: &Settlement,
    alternative_settlements: &Vec<Settlement>,
) -> (matched_but_not_settled: Vec<OrderUid>)
    ensures
        forall|uid: OrderUid| #[trigger]
            matched_but_not_settled@.contains(uid) <==> (any_trades_order(
                alternative_settlements@,
                uid,
            ) && !trades_order(*winning_solution, uid)),
        forall|x: int, y: int|
            0 <= x < y < matched_but_not_settled@.len() ==> matched_but_not_settled@[x]
                != matched_but_not_settled@[y],
{
    let alts = alternative_settlements;
    let mut out: Vec<OrderUid> = Vec::new();
    let mut k: usize = 0;
    while k < alts.len()
        invariant
            0 <= k <= alts@.len(),
            forall|uid: OrderUid| #[trigger]
                out@.contains(uid) <==> (any_trades_order(alts@.take(k as int), uid)
                    && !trades_order(*winning_solution, uid)),
            forall|x: int, y: int| 0 <= x < y < out@.len() ==> out@[x] != out@[y],
        decreases alts@.len() - k,
    {
        let m = alts[k].trades.len();
        let mut i: usize = 0;
        while i < m
            invariant
                0 <= i <= m,
                0 <= k < alts@.len(),
                m == alts@[k as int].trades@.len(),
                forall|uid: OrderUid| #[trigger]
                    out@.contains(uid) <==> ((any_trades_order(alts@.take(k as int), uid)
                        || trades_order_upto(alts@[k as int], i as int, uid)) && !trades_order(
                        *winning_solution,
                        uid,
                    )),
                forall|x: int, y: int| 0 <= x < y < out@.len() ==> out@[x] != out@[y],
            decreases m - i,
        {
            let uid = alts[k].trades[i].order.metadata.uid;
            let ghost before = out@;
            if !settlement_trades(winning_solution, uid) && !uid_list_contains(&out, uid) {
                out.push(uid);
            }
            proof {
                assert(trades_order_upto(alts@[k as int], i + 1, uid)) by {
                    assert((#[trigger] alts@[k as int].trades@[i as int]).order.metadata.uid
                        == uid);
                }
                assert forall|u: OrderUid| #[trigger]
                    out@.contains(u) <==> ((any_trades_order(alts@.take(k as int), u)
                        || trades_order_upto(alts@[k as int], i + 1, u)) && !trades_order(
                        *winning_solution,
                        u,
                    )) by {
                    if u != uid {
                        assert(trades_order_upto(alts@[k as int], i + 1, u)
                            == trades_order_upto(alts@[k as int], i as int, u)) by {
                            if trades_order_upto(alts@[k as int], i + 1, u) {
                                let w = choose|w: int|
                                    0 <= w < i + 1 && w < alts@[k as int].trades@.len() && (
                                    #[trigger] alts@[k as int].trades@[w]).order.metadata.uid
                                        == u;
                                assert(w < i);
                            }
                        }
                        if out@ != before {
                            assert(out@ == before.push(uid));
                            assert(out@.contains(u) == before.contains(u)) by {
                                if before.contains(u) {
                                    let w = choose|w: int|
                                        0 <= w < before.len() && before[w] == u;
                                    assert(out@[w] == u);
                                }
                                if out@.contains(u) {
                                    let w = choose|w: int|
                                        0 <= w < out@.len() && out@[w] == u;
                                    assert(w < before.len());
                                    assert(before[w] == u);
                                }
                            }
                        }
                    } else {
                        if out@ != before {
                            assert(out@ == before.push(uid));
                            assert(out@[out@.len() - 1] == uid);
                        }
                    }
                }
            }
            i = i + 1;
        }
        proof {
            assert forall|u: OrderUid|
                (any_trades_order(alts@.take(k + 1), u) == (any_trades_order(
                    alts@.take(k as int),
                    u,
                ) || trades_order_upto(alts@[k as int], m as int, u))) by {
                if any_trades_order(alts@.take(k + 1), u) {
                    let w = choose|w: int|
                        0 <= w < k + 1 && trades_order(#[trigger] alts@.take(k + 1)[w], u);
                    if w < k {
                        assert(trades_order(#[trigger] alts@.take(k as int)[w], u));
                    } else {
                        assert(alts@.take(k + 1)[w] == alts@[k as int]);
                        let kk = k as int;
                        let t = choose|t: int|
                            0 <= t < alts@[kk].trades@.len() && (
                            #[trigger] alts@[kk].trades@[t]).order.metadata.uid == u;
                        assert(trades_order_upto(alts@[k as int], m as int, u));
                    }
                }
                if any_trades_order(alts@.take(k as int), u) {
                    let w = choose|w: int|
                        0 <= w < k && trades_order(#[trigger] alts@.take(k as int)[w], u);
                    assert(trades_order(#[trigger] alts@.take(k + 1)[w], u));
                }
                if trades_order_upto(alts@[k as int], m as int, u) {
                    assert(trades_order(#[trigger] alts@.take(k + 1)[k as int], u));
                }
            }
        }
        k = k + 1;
    }
    proof {
        assert(alts@.take(alts@.len() as int) =~= alts@);
    }
    out
}

/// The first surplus recorded for an order.
pub open spec fn surplus_for(table: Seq<(OrderUid, SurplusInfo)>, uid: OrderUid) -> Option<
    SurplusInfo,
>
    decreases table.len(),
{
    if table.len() == 0 {
        None
    } else if table[0].0 == uid {
        Some(table[0].1)
    } else {
        surplus_for(table.drop_first(), uid)
    }
}

/// The table with the order's entry replaced.
pub open spec fn replace_surplus(
    table: Seq<(OrderUid, SurplusInfo)>,
    uid: OrderUid,
    info: SurplusInfo,
) -> Seq<(OrderUid, SurplusInfo)> {
    table.map_values(|p: (OrderUid, SurplusInfo)| if p.0 == uid { (p.0, info) } else { p })
}

/// The table after considering one more rated order: a new order is
/// appended; a known one is overwritten — always, or only when the new
/// ratio is strictly better.
pub open spec fn upsert_surplus(
    table: Seq<(OrderUid, SurplusInfo)>,
    uid: OrderUid,
    info: SurplusInfo,
    only_if_better: bool,
) -> Seq<(OrderUid, SurplusInfo)> {
    match surplus_for(table, uid) {
        Some(existing) => if !only_if_better || ratio_lt(existing.ratio, info.ratio) {
            replace_surplus(table, uid, info)
        } else {
            table
        },
        None => table.push((uid, info)),
    }
}

/// The table after considering a solver's rated orders, in order.
pub open spec fn fold_rated(
    table: Seq<(OrderUid, SurplusInfo)>,
    solver: Address,
    rated: Seq<(OrderUid, Ratio)>,
    only_if_better: bool,
) -> Seq<(OrderUid, SurplusInfo)>
    decreases rated.len(),
{
    if rated.len() == 0 {
        table
    } else {
        fold_rated(
            upsert_surplus(
                table,
                rated[0].0,
                SurplusInfo { solver, ratio: rated[0].1 },
                only_if_better,
            ),
            solver,
            rated.drop_first(),
            only_if_better,
        )
    }
}

/// The table after considering every settlement, in order.
pub open spec fn fold_settlements(
    table: Seq<(OrderUid, SurplusInfo)>,
    settlements: Seq<(Address, Vec<(OrderUid, Ratio)>)>,
    only_if_better: bool,
) -> Seq<(OrderUid, SurplusInfo)>
    decreases settlements.len(),
{
    if settlements.len() == 0 {
        table
    } else {
        fold_settlements(
            fold_rated(table, settlements[0].0, settlements[0].1@, only_if_better),
            settlements.drop_first(),
            only_if_better,
        )
    }
}

/// Every order appears at most once in the table.
pub open spec fn distinct_orders(table: Seq<(OrderUid, SurplusInfo)>) -> bool {
    forall|x: int, y: int|
        0 <= x < y < table.len() ==> (#[trigger] table[x]).0 != (#[trigger] table[y]).0
}

proof fn lemma_surplus_for_index(table: Seq<(OrderUid, SurplusInfo)>, uid: OrderUid, i: int)
    requires
        0 <= i < table.len(),
        table[i].0 == uid,
        forall|k: int| 0 <= k < i ==> (#[trigger] table[k]).0 != uid,
    ensures
        surplus_for(table, uid) == Some(table[i].1),
    decreases i,
{
    if i > 0 {
        lemma_surplus_for_index(table.drop_first(), uid, i - 1);
    }
}

proof fn lemma_surplus_for_none(table: Seq<(OrderUid, SurplusInfo)>, uid: OrderUid)
    requires
        forall|k: int| 0 <= k < table.len() ==> (#[trigger] table[k]).0 != uid,
    ensures
        surplus_for(table, uid) is None,
    decreases table.len(),
{
    if table.len() > 0 {
        lemma_surplus_for_none(table.drop_first(), uid);
    }
}

fn find_surplus_index(table: &Vec<(OrderUid, SurplusInfo)>, uid: OrderUid) -> (r: Option<usize>)
    ensures
        match r {
            Some(i) => i < table@.len() && table@[i as int].0 == uid && surplus_for(table@, uid)
                == Some(table@[i as int].1) && forall|k: int|
                0 <= k < i ==> (#[trigger] table@[k]).0 != uid,
            None => surplus_for(table@, uid) is None && forall|k: int|
                0 <= k < table@.len() ==> (#[trigger] table@[k]).0 != uid,
        },
{
    let mut i: usize = 0;
    while i < table.len()
        invariant
            0 <= i <= table@.len(),
            forall|k: int| 0 <= k < i ==> (#[trigger] table@[k]).0 != uid,
        decreases table@.len() - i,
    {
        if table[i].0 == uid {
            proof {
                lemma_surplus_for_index(table@, uid, i as int);
            }
            return Some(i);
        }
        i = i + 1;
    }
    proof {
        lemma_surplus_for_none(table@, uid);
    }
    None
}

/// Applies one upsert to the table.
fn upsert_surplus_entry(
    table: &mut Vec<(OrderUid, SurplusInfo)>,
    uid: OrderUid,
    info: SurplusInfo,
    only_if_better: bool,
)
    requires
        distinct_orders(old(table)@),
    ensures
        distinct_orders(final(table)@),
        final(table)@ == upsert_surplus(old(table)@, uid, info, only_if_better),
{
    let ghost pre = table@;
    match find_surplus_index(table, uid) {
        Some(i) => {
            let replace = if only_if_better {
                let existing = table[i].1;
                info.is_better_than(&existing)
            } else {
                true
            };
            if replace {
                table.remove(i);
                table.insert(i, (uid, info));
                proof {
                    assert(table@ =~= pre.update(i as int, (uid, info)));
                    assert(table@ =~= replace_surplus(pre, uid, info));
                    assert forall|x: int, y: int|
                        0 <= x < y < table@.len() implies (#[trigger] table@[x]).0 != (
                    #[trigger] table@[y]).0 by {
                        assert(table@[x].0 == pre[x].0);
                        assert(table@[y].0 == pre[y].0);
                    }
                }
            }
        },
        None => {
            table.push((uid, info));
            proof {
                assert forall|x: int, y: int|
                    0 <= x < y < table@.len() implies (#[trigger] table@[x]).0 != (
                #[trigger] table@[y]).0 by {
                    if y < pre.len() {
                        assert(table@[x] == pre[x]);
                        assert(table@[y] == pre[y]);
                    } else {
                        assert(table@[x] == pre[x]);
                        assert(table@[y].0 == uid);
                    }
                }
            }
        },
    }
}

/// For each order of any settlement, the surplus of the solver that
/// achieves the most for it; on a tie the earlier solver keeps the
/// entry.
pub fn best_surplus_by_order(settlements: &Vec<(Address, Vec<(OrderUid, Ratio)>)>) -> (best: Vec<
    (OrderUid, SurplusInfo),
>)
    ensures
        best@ == fold_settlements(Seq::empty(), settlements@, true),
        distinct_orders(best@),
{
    let mut best: Vec<(OrderUid, SurplusInfo)> = Vec::new();
    let ghost target = fold_settlements(Seq::<(OrderUid, SurplusInfo)>::empty(), settlements@, true);
    let n = settlements.len();
    let mut k: usize = 0;
    proof {
        assert(settlements@.skip(0) =~= settlements@);
    }
    while k < n
        invariant
            0 <= k <= n,
            n == settlements@.len(),
            distinct_orders(best@),
            target == fold_settlements(Seq::empty(), settlements@, true),
            target == fold_settlements(best@, settlements@.skip(k as int), true),
        decreases n - k,
    {
        let solver = settlements[k].0;
        let m = settlements[k].1.len();
        let ghost rated = settlements@[k as int].1@;
        let mut i: usize = 0;
        proof {
            assert(settlements@.skip(k as int)[0] == settlements@[k as int]);
            assert(settlements@.skip(k as int).drop_first() =~= settlements@.skip(k + 1));
            assert(rated.skip(0) =~= rated);
        }
        while i < m
            invariant
                0 <= i <= m,
                0 <= k < n,
                n == settlements@.len(),
                m == rated.len(),
                rated == settlements@[k as int].1@,
                solver == settlements@[k as int].0,
                distinct_orders(best@),
                target == fold_settlements(Seq::empty(), settlements@, true),
                target == fold_settlements(
                    fold_rated(best@, solver, rated.skip(i as int), true),
                    settlements@.skip(k + 1),
                    true,
                ),
            decreases m - i,
        {
            let entry = settlements[k].1[i];
            proof {
                assert(rated.skip(i as int)[0] == rated[i as int]);
                assert(rated.skip(i as int).drop_first() =~= rated.skip(i + 1));
            }
            upsert_surplus_entry(
                &mut best,
                entry.0,
                SurplusInfo { solver, ratio: entry.1 },
                true,
            );
            i = i + 1;
        }
        proof {
            assert(rated.skip(m as int) =~= Seq::<(OrderUid, Ratio)>::empty());
        }
        k = k + 1;
    }
    proof {
        assert(settlements@.skip(n as int) =~= Seq::<(Address, Vec<(OrderUid, Ratio)>)>::empty());
    }
    best
}

/// One reported comparison: an order the winner settled for which some
/// alternative solution also achieved surplus.
#[derive(Clone, Copy, Debug, PartialEq, Eq, Structural)]
pub struct SurplusComparison {
    pub order: OrderUid,
    pub submitted: SurplusInfo,
    pub alternative: SurplusInfo,
}

/// The comparisons for a submitted-surplus table against the best
/// alternatives, in table order.
pub open spec fn comparisons_spec(
    submitted: Seq<(OrderUid, SurplusInfo)>,
    best: Seq<(OrderUid, SurplusInfo)>,
) -> Seq<SurplusComparison>
    decreases submitted.len(),
{
    if submitted.len() == 0 {
        Seq::empty()
    } else {
        let rest = comparisons_spec(submitted.drop_last(), best);
        match surplus_for(best, submitted.last().0) {
            Some(alternative) => rest.push(
                SurplusComparison {
                    order: submitted.last().0,
                    submitted: submitted.last().1,
                    alternative,
                },
            ),
            None => rest,
        }
    }
}

/// Compares the surplus the winning settlement achieves per order with
/// the best surplus any alternative solution would have achieved: one
/// comparison for every submitted order some alternative also matched.
/// The caller reports the differences and logs the alternatives that
/// were better.
pub fn report_alternative_settlement_surplus(
    winning_solver: Address,
    submitted: &Vec<(OrderUid, Ratio)>,
    alternative_settlements: &Vec<(Address, Vec<(OrderUid, Ratio)>)>,
) -> (comparisons: Vec<SurplusComparison>)
    ensures
        comparisons@ == comparisons_spec(
            fold_rated(Seq::empty(), winning_solver, submitted@, false),
            fold_settlements(Seq::empty(), alternative_settlements@, true),
        ),
{
    // The winner's surplus per order; a later trade of the same order
    // overwrites an earlier one.
    let mut submitted_surplus: Vec<(OrderUid, SurplusInfo)> = Vec::new();
    let n = submitted.len();
    let mut i: usize = 0;
    proof {
        assert(submitted@.skip(0) =~= submitted@);
    }
    while i < n
        invariant
            0 <= i <= n,
            n == submitted@.len(),
            distinct_orders(submitted_surplus@),
            fold_rated(Seq::empty(), winning_solver, submitted@, false) == fold_rated(
                submitted_surplus@,
                winning_solver,
                submitted@.skip(i as int),
                false,
            ),
        decreases n - i,
    {
        let entry = submitted[i];
        proof {
            assert(submitted@.skip(i as int)[0] == submitted@[i as int]);
            assert(submitted@.skip(i as int).drop_first() =~= submitted@.skip(i + 1));
        }
        upsert_surplus_entry(
            &mut submitted_surplus,
            entry.0,
            SurplusInfo { solver: winning_solver, ratio: entry.1 },
            false,
        );
        i = i + 1;
    }
    proof {
        assert(submitted@.skip(n as int) =~= Seq::<(OrderUid, Ratio)>::empty());
    }

    let best_alternative = best_surplus_by_order(alternative_settlements);

    let mut comparisons: Vec<SurplusComparison> = Vec::new();
    let ghost table = submitted_surplus@;
    let m = submitted_surplus.len();
    let mut j: usize = 0;
    while j < m
        invariant
            0 <= j <= m,
            m == table.len(),
            table == submitted_surplus@,
            best_alternative@ == fold_settlements(Seq::empty(), alternative_settlements@, true),
            comparisons@ == comparisons_spec(table.take(j as int), best_alternative@),
        decreases m - j,
    {
        let (order, submitted_info) = submitted_surplus[j];
        proof {
            assert(table.take(j + 1).drop_last() =~= table.take(j as int));
            assert(table.take(j + 1).last() == table[j as int]);
        }
        match find_surplus_index(&best_alternative, order) {
            Some(b) => {
                let alternative = best_alternative[b].1;
                comparisons.push(SurplusComparison { order, submitted: submitted_info, alternative });
            },
            None => {},
        }
        j = j + 1;
    }
    proof {
        assert(table.take(m as int) =~= table);
    }
    comparisons
}

} // verus!
