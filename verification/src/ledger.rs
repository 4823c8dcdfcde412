//! The balance ledger: a keyed, additive accumulator from canonical address
//! strings to signed cumulative balances.  Applying a block of transfers
//! subtracts each amount under the sender's key and adds it under the
//! recipient's key, then yields one before/after delta per touched key, in
//! first-touch order, with block-local ordinals.

use vstd::prelude::*;
use crate::numeric::{
    is_int_str, int_val, val_or_zero, dec_rep, lemma_dec_rep, big_add, big_sub, or_zero,
    zero_string,
};
use crate::records::{TransferRecord, TransferV, LedgerDelta, DeltaV, Operation};

verus! {

/// The mathematical content of a ledger: its (address, balance string) pairs.
pub type LedgerPairs = Seq<(Seq<char>, Seq<char>)>;

/// Addresses are unique and every stored balance is a well-formed integer
/// string.
pub open spec fn wf_pairs(pairs: LedgerPairs) -> bool {
    &&& forall|i: int, j: int|
        #![trigger pairs[i].0, pairs[j].0]
        0 <= i < j < pairs.len() ==> pairs[i].0 != pairs[j].0
    &&& forall|i: int| 0 <= i < pairs.len() ==> is_int_str((#[trigger] pairs[i]).1)
}

/// Whether the ledger holds an entry for `addr`.
pub open spec fn lhas(pairs: LedgerPairs, addr: Seq<char>) -> bool {
    exists|i: int| 0 <= i < pairs.len() && (#[trigger] pairs[i]).0 == addr
}

/// The stored balance string for `addr`; an absent key reads as `"0"`.
pub open spec fn lbal(pairs: LedgerPairs, addr: Seq<char>) -> Seq<char> {
    if lhas(pairs, addr) {
        let i = choose|i: int| 0 <= i < pairs.len() && (#[trigger] pairs[i]).0 == addr;
        pairs[i].1
    } else {
        seq!['0']
    }
}

/// The numeric balance for `addr`.
pub open spec fn lval(pairs: LedgerPairs, addr: Seq<char>) -> int {
    val_or_zero(lbal(pairs, addr))
}

/// What one transfer contributes to the balance of `addr`: `+amount` when
/// `addr` receives, `-amount` when it sends, a malformed amount counting as
/// zero.
pub open spec fn transfer_effect(t: TransferV, addr: Seq<char>) -> int {
    (if t.to == addr {
        val_or_zero(t.amount)
    } else {
        0
    }) - (if t.from == addr {
        val_or_zero(t.amount)
    } else {
        0
    })
}

/// The net balance change of `addr` over a block of transfers.
pub open spec fn net_change(ts: Seq<TransferV>, addr: Seq<char>) -> int
    decreases ts.len(),
{
    if ts.len() == 0 {
        0
    } else {
        net_change(ts.drop_last(), addr) + transfer_effect(ts.last(), addr)
    }
}

/// The addresses a block touches, in first-touch order: for each transfer in
/// turn, its sender and then its recipient, each recorded once.
pub open spec fn touched_addrs(ts: Seq<TransferV>) -> Seq<Seq<char>>
    decreases ts.len(),
{
    if ts.len() == 0 {
        Seq::empty()
    } else {
        let prev = touched_addrs(ts.drop_last());
        let t = ts.last();
        let with_from = if prev.contains(t.from) {
            prev
        } else {
            prev.push(t.from)
        };
        if with_from.contains(t.to) {
            with_from
        } else {
            with_from.push(t.to)
        }
    }
}

/// The deltas a block of transfers produces against a ledger state: one per
/// touched address, in first-touch order, with the position as ordinal.
pub open spec fn spec_block_deltas(pairs: LedgerPairs, ts: Seq<TransferV>) -> Seq<DeltaV> {
    let tl = touched_addrs(ts);
    Seq::new(
        tl.len(),
        |i: int|
            DeltaV {
                address: tl[i],
                old_value: lbal(pairs, tl[i]),
                new_value: dec_rep(lval(pairs, tl[i]) + net_change(ts, tl[i])),
                ordinal: i,
                op: if lhas(pairs, tl[i]) {
                    Operation::Update
                } else {
                    Operation::Create
                },
            },
    )
}

proof fn lemma_contains_push(s: Seq<Seq<char>>, x: Seq<char>, a: Seq<char>)
    ensures
        s.push(x).contains(a) <==> (s.contains(a) || a == x),
{
    if s.contains(a) {
        let i = choose|i: int| 0 <= i < s.len() && s[i] == a;
        assert(s.push(x)[i] == a);
    }
    if a == x {
        assert(s.push(x)[s.len() as int] == a);
    }
    if s.push(x).contains(a) && a != x {
        let i = choose|i: int| 0 <= i < s.push(x).len() && s.push(x)[i] == a;
        assert(i < s.len());
        assert(s[i] == a);
    }
}

/// A block only extends the touched-address list, and every sender and
/// recipient of the block's last transfer is on it.
proof fn lemma_touched_extends(ts: Seq<TransferV>)
    requires
        ts.len() > 0,
    ensures
        forall|x: Seq<char>|
            touched_addrs(ts.drop_last()).contains(x) ==> #[trigger] touched_addrs(ts).contains(x),
        touched_addrs(ts).contains(ts.last().from),
        touched_addrs(ts).contains(ts.last().to),
{
    let prev = touched_addrs(ts.drop_last());
    let t = ts.last();
    let with_from = if prev.contains(t.from) {
        prev
    } else {
        prev.push(t.from)
    };
    assert forall|x: Seq<char>| prev.contains(x) implies #[trigger] touched_addrs(ts).contains(
        x,
    ) by {
        lemma_contains_push(prev, t.from, x);
        lemma_contains_push(with_from, t.to, x);
    }
    lemma_contains_push(prev, t.from, t.from);
    lemma_contains_push(with_from, t.to, t.from);
    lemma_contains_push(with_from, t.to, t.to);
}

/// The touched-address list never repeats an address.
proof fn lemma_touched_no_dup(ts: Seq<TransferV>)
    ensures
        touched_addrs(ts).no_duplicates(),
    decreases ts.len(),
{
    if ts.len() > 0 {
        lemma_touched_no_dup(ts.drop_last());
        let prev = touched_addrs(ts.drop_last());
        let t = ts.last();
        let with_from = if prev.contains(t.from) {
            prev
        } else {
            prev.push(t.from)
        };
        if !prev.contains(t.from) {
            assert forall|i: int, j: int|
                0 <= i < j < with_from.len() implies with_from[i] != with_from[j] by {
                if j == with_from.len() - 1 {
                    assert(with_from[i] == prev[i]);
                    assert(prev[i] != t.from);
                }
            }
        }
        assert(with_from.no_duplicates());
        let whole = touched_addrs(ts);
        if !with_from.contains(t.to) {
            assert forall|i: int, j: int|
                0 <= i < j < whole.len() implies whole[i] != whole[j] by {
                if j == whole.len() - 1 {
                    assert(whole[i] == with_from[i]);
                    assert(with_from[i] != t.to);
                }
            }
        }
        assert(whole.no_duplicates());
    }
}

/// An address a block never touches sees no net change from it.
proof fn lemma_net_change_untouched(ts: Seq<TransferV>, addr: Seq<char>)
    requires
        !touched_addrs(ts).contains(addr),
    ensures
        net_change(ts, addr) == 0,
    decreases ts.len(),
{
    if ts.len() > 0 {
        lemma_touched_extends(ts);
        assert(!touched_addrs(ts.drop_last()).contains(addr));
        lemma_net_change_untouched(ts.drop_last(), addr);
        assert(addr != ts.last().from);
        assert(addr != ts.last().to);
    }
}

/// The sum, over a list of addresses, of what one transfer contributes to
/// each.
pub open spec fn sum_effect(t: TransferV, addrs: Seq<Seq<char>>) -> int
    decreases addrs.len(),
{
    if addrs.len() == 0 {
        0
    } else {
        sum_effect(t, addrs.drop_last()) + transfer_effect(t, addrs.last())
    }
}

/// The sum, over a list of addresses, of the net change of each.
pub open spec fn sum_net(ts: Seq<TransferV>, addrs: Seq<Seq<char>>) -> int
    decreases addrs.len(),
{
    if addrs.len() == 0 {
        0
    } else {
        sum_net(ts, addrs.drop_last()) + net_change(ts, addrs.last())
    }
}

/// The sum, over a list of addresses, of `amt` at each occurrence of `x`.
spec fn sum_ind(addrs: Seq<Seq<char>>, x: Seq<char>, amt: int) -> int
    decreases addrs.len(),
{
    if addrs.len() == 0 {
        0
    } else {
        sum_ind(addrs.drop_last(), x, amt) + if addrs.last() == x {
            amt
        } else {
            0
        }
    }
}

proof fn lemma_sum_effect_split(t: TransferV, addrs: Seq<Seq<char>>)
    ensures
        sum_effect(t, addrs) == sum_ind(addrs, t.to, val_or_zero(t.amount)) - sum_ind(
            addrs,
            t.from,
            val_or_zero(t.amount),
        ),
    decreases addrs.len(),
{
    if addrs.len() > 0 {
        lemma_sum_effect_split(t, addrs.drop_last());
    }
}

proof fn lemma_sum_ind_absent(addrs: Seq<Seq<char>>, x: Seq<char>, amt: int)
    requires
        !addrs.contains(x),
    ensures
        sum_ind(addrs, x, amt) == 0,
    decreases addrs.len(),
{
    if addrs.len() > 0 {
        assert(forall|i: int| 0 <= i < addrs.len() ==> addrs[i] != x);
        assert(!addrs.drop_last().contains(x)) by {
            assert(forall|i: int|
                0 <= i < addrs.drop_last().len() ==> #[trigger] addrs.drop_last()[i] == addrs[i]);
        }
        lemma_sum_ind_absent(addrs.drop_last(), x, amt);
        assert(addrs.last() != x);
    }
}

proof fn lemma_sum_ind_unique(addrs: Seq<Seq<char>>, x: Seq<char>, amt: int)
    requires
        addrs.no_duplicates(),
        addrs.contains(x),
    ensures
        sum_ind(addrs, x, amt) == amt,
    decreases addrs.len(),
{
    let rest = addrs.drop_last();
    assert(forall|i: int| 0 <= i < rest.len() ==> #[trigger] rest[i] == addrs[i]);
    if addrs.last() == x {
        assert(!rest.contains(x)) by {
            if rest.contains(x) {
                let i = choose|i: int| 0 <= i < rest.len() && rest[i] == x;
                assert(addrs[i] == addrs[addrs.len() - 1]);
            }
        }
        lemma_sum_ind_absent(rest, x, amt);
    } else {
        let i = choose|i: int| 0 <= i < addrs.len() && addrs[i] == x;
        assert(i < rest.len());
        assert(rest[i] == x);
        assert(rest.no_duplicates());
        lemma_sum_ind_unique(rest, x, amt);
    }
}

proof fn lemma_sum_net_step(ts: Seq<TransferV>, addrs: Seq<Seq<char>>)
    requires
        ts.len() > 0,
    ensures
        sum_net(ts, addrs) == sum_net(ts.drop_last(), addrs) + sum_effect(ts.last(), addrs),
    decreases addrs.len(),
{
    if addrs.len() > 0 {
        lemma_sum_net_step(ts, addrs.drop_last());
    }
}

/// Mass conservation at the level of touched addresses: over any block, the
/// net changes of all touched addresses sum to zero, since each transfer
/// moves the same quantity out of its sender as into its recipient.
pub proof fn lemma_sum_net_zero(ts: Seq<TransferV>)
    ensures
        sum_net(ts, touched_addrs(ts)) == 0,
    decreases ts.len(),
{
    if ts.len() > 0 {
        let ts2 = ts.drop_last();
        let t = ts.last();
        lemma_sum_net_zero(ts2);
        let prev = touched_addrs(ts2);
        let with_from = if prev.contains(t.from) {
            prev
        } else {
            prev.push(t.from)
        };
        let whole = touched_addrs(ts);
        // The addresses pushed this step were untouched before, so extending
        // the list does not change the sum over the previous transfers.
        if !prev.contains(t.from) {
            assert(with_from.drop_last() =~= prev);
            lemma_net_change_untouched(ts2, t.from);
        }
        assert(sum_net(ts2, with_from) == 0);
        if !with_from.contains(t.to) {
            assert(whole.drop_last() =~= with_from);
            assert(!prev.contains(t.to)) by {
                if prev.contains(t.to) {
                    lemma_contains_push(prev, t.from, t.to);
                }
            }
            lemma_net_change_untouched(ts2, t.to);
        }
        assert(sum_net(ts2, whole) == 0);
        lemma_sum_net_step(ts, whole);
        lemma_sum_effect_split(t, whole);
        lemma_touched_no_dup(ts);
        lemma_touched_extends(ts);
        lemma_sum_ind_unique(whole, t.to, val_or_zero(t.amount));
        lemma_sum_ind_unique(whole, t.from, val_or_zero(t.amount));
    }
}

/// The sum of `new - old` over a sequence of deltas.
pub open spec fn sum_delta_changes(ds: Seq<DeltaV>) -> int
    decreases ds.len(),
{
    if ds.len() == 0 {
        0
    } else {
        sum_delta_changes(ds.drop_last()) + (val_or_zero(ds.last().new_value) - val_or_zero(
            ds.last().old_value,
        ))
    }
}

proof fn lemma_sum_delta_matches(ts: Seq<TransferV>, ds: Seq<DeltaV>, addrs: Seq<Seq<char>>)
    requires
        ds.len() == addrs.len(),
        forall|i: int|
            0 <= i < ds.len() ==> val_or_zero((#[trigger] ds[i]).new_value) - val_or_zero(
                ds[i].old_value,
            ) == net_change(ts, addrs[i]),
    ensures
        sum_delta_changes(ds) == sum_net(ts, addrs),
    decreases ds.len(),
{
    if ds.len() > 0 {
        assert(forall|i: int|
            0 <= i < ds.drop_last().len() ==> #[trigger] ds.drop_last()[i] == ds[i]);
        assert(forall|i: int|
            0 <= i < addrs.drop_last().len() ==> #[trigger] addrs.drop_last()[i] == addrs[i]);
        lemma_sum_delta_matches(ts, ds.drop_last(), addrs.drop_last());
    }
}

/// One stored ledger entry: a canonical address and its balance string.
pub struct LedgerEntry {
    pub address: String,
    pub balance: String,
}

impl View for LedgerEntry {
    type V = (Seq<char>, Seq<char>);

    open spec fn view(&self) -> (Seq<char>, Seq<char>) {
        (self.address@, self.balance@)
    }
}

impl DeepView for LedgerEntry {
    type V = (Seq<char>, Seq<char>);

    open spec fn deep_view(&self) -> (Seq<char>, Seq<char>) {
        self.view()
    }
}

/// The keyed additive balance store.
pub struct BalanceLedger {
    entries: Vec<LedgerEntry>,
}

impl View for BalanceLedger {
    type V = LedgerPairs;

    closed spec fn view(&self) -> LedgerPairs {
        self.entries.deep_view()
    }
}

fn contains_string(v: &Vec<String>, s: &String) -> (r: bool)
    ensures
        r == v.deep_view().contains(s@),
{
    let mut i: usize = 0;
    while i < v.len()
        invariant
            i <= v.len(),
            forall|k: int| 0 <= k < i ==> v.deep_view()[k] != s@,
        decreases v.len() - i,
    {
        if v[i] == *s {
            proof {
                assert(v.deep_view()[i as int] == s@);
            }
            return true;
        }
        i += 1;
    }
    false
}

impl BalanceLedger {
    pub open spec fn wf(&self) -> bool {
        wf_pairs(self@)
    }

    /// An empty ledger: every address reads as zero.
    pub fn new() -> (r: Self)
        ensures
            r.wf(),
            r@.len() == 0,
    {
        BalanceLedger { entries: Vec::new() }
    }

    fn find_entry(&self, addr: &String) -> (r: Option<usize>)
        requires
            self.wf(),
        ensures
            match r {
                Some(i) => i < self@.len() && self@[i as int].0 == addr@ && lhas(self@, addr@)
                    && lbal(self@, addr@) == self@[i as int].1,
                None => !lhas(self@, addr@),
            },
    {
        let mut i: usize = 0;
        while i < self.entries.len()
            invariant
                self.wf(),
                i <= self@.len(),
                self@.len() == self.entries@.len(),
                forall|k: int| 0 <= k < i ==> (#[trigger] self@[k]).0 != addr@,
            decreases self.entries.len() - i,
        {
            if self.entries[i].address == *addr {
                proof {
                    assert(self@[i as int].0 == addr@);
                    let j = choose|j: int| 0 <= j < self@.len() && (#[trigger] self@[j]).0 == addr@;
                    if j != i {
                        assert(self@[j].0 == self@[i as int].0);
                        assert(false);
                    }
                }
                return Some(i);
            }
            i += 1;
        }
        None
    }

    /// The stored balance string for `addr`, or `None` when the address has
    /// never been touched.
    pub fn balance_of(&self, addr: &String) -> (r: Option<String>)
        requires
            self.wf(),
        ensures
            match r {
                Some(s) => lhas(self@, addr@) && s@ == lbal(self@, addr@),
                None => !lhas(self@, addr@),
            },
    {
        match self.find_entry(addr) {
            Some(i) => Some(self.entries[i].balance.clone()),
            None => None,
        }
    }

    /// Stores `value` under `addr`, leaving every other address unchanged.
    pub fn set_balance(&mut self, addr: &String, value: String)
        requires
            old(self).wf(),
            is_int_str(value@),
        ensures
            final(self).wf(),
            lhas(final(self)@, addr@),
            lbal(final(self)@, addr@) == value@,
            forall|a: Seq<char>| a != addr@ ==> #[trigger] lbal(final(self)@, a) == lbal(
                old(self)@,
                a,
            ),
            forall|a: Seq<char>| a != addr@ ==> #[trigger] lhas(final(self)@, a) == lhas(
                old(self)@,
                a,
            ),
    {
        let ghost p1 = self@;
        let ghost vv = value@;
        match self.find_entry(addr) {
            Some(i) => {
                self.entries[i].balance = value;
                proof {
                    let p2 = self@;
                    assert(p2 =~= p1.update(i as int, (p1[i as int].0, vv)));
                    assert(forall|k: int| 0 <= k < p2.len() ==> (#[trigger] p2[k]).0 == p1[k].0);
                    assert(wf_pairs(p2)) by {
                        assert(forall|k: int|
                            0 <= k < p2.len() && k != i ==> (#[trigger] p2[k]).1 == p1[k].1);
                    }
                    assert(p2[i as int].0 == addr@);
                    assert(lhas(p2, addr@));
                    let j = choose|j: int| 0 <= j < p2.len() && (#[trigger] p2[j]).0 == addr@;
                    if j != i {
                        assert(p2[j].0 == p2[i as int].0);
                        assert(false);
                    }
                    assert(lbal(p2, addr@) == vv);
                    assert forall|a: Seq<char>| a != addr@ implies #[trigger] lhas(p2, a) == lhas(
                        p1,
                        a,
                    ) by {
                        if lhas(p1, a) {
                            let k = choose|k: int| 0 <= k < p1.len() && (#[trigger] p1[k]).0 == a;
                            assert(p2[k].0 == a);
                        }
                        if lhas(p2, a) {
                            let k = choose|k: int| 0 <= k < p2.len() && (#[trigger] p2[k]).0 == a;
                            assert(p1[k].0 == a);
                        }
                    }
                    assert forall|a: Seq<char>| a != addr@ implies #[trigger] lbal(p2, a) == lbal(
                        p1,
                        a,
                    ) by {
                        if lhas(p2, a) {
                            let k2 = choose|k: int| 0 <= k < p2.len() && (#[trigger] p2[k]).0 == a;
                            let k1 = choose|k: int| 0 <= k < p1.len() && (#[trigger] p1[k]).0 == a;
                            if k1 != k2 {
                                assert(p1[k1].0 == p1[k2].0);
                                assert(false);
                            }
                            assert(k2 != i);
                            assert(p2[k2].1 == p1[k1].1);
                        }
                    }
                }
            },
            None => {
                let entry = LedgerEntry { address: addr.clone(), balance: value };
                self.entries.push(entry);
                proof {
                    let p2 = self@;
                    assert(p2 =~= p1.push((addr@, vv)));
                    assert(forall|k: int|
                        0 <= k < p1.len() ==> #[trigger] p2[k] == p1[k]);
                    assert forall|k: int| 0 <= k < p1.len() implies (#[trigger] p1[k]).0 != addr@ by {
                        if p1[k].0 == addr@ {
                            assert(lhas(p1, addr@));
                        }
                    }
                    assert(wf_pairs(p2));
                    let n = p1.len() as int;
                    assert(p2[n].0 == addr@);
                    assert(lhas(p2, addr@));
                    let j = choose|j: int| 0 <= j < p2.len() && (#[trigger] p2[j]).0 == addr@;
                    assert(j == n);
                    assert(lbal(p2, addr@) == vv);
                    assert forall|a: Seq<char>| a != addr@ implies #[trigger] lhas(p2, a) == lhas(
                        p1,
                        a,
                    ) by {
                        if lhas(p1, a) {
                            let k = choose|k: int| 0 <= k < p1.len() && (#[trigger] p1[k]).0 == a;
                            assert(p2[k].0 == a);
                        }
                        if lhas(p2, a) {
                            let k = choose|k: int| 0 <= k < p2.len() && (#[trigger] p2[k]).0 == a;
                            assert(k != n);
                            assert(p1[k].0 == a);
                        }
                    }
                    assert forall|a: Seq<char>| a != addr@ implies #[trigger] lbal(p2, a) == lbal(
                        p1,
                        a,
                    ) by {
                        if lhas(p2, a) {
                            let k2 = choose|k: int| 0 <= k < p2.len() && (#[trigger] p2[k]).0 == a;
                            let k1 = choose|k: int| 0 <= k < p1.len() && (#[trigger] p1[k]).0 == a;
                            assert(k2 != n);
                            if k1 != k2 {
                                assert(p1[k1].0 == p1[k2].0);
                                assert(false);
                            }
                        }
                    }
                }
            },
        }
    }
}

/// The exact net balance change of `addr` over a block, as a decimal string.
fn net_change_of(transfers: &Vec<TransferRecord>, addr: &String) -> (r: String)
    ensures
        is_int_str(r@),
        int_val(r@) == net_change(transfers.deep_view(), addr@),
{
    let ghost tsv = transfers.deep_view();
    let mut net = zero_string();
    let mut j: usize = 0;
    while j < transfers.len()
        invariant
            j <= transfers.len(),
            tsv == transfers.deep_view(),
            tsv.len() == transfers@.len(),
            is_int_str(net@),
            int_val(net@) == net_change(tsv.take(j as int), addr@),
        decreases transfers.len() - j,
    {
        let t = &transfers[j];
        proof {
            assert(t@ == tsv[j as int]);
        }
        let ghost before = int_val(net@);
        if t.from == *addr {
            let a = or_zero(t.amount.as_str());
            net = big_sub(net.as_str(), a.as_str());
            proof {
                lemma_dec_rep(before - val_or_zero(tsv[j as int].amount));
            }
        }
        if t.to == *addr {
            let a = or_zero(t.amount.as_str());
            let ghost mid = int_val(net@);
            net = big_add(net.as_str(), a.as_str());
            proof {
                lemma_dec_rep(mid + val_or_zero(tsv[j as int].amount));
            }
        }
        proof {
            assert(tsv.take(j + 1).drop_last() =~= tsv.take(j as int));
            assert(tsv.take(j + 1).last() == tsv[j as int]);
            assert(int_val(net@) == before + transfer_effect(tsv[j as int], addr@));
        }
        j += 1;
    }
    proof {
        assert(tsv.take(tsv.len() as int) =~= tsv);
    }
    net
}

impl BalanceLedger {
    /// Applies one block of transfers in extractor order -- subtracting each
    /// amount under the sender and adding it under the recipient, a malformed
    /// amount counting as zero -- and yields one delta per touched address,
    /// in first-touch order, with the position as ordinal.
    pub fn apply_block(&mut self, transfers: &Vec<TransferRecord>) -> (deltas: Vec<LedgerDelta>)
        requires
            old(self).wf(),
        ensures
            final(self).wf(),
            deltas.deep_view() == spec_block_deltas(old(self)@, transfers.deep_view()),
            forall|a: Seq<char>|
                touched_addrs(transfers.deep_view()).contains(a) ==> #[trigger] lbal(
                    final(self)@,
                    a,
                ) == dec_rep(lval(old(self)@, a) + net_change(transfers.deep_view(), a)),
            forall|a: Seq<char>|
                !touched_addrs(transfers.deep_view()).contains(a) ==> #[trigger] lbal(
                    final(self)@,
                    a,
                ) == lbal(old(self)@, a),
            forall|a: Seq<char>|
                !touched_addrs(transfers.deep_view()).contains(a) ==> #[trigger] lhas(
                    final(self)@,
                    a,
                ) == lhas(old(self)@, a),
    {
        let ghost p0 = self@;
        let ghost tsv = transfers.deep_view();
        // First pass: the touched addresses, in first-touch order.
        let mut touched: Vec<String> = Vec::new();
        let mut i: usize = 0;
        while i < transfers.len()
            invariant
                i <= transfers.len(),
                tsv == transfers.deep_view(),
                tsv.len() == transfers@.len(),
                touched.deep_view() == touched_addrs(tsv.take(i as int)),
            decreases transfers.len() - i,
        {
            let t = &transfers[i];
            proof {
                assert(t@ == tsv[i as int]);
                assert(tsv.take(i + 1).drop_last() =~= tsv.take(i as int));
                assert(tsv.take(i + 1).last() == tsv[i as int]);
            }
            let ghost before = touched.deep_view();
            if !contains_string(&touched, &t.from) {
                touched.push(t.from.clone());
                proof {
                    assert(touched.deep_view() =~= before.push(tsv[i as int].from));
                }
            }
            let ghost mid = touched.deep_view();
            if !contains_string(&touched, &t.to) {
                touched.push(t.to.clone());
                proof {
                    assert(touched.deep_view() =~= mid.push(tsv[i as int].to));
                }
            }
            proof {
                assert(touched.deep_view() == touched_addrs(tsv.take(i + 1)));
            }
            i += 1;
        }
        proof {
            assert(tsv.take(tsv.len() as int) =~= tsv);
        }
        let ghost tl = touched_addrs(tsv);
        proof {
            lemma_touched_no_dup(tsv);
        }
        // Second pass: one delta per touched address.
        let ghost full = spec_block_deltas(p0, tsv);
        let mut deltas: Vec<LedgerDelta> = Vec::new();
        let mut k: usize = 0;
        while k < touched.len()
            invariant
                k <= touched.len(),
                tsv == transfers.deep_view(),
                tl == touched_addrs(tsv),
                tl.no_duplicates(),
                touched.deep_view() == tl,
                touched@.len() == tl.len(),
                full == spec_block_deltas(p0, tsv),
                full.len() == tl.len(),
                self.wf(),
                wf_pairs(p0),
                deltas.deep_view() == full.take(k as int),
                forall|a: Seq<char>|
                    tl.take(k as int).contains(a) ==> #[trigger] lbal(self@, a) == dec_rep(
                        lval(p0, a) + net_change(tsv, a),
                    ),
                forall|a: Seq<char>| tl.take(k as int).contains(a) ==> #[trigger] lhas(self@, a),
                forall|a: Seq<char>|
                    !tl.take(k as int).contains(a) ==> #[trigger] lbal(self@, a) == lbal(p0, a),
                forall|a: Seq<char>|
                    !tl.take(k as int).contains(a) ==> #[trigger] lhas(self@, a) == lhas(p0, a),
            decreases touched.len() - k,
        {
            let addr = &touched[k];
            proof {
                assert(addr@ == tl[k as int]);
                if tl.take(k as int).contains(tl[k as int]) {
                    let j2 = choose|j2: int|
                        0 <= j2 < k && tl.take(k as int)[j2] == tl[k as int];
                    assert(tl[j2] == tl[k as int]);
                    assert(false);
                }
                assert(lbal(self@, addr@) == lbal(p0, addr@));
                assert(lhas(self@, addr@) == lhas(p0, addr@));
            }
            let (old_s, op) = match self.balance_of(addr) {
                Some(s) => (s, Operation::Update),
                None => (zero_string(), Operation::Create),
            };
            proof {
                assert(old_s@ == lbal(p0, addr@));
                assert(is_int_str(old_s@)) by {
                    if lhas(p0, addr@) {
                        let j3 = choose|j3: int|
                            0 <= j3 < p0.len() && (#[trigger] p0[j3]).0 == addr@;
                        assert(lbal(p0, addr@) == p0[j3].1);
                    }
                }
                assert(int_val(old_s@) == lval(p0, addr@));
            }
            let net = net_change_of(transfers, addr);
            let new_s = big_add(old_s.as_str(), net.as_str());
            proof {
                lemma_dec_rep(lval(p0, addr@) + net_change(tsv, addr@));
                assert(new_s@ == dec_rep(lval(p0, addr@) + net_change(tsv, addr@)));
            }
            self.set_balance(addr, new_s.clone());
            let delta = LedgerDelta {
                address: addr.clone(),
                old_value: old_s,
                new_value: new_s,
                ordinal: k as u64,
                op,
            };
            let ghost dmv = delta@;
            let ghost dv_before = deltas.deep_view();
            deltas.push(delta);
            proof {
                assert(deltas.deep_view() =~= dv_before.push(dmv));
                assert(dmv == full[k as int]);
                assert(full.take(k + 1) =~= full.take(k as int).push(full[k as int]));
                assert(deltas.deep_view() == full.take(k + 1));
                assert(tl.take(k + 1) =~= tl.take(k as int).push(tl[k as int]));
                assert forall|a: Seq<char>|
                    tl.take(k + 1).contains(a) implies #[trigger] lbal(self@, a) == dec_rep(
                    lval(p0, a) + net_change(tsv, a),
                ) && #[trigger] lhas(self@, a) by {
                    lemma_contains_push(tl.take(k as int), tl[k as int], a);
                }
                assert forall|a: Seq<char>|
                    !tl.take(k + 1).contains(a) implies #[trigger] lbal(self@, a) == lbal(p0, a)
                    && #[trigger] lhas(self@, a) == lhas(p0, a) by {
                    lemma_contains_push(tl.take(k as int), tl[k as int], a);
                    assert(!tl.take(k as int).contains(a));
                    assert(lbal(self@, a) == lbal(p0, a));
                    assert(lhas(self@, a) == lhas(p0, a));
                }
            }
            k += 1;
        }
        proof {
            assert(tl.take(tl.len() as int) =~= tl);
            assert(full.take(full.len() as int) =~= full);
            assert(tl.take(k as int) =~= tl);
            assert(p0 == old(self)@);
            assert forall|a: Seq<char>|
                !touched_addrs(transfers.deep_view()).contains(a) implies #[trigger] lbal(
                self@,
                a,
            ) == lbal(old(self)@, a) by {
                assert(!tl.take(k as int).contains(a));
            }
            assert forall|a: Seq<char>|
                !touched_addrs(transfers.deep_view()).contains(a) implies #[trigger] lhas(
                self@,
                a,
            ) == lhas(old(self)@, a) by {
                assert(!tl.take(k as int).contains(a));
            }
        }
        deltas
    }
}

proof fn lemma_net_change_zero_amounts(ts: Seq<TransferV>, addr: Seq<char>)
    requires
        forall|i: int| 0 <= i < ts.len() ==> val_or_zero((#[trigger] ts[i]).amount) == 0,
    ensures
        net_change(ts, addr) == 0,
    decreases ts.len(),
{
    if ts.len() > 0 {
        let rest = ts.drop_last();
        assert(forall|i: int| 0 <= i < rest.len() ==> #[trigger] rest[i] == ts[i]);
        lemma_net_change_zero_amounts(rest, addr);
        assert(ts.last() == ts[ts.len() - 1]);
    }
}

/// Idempotent key application: a block of zero-amount (or malformed-amount)
/// transfers moves no balance -- every delta it produces, for sender and
/// recipient alike, carries equal old and new values.
pub proof fn lemma_zero_amount_deltas(pairs: LedgerPairs, ts: Seq<TransferV>)
    requires
        forall|i: int| 0 <= i < ts.len() ==> val_or_zero((#[trigger] ts[i]).amount) == 0,
    ensures
        forall|k: int|
            0 <= k < spec_block_deltas(pairs, ts).len() ==> val_or_zero(
                (#[trigger] spec_block_deltas(pairs, ts)[k]).new_value,
            ) == val_or_zero(spec_block_deltas(pairs, ts)[k].old_value),
{
    let ds = spec_block_deltas(pairs, ts);
    let tl = touched_addrs(ts);
    assert forall|k: int|
        0 <= k < ds.len() implies val_or_zero((#[trigger] ds[k]).new_value) == val_or_zero(
        ds[k].old_value,
    ) by {
        lemma_net_change_zero_amounts(ts, tl[k]);
        lemma_dec_rep(lval(pairs, tl[k]) + net_change(ts, tl[k]));
    }
}

/// Ledger conservation: for any block whose transfers all carry non-empty
/// sender and recipient addresses, the `new - old` changes of the deltas the
/// ledger yields sum to exactly zero.
pub proof fn lemma_block_conservation(pairs: LedgerPairs, ts: Seq<TransferV>)
    requires
        wf_pairs(pairs),
        forall|i: int| 0 <= i < ts.len() ==> (#[trigger] ts[i]).from.len() > 0 && ts[i].to.len() > 0,
    ensures
        sum_delta_changes(spec_block_deltas(pairs, ts)) == 0,
{
    let tl = touched_addrs(ts);
    let ds = spec_block_deltas(pairs, ts);
    assert forall|i: int|
        0 <= i < ds.len() implies val_or_zero((#[trigger] ds[i]).new_value) - val_or_zero(
        ds[i].old_value,
    ) == net_change(ts, tl[i]) by {
        lemma_dec_rep(lval(pairs, tl[i]) + net_change(ts, tl[i]));
    }
    lemma_sum_delta_matches(ts, ds, tl);
    lemma_sum_net_zero(ts);
}

} // verus!
