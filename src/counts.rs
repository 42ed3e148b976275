use vstd::prelude::*;

verus! {

/// Number of distinct player identifiers (`u8`).
pub const PLAYER_ID_COUNT: usize = 256;

/// How many of the packs in `owners` belong to player `p`.
pub open spec fn owned_count(owners: Seq<Option<u8>>, p: u8) -> nat
    decreases owners.len(),
{
    if owners.len() == 0 {
        0
    } else {
        owned_count(owners.drop_last(), p) + if owners.last() == Some(p) {
            1nat
        } else {
            0nat
        }
    }
}

pub proof fn lemma_owned_count_le_len(owners: Seq<Option<u8>>, p: u8)
    ensures
        owned_count(owners, p) <= owners.len(),
    decreases owners.len(),
{
    if owners.len() > 0 {
        lemma_owned_count_le_len(owners.drop_last(), p);
    }
}

/// Replacing one owner moves the count of the old and the new owner by one.
pub proof fn lemma_owned_count_update(owners: Seq<Option<u8>>, i: int, v: Option<u8>, p: u8)
    requires
        0 <= i < owners.len(),
    ensures
        owned_count(owners.update(i, v), p) + (if owners[i] == Some(p) {
            1int
        } else {
            0int
        }) == owned_count(owners, p) + (if v == Some(p) {
            1int
        } else {
            0int
        }),
    decreases owners.len(),
{
    let u = owners.update(i, v);
    if i == owners.len() - 1 {
        assert(u.drop_last() =~= owners.drop_last());
    } else {
        assert(u.drop_last() =~= owners.drop_last().update(i, v));
        lemma_owned_count_update(owners.drop_last(), i, v, p);
    }
}

pub proof fn lemma_owned_count_push(owners: Seq<Option<u8>>, v: Option<u8>, p: u8)
    ensures
        owned_count(owners.push(v), p) == owned_count(owners, p) + (if v == Some(p) {
            1nat
        } else {
            0nat
        }),
{
    assert(owners.push(v).drop_last() =~= owners);
}

/// Sum of `owned_count(owners, p)` over the players `p < n`.
pub open spec fn owned_by_first(owners: Seq<Option<u8>>, n: nat) -> nat
    decreases n,
{
    if n == 0 {
        0
    } else {
        owned_by_first(owners, (n - 1) as nat) + owned_count(owners, (n - 1) as u8)
    }
}

/// How many packs in `owners` have an owner.
pub open spec fn owned_packs(owners: Seq<Option<u8>>) -> nat
    decreases owners.len(),
{
    if owners.len() == 0 {
        0
    } else {
        owned_packs(owners.drop_last()) + if owners.last().is_some() {
            1nat
        } else {
            0nat
        }
    }
}

proof fn lemma_owned_by_first_push(owners: Seq<Option<u8>>, v: Option<u8>, n: nat)
    requires
        n <= PLAYER_ID_COUNT,
    ensures
        owned_by_first(owners.push(v), n) == owned_by_first(owners, n) + (if v.is_some() && (v.unwrap()
            as nat) < n {
            1nat
        } else {
            0nat
        }),
    decreases n,
{
    if n > 0 {
        lemma_owned_by_first_push(owners, v, (n - 1) as nat);
        lemma_owned_count_push(owners, v, (n - 1) as u8);
    }
}

proof fn lemma_owned_by_first_empty(owners: Seq<Option<u8>>, n: nat)
    requires
        owners.len() == 0,
    ensures
        owned_by_first(owners, n) == 0,
    decreases n,
{
    if n > 0 {
        lemma_owned_by_first_empty(owners, (n - 1) as nat);
    }
}

/// Every owned pack is counted for exactly one player: summed over all
/// players, the owned counts give the number of owned packs.
pub proof fn lemma_each_pack_counted_once(owners: Seq<Option<u8>>)
    ensures
        owned_by_first(owners, PLAYER_ID_COUNT as nat) == owned_packs(owners),
    decreases owners.len(),
{
    if owners.len() > 0 {
        let rest = owners.drop_last();
        lemma_each_pack_counted_once(rest);
        assert(rest.push(owners.last()) =~= owners);
        lemma_owned_by_first_push(rest, owners.last(), PLAYER_ID_COUNT as nat);
        if owners.last().is_some() {
            assert((owners.last().unwrap() as nat) < PLAYER_ID_COUNT as nat);
        }
    } else {
        lemma_owned_by_first_empty(owners, PLAYER_ID_COUNT as nat);
    }
}

/// How many players hold at least one pack.
pub open spec fn holders_in(counts: Seq<usize>) -> nat
    decreases counts.len(),
{
    if counts.len() == 0 {
        0
    } else {
        holders_in(counts.drop_last()) + if counts.last() > 0 {
            1nat
        } else {
            0nat
        }
    }
}

/// `order` lists players by their count in `counts`, most packs first.
pub open spec fn ranked(order: Seq<u8>, counts: Seq<usize>) -> bool {
    forall|i: int, j: int|
        0 <= i < j < order.len() ==> #[trigger] counts[order[i] as int] >= #[trigger] counts[order[j] as int]
}

/// Number of packs held by each player, indexed by player identifier.
/// A player never seen holds zero.
pub struct PlayerPackCounts {
    counts: Vec<usize>,
}

impl View for PlayerPackCounts {
    type V = Seq<usize>;

    closed spec fn view(&self) -> Seq<usize> {
        self.counts@
    }
}

impl PlayerPackCounts {
    pub open spec fn wf(&self) -> bool {
        self@.len() == PLAYER_ID_COUNT
    }

    /// The count of player `pid`.
    pub open spec fn count_of(&self, pid: u8) -> nat {
        self@[pid as int] as nat
    }

    /// Every player's count is zero.
    pub open spec fn is_empty_counts(&self) -> bool {
        forall|p: u8| #[trigger] self.count_of(p) == 0
    }

    /// No player is counted for more packs than `owners` gives them.
    pub open spec fn bounded_by(&self, owners: Seq<Option<u8>>) -> bool {
        forall|p: u8| #[trigger] self.count_of(p) <= owned_count(owners, p)
    }

    /// Every player is counted for exactly the packs that `owners` gives them.
    pub open spec fn matches_owners(&self, owners: Seq<Option<u8>>) -> bool {
        forall|p: u8| #[trigger] self.count_of(p) == owned_count(owners, p)
    }

    pub fn new() -> (r: PlayerPackCounts)
        ensures
            r.wf(),
            r.is_empty_counts(),
    {
        let mut counts: Vec<usize> = Vec::new();
        let mut i: usize = 0;
        while i < PLAYER_ID_COUNT
            invariant
                i <= PLAYER_ID_COUNT,
                counts@.len() == i,
                forall|j: int| 0 <= j < i ==> counts@[j] == 0,
            decreases PLAYER_ID_COUNT - i,
        {
            counts.push(0);
            i = i + 1;
        }
        let r = PlayerPackCounts { counts };
        assert forall|p: u8| #[trigger] r.count_of(p) == 0 by {
            assert(0 <= p < PLAYER_ID_COUNT);
        }
        r
    }

    /// The number of packs player `pid` holds.
    pub fn get(&self, pid: u8) -> (r: usize)
        requires
            self.wf(),
        ensures
            r == self.count_of(pid),
    {
        self.counts[pid as usize]
    }

    /// Sets the count of player `pid`.
    pub fn set(&mut self, pid: u8, value: usize)
        requires
            old(self).wf(),
        ensures
            final(self).wf(),
            final(self)@ == old(self)@.update(pid as int, value),
    {
        self.counts.set(pid as usize, value);
    }

    /// Forgets every player's count.
    pub fn clear(&mut self)
        requires
            old(self).wf(),
        ensures
            final(self).wf(),
            final(self).is_empty_counts(),
    {
        *self = PlayerPackCounts::new();
    }

    /// Forgets the count of player `pid` (the player left); the other counts
    /// stay as they were.
    pub fn remove(&mut self, pid: u8)
        requires
            old(self).wf(),
        ensures
            final(self).wf(),
            final(self)@ == old(self)@.update(pid as int, 0),
    {
        self.set(pid, 0);
    }

    /// How many players hold at least one pack.
    pub fn holders(&self) -> (r: usize)
        requires
            self.wf(),
        ensures
            r == holders_in(self@),
    {
        let mut n: usize = 0;
        let mut i: usize = 0;
        while i < self.counts.len()
            invariant
                self.wf(),
                i <= self@.len(),
                n == holders_in(self@.take(i as int)),
                n <= i,
            decreases self@.len() - i,
        {
            assert(self@.take(i as int + 1).drop_last() =~= self@.take(i as int));
            if self.counts[i] > 0 {
                n = n + 1;
            }
            i = i + 1;
        }
        assert(self@.take(i as int) =~= self@);
        n
    }

    /// The players `pids` ordered by pack count, most first.
    pub fn rank_by_count(&self, pids: &Vec<u8>) -> (r: Vec<u8>)
        requires
            self.wf(),
        ensures
            r@.to_multiset() == pids@.to_multiset(),
            ranked(r@, self@),
    {
        let mut r: Vec<u8> = Vec::new();
        let mut i: usize = 0;
        assert(r@ =~= pids@.take(0));
        while i < pids.len()
            invariant
                self.wf(),
                i <= pids@.len(),
                r@.to_multiset() == pids@.take(i as int).to_multiset(),
                ranked(r@, self@),
            decreases pids@.len() - i,
        {
            let p = pids[i];
            let c = self.get(p);
            let mut k: usize = 0;
            while k < r.len() && self.get(r[k]) >= c
                invariant
                    self.wf(),
                    k <= r@.len(),
                    c == self@[p as int],
                    forall|m: int| 0 <= m < k ==> #[trigger] self@[r@[m] as int] >= c,
                decreases r@.len() - k,
            {
                k = k + 1;
            }
            let ghost old_r = r@;
            proof {
                if k < old_r.len() {
                    assert forall|m: int| k <= m < old_r.len() implies #[trigger] self@[old_r[m] as int] < c by {
                        if m > k {
                            assert(self@[old_r[k as int] as int] >= self@[old_r[m] as int]);
                        }
                    }
                }
            }
            r.insert(k, p);
            proof {
                assert(r@ == old_r.insert(k as int, p));
                assert forall|a: int, b: int| 0 <= a < b < r@.len() implies #[trigger] self@[r@[a] as int]
                    >= #[trigger] self@[r@[b] as int] by {
                    if a < k && b > k {
                        assert(r@[b] == old_r[b - 1]);
                    } else if a < k && b == k {
                    } else if a == k {
                        assert(r@[b] == old_r[b - 1]);
                    } else if a > k {
                        assert(r@[a] == old_r[a - 1]);
                        assert(r@[b] == old_r[b - 1]);
                    } else {
                        assert(r@[a] == old_r[a]);
                        assert(r@[b] == old_r[b]);
                    }
                }
                assert(pids@.take(i as int + 1) =~= pids@.take(i as int).push(p));
                vstd::seq_lib::to_multiset_insert(old_r, k as int, p);
                vstd::seq_lib::to_multiset_build(pids@.take(i as int), p);
            }
            i = i + 1;
        }
        assert(pids@.take(i as int) =~= pids@);
        r
    }

    /// The counts that a list of pack owners gives: each player is counted
    /// once for every pack they own.
    pub fn from_owners(owners: &Vec<Option<u8>>) -> (r: PlayerPackCounts)
        ensures
            r.wf(),
            r.matches_owners(owners@),
    {
        let mut r = PlayerPackCounts::new();
        let mut i: usize = 0;
        while i < owners.len()
            invariant
                r.wf(),
                i <= owners@.len(),
                r.matches_owners(owners@.take(i as int)),
            decreases owners@.len() - i,
        {
            let ghost before = owners@.take(i as int);
            assert(owners@.take(i as int + 1) =~= before.push(owners@[i as int]));
            proof {
                assert forall|p: u8| owned_count(before.push(owners@[i as int]), p) == owned_count(before, p) + (
                if owners@[i as int] == Some(p) {
                    1nat
                } else {
                    0nat
                }) by {
                    lemma_owned_count_push(before, owners@[i as int], p);
                }
                lemma_owned_count_le_len(before, 0);
            }
            let ghost rv = r;
            let ghost r0 = r@;
            if let Some(pid) = owners[i] {
                proof {
                    lemma_owned_count_le_len(before, pid);
                }
                let c = r.get(pid);
                r.set(pid, c + 1);
            }
            proof {
                let now = owners@.take(i as int + 1);
                assert forall|p: u8| #[trigger] r.count_of(p) == owned_count(now, p) by {
                    lemma_owned_count_push(before, owners@[i as int], p);
                    assert(rv.count_of(p) == owned_count(before, p));
                    if owners@[i as int] == Some(p) {
                        assert(r@ == r0.update(p as int, (r0[p as int] + 1) as usize));
                    } else {
                        assert(r@[p as int] == r0[p as int]);
                    }
                }
            }
            i = i + 1;
        }
        assert(owners@.take(i as int) =~= owners@);
        r
    }
}

} // verus!
