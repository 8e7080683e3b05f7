use vstd::prelude::*;

use crate::math::rate_model_valid;
use crate::oracle::PriceFeedReading;

verus! {

/// Most entries a list of the protocol or of a position may hold.
pub const MAX_ENTRIES: usize = 10;

/// A 32-byte account address, as two 128-bit halves.
#[derive(PartialEq, Eq, Structural, Clone, Copy, Debug)]
pub struct Pubkey {
    pub hi: u128,
    pub lo: u128,
}

/// Risk parameters of an asset accepted as collateral.
#[derive(PartialEq, Eq, Structural, Clone, Copy, Debug)]
pub struct CollateralInfo {
    pub mint: Pubkey,
    /// Loan-to-value ratio, basis points.
    pub ltv: u64,
    /// Liquidation threshold, basis points.
    pub liquidation_threshold: u64,
    /// Liquidation bonus, basis points.
    pub liquidation_bonus: u64,
    pub price_feed: Pubkey,
}

/// Rate curve and interest accounting of an asset that can be borrowed.
#[derive(PartialEq, Eq, Structural, Clone, Copy, Debug)]
pub struct BorrowAssetInfo {
    pub mint: Pubkey,
    pub base_rate: u64,
    pub optimal_utilization: u64,
    pub slope1: u64,
    pub slope2: u64,
    pub total_deposits: u64,
    pub total_borrows: u64,
    pub global_index: u128,
    pub last_update_ts: u64,
    pub price_feed: Pubkey,
}

/// Configuration of the protocol: the assets it accepts and lends.
#[derive(Debug)]
pub struct ProtocolConfig {
    pub admin: Pubkey,
    pub treasury: Pubkey,
    pub supported_collaterals: Vec<CollateralInfo>,
    pub supported_borrows: Vec<BorrowAssetInfo>,
    pub bump: u8,
}

/// A user's position: collateral held and debts owed.
#[derive(Debug)]
pub struct UserDebtAccount {
    pub owner: Pubkey,
    pub collateral_balances: Vec<CollateralBalance>,
    pub debt_balances: Vec<DebtBalance>,
    pub bump: u8,
}

#[derive(PartialEq, Eq, Structural, Clone, Copy, Debug)]
pub struct CollateralBalance {
    pub mint: Pubkey,
    pub amount: u64,
}

/// A debt recorded as a principal at the index `interest_index_snapshot`.
#[derive(PartialEq, Eq, Structural, Clone, Copy, Debug)]
pub struct DebtBalance {
    pub borrow_mint: Pubkey,
    pub principal: u64,
    pub interest_index_snapshot: u128,
}

/// The reading of one price feed account, keyed by the account's address.
#[derive(PartialEq, Eq, Structural, Clone, Copy, Debug)]
pub struct PricedFeed {
    pub feed: Pubkey,
    pub reading: PriceFeedReading,
}

/// Position of the first occurrence of `k` in `keys`, or -1.
pub open spec fn index_of(keys: Seq<Pubkey>, k: Pubkey) -> int
    decreases keys.len(),
{
    if keys.len() == 0 {
        -1
    } else {
        let before = index_of(keys.drop_last(), k);
        if before >= 0 {
            before
        } else if keys.last() == k {
            keys.len() - 1
        } else {
            -1
        }
    }
}

pub open spec fn keys_unique(keys: Seq<Pubkey>) -> bool {
    forall|i: int, j: int| 0 <= i < keys.len() && 0 <= j < keys.len() && i != j ==> keys[i] != keys[j]
}

pub open spec fn collateral_info_mints(s: Seq<CollateralInfo>) -> Seq<Pubkey> {
    s.map_values(|c: CollateralInfo| c.mint)
}

pub open spec fn borrow_info_mints(s: Seq<BorrowAssetInfo>) -> Seq<Pubkey> {
    s.map_values(|b: BorrowAssetInfo| b.mint)
}

pub open spec fn collateral_mints(s: Seq<CollateralBalance>) -> Seq<Pubkey> {
    s.map_values(|c: CollateralBalance| c.mint)
}

pub open spec fn debt_mints(s: Seq<DebtBalance>) -> Seq<Pubkey> {
    s.map_values(|d: DebtBalance| d.borrow_mint)
}

pub open spec fn feed_keys(s: Seq<PricedFeed>) -> Seq<Pubkey> {
    s.map_values(|p: PricedFeed| p.feed)
}

/// Risk parameters in basis points that the engine accepts.
pub open spec fn collateral_params_valid(ltv: u64, liquidation_threshold: u64) -> bool {
    ltv <= 10000 && ltv <= liquidation_threshold
}

impl ProtocolConfig {
    /// Each asset is listed once, within capacity, with parameters the engine accepts.
    pub open spec fn wf(&self) -> bool {
        &&& keys_unique(collateral_info_mints(self.supported_collaterals@))
        &&& keys_unique(borrow_info_mints(self.supported_borrows@))
        &&& self.supported_collaterals@.len() <= MAX_ENTRIES
        &&& self.supported_borrows@.len() <= MAX_ENTRIES
        &&& forall|i: int|
            0 <= i < self.supported_collaterals@.len() ==> collateral_params_valid(
                #[trigger] self.supported_collaterals@[i].ltv,
                self.supported_collaterals@[i].liquidation_threshold,
            )
        &&& forall|i: int|
            0 <= i < self.supported_borrows@.len() ==> borrow_asset_valid(
                #[trigger] self.supported_borrows@[i],
            )
    }
}

pub open spec fn borrow_asset_valid(b: BorrowAssetInfo) -> bool {
    rate_model_valid(b.optimal_utilization)
}

impl UserDebtAccount {
    /// Each asset appears at most once per list, within capacity.
    pub open spec fn wf(&self) -> bool {
        &&& keys_unique(collateral_mints(self.collateral_balances@))
        &&& keys_unique(debt_mints(self.debt_balances@))
        &&& self.collateral_balances@.len() <= MAX_ENTRIES
        &&& self.debt_balances@.len() <= MAX_ENTRIES
    }
}

/// What `index_of` returns: the first matching position, or -1 when none matches.
pub proof fn lemma_index_of(keys: Seq<Pubkey>, k: Pubkey)
    ensures
        -1 <= index_of(keys, k) < keys.len(),
        index_of(keys, k) >= 0 ==> keys[index_of(keys, k)] == k,
        forall|j: int| 0 <= j < keys.len() && (index_of(keys, k) < 0 || j < index_of(keys, k)) ==> keys[j] != k,
    decreases keys.len(),
{
    if keys.len() > 0 {
        lemma_index_of(keys.drop_last(), k);
        assert(forall|j: int| 0 <= j < keys.len() - 1 ==> keys.drop_last()[j] == keys[j]);
    }
}

/// The first position holding `k` is the one found.
pub proof fn lemma_index_of_first(keys: Seq<Pubkey>, k: Pubkey, i: int)
    requires
        0 <= i < keys.len(),
        keys[i] == k,
        forall|j: int| 0 <= j < i ==> keys[j] != k,
    ensures
        index_of(keys, k) == i,
{
    lemma_index_of(keys, k);
}

/// No position holds `k`: nothing is found.
pub proof fn lemma_index_of_absent(keys: Seq<Pubkey>, k: Pubkey)
    requires
        forall|j: int| 0 <= j < keys.len() ==> keys[j] != k,
    ensures
        index_of(keys, k) == -1,
{
    lemma_index_of(keys, k);
}

pub fn find_collateral_info(s: &Vec<CollateralInfo>, mint: Pubkey) -> (r: Option<usize>)
    ensures
        r is Some <==> index_of(collateral_info_mints(s@), mint) >= 0,
        r is Some ==> r->0 == index_of(collateral_info_mints(s@), mint),
        r is Some ==> r->0 < s@.len() && s@[r->0 as int].mint == mint,
{
    let ghost keys = collateral_info_mints(s@);
    let mut i: usize = 0;
    while i < s.len()
        invariant
            i <= s@.len(),
            keys == collateral_info_mints(s@),
            forall|j: int| 0 <= j < i ==> keys[j] != mint,
        decreases s@.len() - i,
    {
        if s[i].mint == mint {
            proof {
                lemma_index_of_first(keys, mint, i as int);
            }
            return Some(i);
        }
        i = i + 1;
    }
    proof {
        lemma_index_of_absent(keys, mint);
    }
    None
}

pub fn find_borrow_info(s: &Vec<BorrowAssetInfo>, mint: Pubkey) -> (r: Option<usize>)
    ensures
        r is Some <==> index_of(borrow_info_mints(s@), mint) >= 0,
        r is Some ==> r->0 == index_of(borrow_info_mints(s@), mint),
        r is Some ==> r->0 < s@.len() && s@[r->0 as int].mint == mint,
{
    let ghost keys = borrow_info_mints(s@);
    let mut i: usize = 0;
    while i < s.len()
        invariant
            i <= s@.len(),
            keys == borrow_info_mints(s@),
            forall|j: int| 0 <= j < i ==> keys[j] != mint,
        decreases s@.len() - i,
    {
        if s[i].mint == mint {
            proof {
                lemma_index_of_first(keys, mint, i as int);
            }
            return Some(i);
        }
        i = i + 1;
    }
    proof {
        lemma_index_of_absent(keys, mint);
    }
    None
}

pub fn find_collateral_balance(s: &Vec<CollateralBalance>, mint: Pubkey) -> (r: Option<usize>)
    ensures
        r is Some <==> index_of(collateral_mints(s@), mint) >= 0,
        r is Some ==> r->0 == index_of(collateral_mints(s@), mint),
        r is Some ==> r->0 < s@.len() && s@[r->0 as int].mint == mint,
{
    let ghost keys = collateral_mints(s@);
    let mut i: usize = 0;
    while i < s.len()
        invariant
            i <= s@.len(),
            keys == collateral_mints(s@),
            forall|j: int| 0 <= j < i ==> keys[j] != mint,
        decreases s@.len() - i,
    {
        if s[i].mint == mint {
            proof {
                lemma_index_of_first(keys, mint, i as int);
            }
            return Some(i);
        }
        i = i + 1;
    }
    proof {
        lemma_index_of_absent(keys, mint);
    }
    None
}

pub fn find_debt_balance(s: &Vec<DebtBalance>, mint: Pubkey) -> (r: Option<usize>)
    ensures
        r is Some <==> index_of(debt_mints(s@), mint) >= 0,
        r is Some ==> r->0 == index_of(debt_mints(s@), mint),
        r is Some ==> r->0 < s@.len() && s@[r->0 as int].borrow_mint == mint,
{
    let ghost keys = debt_mints(s@);
    let mut i: usize = 0;
    while i < s.len()
        invariant
            i <= s@.len(),
            keys == debt_mints(s@),
            forall|j: int| 0 <= j < i ==> keys[j] != mint,
        decreases s@.len() - i,
    {
        if s[i].borrow_mint == mint {
            proof {
                lemma_index_of_first(keys, mint, i as int);
            }
            return Some(i);
        }
        i = i + 1;
    }
    proof {
        lemma_index_of_absent(keys, mint);
    }
    None
}

pub fn find_feed(s: &Vec<PricedFeed>, feed: Pubkey) -> (r: Option<usize>)
    ensures
        r is Some <==> index_of(feed_keys(s@), feed) >= 0,
        r is Some ==> r->0 == index_of(feed_keys(s@), feed),
        r is Some ==> r->0 < s@.len() && s@[r->0 as int].feed == feed,
{
    let ghost keys = feed_keys(s@);
    let mut i: usize = 0;
    while i < s.len()
        invariant
            i <= s@.len(),
            keys == feed_keys(s@),
            forall|j: int| 0 <= j < i ==> keys[j] != feed,
        decreases s@.len() - i,
    {
        if s[i].feed == feed {
            proof {
                lemma_index_of_first(keys, feed, i as int);
            }
            return Some(i);
        }
        i = i + 1;
    }
    proof {
        lemma_index_of_absent(keys, feed);
    }
    None
}

/// Whether no key occurs twice.
pub fn unique_keys(keys: &Vec<Pubkey>) -> (r: bool)
    ensures
        r == keys_unique(keys@),
{
    let mut i: usize = 0;
    while i < keys.len()
        invariant
            i <= keys@.len(),
            forall|a: int, b: int|
                0 <= a < i && 0 <= b < keys@.len() && a != b ==> keys@[a] != keys@[b],
        decreases keys@.len() - i,
    {
        let mut j: usize = 0;
        while j < keys.len()
            invariant
                i < keys@.len(),
                j <= keys@.len(),
                forall|a: int, b: int|
                    0 <= a < i && 0 <= b < keys@.len() && a != b ==> keys@[a] != keys@[b],
                forall|b: int| 0 <= b < j && b != i ==> keys@[i as int] != keys@[b],
            decreases keys@.len() - j,
        {
            if j != i && keys[i] == keys[j] {
                return false;
            }
            j = j + 1;
        }
        i = i + 1;
    }
    true
}

impl ProtocolConfig {
    /// Executable test of `wf`.
    pub fn is_well_formed(&self) -> (r: bool)
        ensures
            r == self.wf(),
    {
        if self.supported_collaterals.len() > MAX_ENTRIES || self.supported_borrows.len() > MAX_ENTRIES {
            return false;
        }
        let mut collateral_keys: Vec<Pubkey> = Vec::new();
        let mut i: usize = 0;
        while i < self.supported_collaterals.len()
            invariant
                i <= self.supported_collaterals@.len(),
                collateral_keys@ == collateral_info_mints(self.supported_collaterals@.take(i as int)),
                forall|k: int|
                    0 <= k < i ==> collateral_params_valid(
                        #[trigger] self.supported_collaterals@[k].ltv,
                        self.supported_collaterals@[k].liquidation_threshold,
                    ),
            decreases self.supported_collaterals@.len() - i,
        {
            let c = self.supported_collaterals[i];
            if !(c.ltv <= 10000 && c.ltv <= c.liquidation_threshold) {
                return false;
            }
            collateral_keys.push(c.mint);
            proof {
                assert(collateral_info_mints(self.supported_collaterals@.take(i + 1))
                    =~= collateral_info_mints(self.supported_collaterals@.take(i as int)).push(c.mint));
            }
            i = i + 1;
        }
        proof {
            assert(self.supported_collaterals@.take(i as int) =~= self.supported_collaterals@);
        }
        let mut borrow_keys: Vec<Pubkey> = Vec::new();
        let mut i: usize = 0;
        while i < self.supported_borrows.len()
            invariant
                i <= self.supported_borrows@.len(),
                borrow_keys@ == borrow_info_mints(self.supported_borrows@.take(i as int)),
                forall|k: int| 0 <= k < i ==> borrow_asset_valid(#[trigger] self.supported_borrows@[k]),
            decreases self.supported_borrows@.len() - i,
        {
            let b = self.supported_borrows[i];
            if !(0 < b.optimal_utilization && b.optimal_utilization <= 10000) {
                return false;
            }
            borrow_keys.push(b.mint);
            proof {
                assert(borrow_info_mints(self.supported_borrows@.take(i + 1))
                    =~= borrow_info_mints(self.supported_borrows@.take(i as int)).push(b.mint));
            }
            i = i + 1;
        }
        proof {
            assert(self.supported_borrows@.take(i as int) =~= self.supported_borrows@);
        }
        unique_keys(&collateral_keys) && unique_keys(&borrow_keys)
    }
}

impl UserDebtAccount {
    /// Executable test of `wf`.
    pub fn is_well_formed(&self) -> (r: bool)
        ensures
            r == self.wf(),
    {
        if self.collateral_balances.len() > MAX_ENTRIES || self.debt_balances.len() > MAX_ENTRIES {
            return false;
        }
        let mut collateral_keys: Vec<Pubkey> = Vec::new();
        let mut i: usize = 0;
        while i < self.collateral_balances.len()
            invariant
                i <= self.collateral_balances@.len(),
                collateral_keys@ == collateral_mints(self.collateral_balances@.take(i as int)),
            decreases self.collateral_balances@.len() - i,
        {
            let c = self.collateral_balances[i];
            collateral_keys.push(c.mint);
            proof {
                assert(collateral_mints(self.collateral_balances@.take(i + 1))
                    =~= collateral_mints(self.collateral_balances@.take(i as int)).push(c.mint));
            }
            i = i + 1;
        }
        proof {
            assert(self.collateral_balances@.take(i as int) =~= self.collateral_balances@);
        }
        let mut debt_keys: Vec<Pubkey> = Vec::new();
        let mut i: usize = 0;
        while i < self.debt_balances.len()
            invariant
                i <= self.debt_balances@.len(),
                debt_keys@ == debt_mints(self.debt_balances@.take(i as int)),
            decreases self.debt_balances@.len() - i,
        {
            let d = self.debt_balances[i];
            debt_keys.push(d.borrow_mint);
            proof {
                assert(debt_mints(self.debt_balances@.take(i + 1))
                    =~= debt_mints(self.debt_balances@.take(i as int)).push(d.borrow_mint));
            }
            i = i + 1;
        }
        proof {
            assert(self.debt_balances@.take(i as int) =~= self.debt_balances@);
        }
        unique_keys(&collateral_keys) && unique_keys(&debt_keys)
    }
}

} // verus!
