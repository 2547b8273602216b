//! The pool registry and the exposed query operations: configuration, asset
//! decimals, single-hop swap simulations in both directions, pool listing,
//! and multi-hop simulation chains.
//!
//! The registry is an explicit store handle threaded into every operation;
//! total LP share counts come from a supply snapshot handed in the same way,
//! so every query is a pure function of its arguments.

use vstd::prelude::*;

use crate::error::ContractError;
use crate::math::{
    lemma_denom_amount_push, spec_denom_amount, spec_extra_fees_amount, spec_fee_amount,
    spec_mul_div_ceil,
};
use crate::model::{
    spec_denoms_unique, Asset, Config, PoolInfo, PoolType, PoolsResponse, PoolInfoResponse,
    ReverseSimulationResponse, ReverseSimulateSwapOperationsResponse, SimulationResponse,
    SimulateSwapOperationsResponse, SwapOperation, AssetDecimalsResponse, FEE_SCALE,
};
use crate::stable::{calculate_stableswap_y, spec_y_full, StableSwapDirection};
use crate::swap::{
    compute_offer_amount, denormalize_amount, extra_fees_amount, find_asset_amount,
    find_asset_index, get_asset_indexes_in_pool, lemma_index_of_denom_unique, normalize_amount,
    simulate_swap, spec_factor, spec_gross_needed, spec_index_of_denom, spec_offer_needed,
    spec_sim_ok, spec_sim_response_matches, spec_spread_amount, total_fee_shares,
};

verus! {

/// Most pools one listing call may return.
pub const MAX_LIMIT: u32 = 100;

/// Pools a listing call returns when no limit is given.
pub const DEFAULT_LIMIT: u32 = 10;

/// Lexicographic order on identifiers, by code point.
pub open spec fn spec_str_lt(a: Seq<char>, b: Seq<char>) -> bool
    decreases a.len(),
{
    if a.len() == 0 {
        b.len() > 0
    } else if b.len() == 0 {
        false
    } else if (a[0] as u32) < (b[0] as u32) {
        true
    } else if (b[0] as u32) < (a[0] as u32) {
        false
    } else {
        spec_str_lt(a.drop_first(), b.drop_first())
    }
}

/// The order of two identifiers is decided past any common prefix.
pub proof fn lemma_str_lt_skip(a: Seq<char>, b: Seq<char>, i: int)
    requires
        0 <= i <= a.len(),
        i <= b.len(),
        forall|j: int| 0 <= j < i ==> a[j] == b[j],
    ensures
        spec_str_lt(a, b) == spec_str_lt(a.skip(i), b.skip(i)),
    decreases i,
{
    if i == 0 {
        assert(a.skip(0) =~= a);
        assert(b.skip(0) =~= b);
    } else {
        assert(a[0] == b[0]);
        assert(a.drop_first().skip(i - 1) =~= a.skip(i));
        assert(b.drop_first().skip(i - 1) =~= b.skip(i));
        lemma_str_lt_skip(a.drop_first(), b.drop_first(), i - 1);
    }
}

/// Two characters with one code point are one character.
proof fn lemma_char_inj(c1: char, c2: char)
    requires
        c1 as u32 == c2 as u32,
    ensures
        c1 == c2,
{
}

/// Two identifiers are ordered one way, the other way, or equal.
pub proof fn lemma_str_lt_trichotomy(a: Seq<char>, b: Seq<char>)
    ensures
        spec_str_lt(a, b) || spec_str_lt(b, a) || a == b,
    decreases a.len(),
{
    if a.len() == 0 || b.len() == 0 {
        if a.len() == 0 && b.len() == 0 {
            assert(a =~= b);
        }
    } else if (a[0] as u32) == (b[0] as u32) {
        lemma_str_lt_trichotomy(a.drop_first(), b.drop_first());
        if a.drop_first() == b.drop_first() {
            assert(a.drop_first().len() == a.len() - 1);
            assert(b.drop_first().len() == b.len() - 1);
            assert(a.len() == b.len());
            assert forall|k: int| 0 <= k < a.len() implies a[k] == b[k] by {
                if k > 0 {
                    assert(a.drop_first()[k - 1] == b.drop_first()[k - 1]);
                    assert(a[k] == a.drop_first()[k - 1]);
                    assert(b[k] == b.drop_first()[k - 1]);
                } else {
                    lemma_char_inj(a[0], b[0]);
                }
            }
            assert(a =~= b);
        }
    }
}

/// The identifier order is transitive.
pub proof fn lemma_str_lt_trans(a: Seq<char>, b: Seq<char>, c: Seq<char>)
    requires
        spec_str_lt(a, b),
        spec_str_lt(b, c),
    ensures
        spec_str_lt(a, c),
    decreases a.len(),
{
    if a.len() == 0 {
    } else {
        if (a[0] as u32) == (b[0] as u32) && (b[0] as u32) == (c[0] as u32) {
            lemma_str_lt_trans(a.drop_first(), b.drop_first(), c.drop_first());
        }
    }
}

/// No identifier sorts before itself.
pub proof fn lemma_str_lt_irrefl(a: Seq<char>)
    ensures
        !spec_str_lt(a, a),
    decreases a.len(),
{
    if a.len() > 0 {
        lemma_str_lt_irrefl(a.drop_first());
    }
}

/// Whether `a` sorts strictly before `b`, by code point.
pub fn str_lt(a: &String, b: &String) -> (r: bool)
    ensures
        r == spec_str_lt(a@, b@),
{
    let alen = a.as_str().unicode_len();
    let blen = b.as_str().unicode_len();
    let min = if alen < blen {
        alen
    } else {
        blen
    };
    let mut i: usize = 0;
    while i < min
        invariant
            i <= min,
            min == (if alen < blen {
                alen as int
            } else {
                blen as int
            }),
            alen == a@.len(),
            blen == b@.len(),
            forall|j: int| 0 <= j < i ==> a@[j] == b@[j],
        decreases min - i,
    {
        let ca = a.as_str().get_char(i);
        let cb = b.as_str().get_char(i);
        if (ca as u32) < (cb as u32) {
            proof {
                lemma_str_lt_skip(a@, b@, i as int);
            }
            return true;
        }
        if (cb as u32) < (ca as u32) {
            proof {
                lemma_str_lt_skip(a@, b@, i as int);
            }
            return false;
        }
        i = i + 1;
    }
    proof {
        lemma_str_lt_skip(a@, b@, min as int);
    }
    alen < blen
}

/// The pool store: the contract configuration and every registered pool,
/// kept in strictly ascending identifier order.
pub struct PoolRegistry {
    pub config: Config,
    pub pools: Vec<PoolInfo>,
}

/// Some pool of the sequence bears this identifier.
pub open spec fn spec_has_pool(pools: Seq<PoolInfo>, identifier: Seq<char>) -> bool {
    exists|i: int| 0 <= i < pools.len() && pools[i].pool_identifier@ == identifier
}

/// The index of the pool bearing this identifier; under unique identifiers
/// there is exactly one.
pub open spec fn spec_pool_index_of(pools: Seq<PoolInfo>, identifier: Seq<char>) -> int {
    choose|i: int| 0 <= i < pools.len() && pools[i].pool_identifier@ == identifier
}

impl PoolRegistry {
    /// Every pool is well-formed, and the identifiers are unique and strictly
    /// ascending — the order an identifier-keyed store keeps.
    pub open spec fn well_formed(&self) -> bool {
        &&& forall|i: int| 0 <= i < self.pools@.len() ==> (#[trigger] self.pools@[i]).well_formed()
        &&& forall|i: int, j: int|
            0 <= i < j < self.pools@.len() ==> self.pools@[i].pool_identifier@
                != self.pools@[j].pool_identifier@
        &&& forall|i: int, j: int|
            0 <= i < j < self.pools@.len() ==> spec_str_lt(
                self.pools@[i].pool_identifier@,
                self.pools@[j].pool_identifier@,
            )
    }
}

/// Under unique identifiers, any index whose pool bears the identifier is the
/// index [`spec_pool_index_of`] picks.
pub proof fn lemma_pool_index_unique(pools: Seq<PoolInfo>, identifier: Seq<char>, i: int)
    requires
        forall|a: int, b: int|
            0 <= a < b < pools.len() ==> pools[a].pool_identifier@ != pools[b].pool_identifier@,
        0 <= i < pools.len(),
        pools[i].pool_identifier@ == identifier,
    ensures
        spec_pool_index_of(pools, identifier) == i,
{
    assert(0 <= i < pools.len() && pools[i].pool_identifier@ == identifier);
    let j = spec_pool_index_of(pools, identifier);
    assert(0 <= j < pools.len() && pools[j].pool_identifier@ == identifier);
}

/// Looks a pool up by its identifier.
fn get_pool_ref<'a>(registry: &'a PoolRegistry, pool_identifier: &String) -> (r: Result<
    &'a PoolInfo,
    ContractError,
>)
    requires
        registry.well_formed(),
    ensures
        r is Ok <==> spec_has_pool(registry.pools@, pool_identifier@),
        r matches Ok(p) ==> *p == registry.pools@[spec_pool_index_of(
            registry.pools@,
            pool_identifier@,
        )] && p.well_formed(),
        !(r is Ok) ==> r == Err::<&'a PoolInfo, ContractError>(ContractError::UnExistingPool),
{
    let mut i: usize = 0;
    while i < registry.pools.len()
        invariant
            i <= registry.pools@.len(),
            registry.well_formed(),
            forall|j: int|
                0 <= j < i ==> (#[trigger] registry.pools@[j]).pool_identifier@
                    != pool_identifier@,
        decreases registry.pools@.len() - i,
    {
        if registry.pools[i].pool_identifier == *pool_identifier {
            proof {
                lemma_pool_index_unique(registry.pools@, pool_identifier@, i as int);
            }
            return Ok(&registry.pools[i]);
        }
        i = i + 1;
    }
    Err(ContractError::UnExistingPool)
}

/// Saves a pool record: replaces the pool bearing the same identifier, or
/// inserts the pool at its place in the ascending identifier order.  The
/// configuration and every other pool are untouched, and the registry stays
/// well-formed.
pub fn save_pool(registry: &mut PoolRegistry, pool: PoolInfo)
    requires
        old(registry).well_formed(),
        pool.well_formed(),
    ensures
        final(registry).config == old(registry).config,
        final(registry).well_formed(),
        spec_has_pool(old(registry).pools@, pool.pool_identifier@) ==> final(registry).pools@
            == old(registry).pools@.update(
            spec_pool_index_of(old(registry).pools@, pool.pool_identifier@),
            pool,
        ),
        !spec_has_pool(old(registry).pools@, pool.pool_identifier@) ==> final(registry).pools@
            == old(registry).pools@.insert(
            spec_first_greater_from(old(registry).pools@, pool.pool_identifier@, 0),
            pool,
        ),
{
    let mut i: usize = 0;
    let n = registry.pools.len();
    while i < n && str_lt(&registry.pools[i].pool_identifier, &pool.pool_identifier)
        invariant
            i <= n,
            n == registry.pools@.len(),
            *registry == *old(registry),
            old(registry).well_formed(),
            pool.well_formed(),
            forall|j: int|
                0 <= j < i ==> spec_str_lt(
                    (#[trigger] registry.pools@[j]).pool_identifier@,
                    pool.pool_identifier@,
                ),
        decreases n - i,
    {
        i = i + 1;
    }
    proof {
        // what sorts below the new identifier cannot also sort above it
        assert forall|j: int| 0 <= j < i implies !spec_str_lt(
            pool.pool_identifier@,
            (#[trigger] registry.pools@[j]).pool_identifier@,
        ) by {
            if spec_str_lt(pool.pool_identifier@, registry.pools@[j].pool_identifier@) {
                lemma_str_lt_trans(
                    registry.pools@[j].pool_identifier@,
                    pool.pool_identifier@,
                    registry.pools@[j].pool_identifier@,
                );
                lemma_str_lt_irrefl(registry.pools@[j].pool_identifier@);
            }
        }
        lemma_first_greater_prefix(registry.pools@, pool.pool_identifier@, i as int);
    }
    if i < n && registry.pools[i].pool_identifier == pool.pool_identifier {
        proof {
            lemma_pool_index_unique(registry.pools@, pool.pool_identifier@, i as int);
        }
        let ghost pre = registry.pools@;
        registry.pools.set(i, pool);
        proof {
            // the replacement keeps the identifier, so order and uniqueness hold
            assert forall|a: int, b: int|
                0 <= a < b < registry.pools@.len() implies registry.pools@[a].pool_identifier@
                != registry.pools@[b].pool_identifier@ && spec_str_lt(
                registry.pools@[a].pool_identifier@,
                registry.pools@[b].pool_identifier@,
            ) by {
                assert(pre[a].pool_identifier@ != pre[b].pool_identifier@);
                assert(spec_str_lt(pre[a].pool_identifier@, pre[b].pool_identifier@));
            }
            assert forall|a: int|
                0 <= a < registry.pools@.len() implies (#[trigger] registry.pools@[
                a
            ]).well_formed() by {
                if a != i as int {
                    assert(pre[a].well_formed());
                }
            }
        }
        return ;
    }
    proof {
        // the insertion point: everything before sorts below the new
        // identifier, everything from it on sorts above
        let id = pool.pool_identifier@;
        let pre = registry.pools@;
        if i < n {
            lemma_str_lt_trichotomy(id, pre[i as int].pool_identifier@);
            assert(spec_str_lt(id, pre[i as int].pool_identifier@));
        }
        assert forall|j: int| i <= j < n implies spec_str_lt(
            id,
            (#[trigger] pre[j]).pool_identifier@,
        ) by {
            if j > i {
                lemma_str_lt_trans(
                    id,
                    pre[i as int].pool_identifier@,
                    pre[j].pool_identifier@,
                );
            }
        }
        assert forall|j: int| 0 <= j < n implies (#[trigger] pre[j]).pool_identifier@ != id by {
            if j < i {
                if pre[j].pool_identifier@ == id {
                    lemma_str_lt_irrefl(id);
                }
            } else {
                if pre[j].pool_identifier@ == id {
                    lemma_str_lt_irrefl(id);
                }
            }
        }
        assert(!spec_has_pool(pre, id));
    }
    let ghost pre = registry.pools@;
    registry.pools.insert(i, pool);
    proof {
        let s2 = registry.pools@;
        let id = pool.pool_identifier@;
        assert forall|a: int, b: int|
            0 <= a < b < s2.len() implies s2[a].pool_identifier@ != s2[b].pool_identifier@
            && spec_str_lt(s2[a].pool_identifier@, s2[b].pool_identifier@) by {
            if a < i as int && b < i as int {
                assert(spec_str_lt(pre[a].pool_identifier@, pre[b].pool_identifier@));
            } else if a < i as int && b == i as int {
                assert(spec_str_lt(pre[a].pool_identifier@, id));
            } else if a < i as int && b > i as int {
                assert(spec_str_lt(pre[a].pool_identifier@, pre[b - 1].pool_identifier@));
            } else if a == i as int {
                assert(spec_str_lt(id, pre[b - 1].pool_identifier@));
            } else {
                assert(spec_str_lt(pre[a - 1].pool_identifier@, pre[b - 1].pool_identifier@));
            }
            if s2[a].pool_identifier@ == s2[b].pool_identifier@ {
                lemma_str_lt_irrefl(s2[a].pool_identifier@);
            }
        }
        assert forall|a: int| 0 <= a < s2.len() implies (#[trigger] s2[a]).well_formed() by {
            if a < i as int {
                assert(pre[a].well_formed());
            } else if a > i as int {
                assert(pre[a - 1].well_formed());
            }
        }
    }
}

/// The first index from `i` on whose pool identifier sorts strictly after
/// `bound`; the length when none does.  Under the registry's ascending order
/// this is the exclusive lower bound of a listing page.
pub open spec fn spec_first_greater_from(pools: Seq<PoolInfo>, bound: Seq<char>, i: nat) -> int
    decreases pools.len() - i,
{
    if i >= pools.len() {
        pools.len() as int
    } else if spec_str_lt(bound, pools[i as int].pool_identifier@) {
        i as int
    } else {
        spec_first_greater_from(pools, bound, i + 1)
    }
}

/// The first-greater index is in range, nothing before it sorts after the
/// bound, and the pool at it (when in range) does.
pub proof fn lemma_first_greater_bound(pools: Seq<PoolInfo>, bound: Seq<char>)
    ensures
        0 <= spec_first_greater_from(pools, bound, 0) <= pools.len(),
        forall|j: int|
            0 <= j < spec_first_greater_from(pools, bound, 0) ==> !spec_str_lt(
                bound,
                (#[trigger] pools[j]).pool_identifier@,
            ),
        spec_first_greater_from(pools, bound, 0) < pools.len() ==> spec_str_lt(
            bound,
            pools[spec_first_greater_from(pools, bound, 0)].pool_identifier@,
        ),
{
    lemma_first_greater_props(pools, bound, 0);
}

/// As [`lemma_first_greater_bound`], from an arbitrary scan position.
proof fn lemma_first_greater_props(pools: Seq<PoolInfo>, bound: Seq<char>, i: nat)
    requires
        i <= pools.len(),
    ensures
        i <= spec_first_greater_from(pools, bound, i) <= pools.len(),
        forall|j: int|
            i <= j < spec_first_greater_from(pools, bound, i) ==> !spec_str_lt(
                bound,
                (#[trigger] pools[j]).pool_identifier@,
            ),
        spec_first_greater_from(pools, bound, i) < pools.len() ==> spec_str_lt(
            bound,
            pools[spec_first_greater_from(pools, bound, i)].pool_identifier@,
        ),
    decreases pools.len() - i,
{
    if i < pools.len() && !spec_str_lt(bound, pools[i as int].pool_identifier@) {
        lemma_first_greater_props(pools, bound, i + 1);
    }
}

/// Nothing before the first-greater index sorts after the bound, and the
/// index itself (when in range) does.
pub proof fn lemma_first_greater_prefix(pools: Seq<PoolInfo>, bound: Seq<char>, i: int)
    requires
        0 <= i <= pools.len(),
        forall|j: int| 0 <= j < i ==> !spec_str_lt(bound, (#[trigger] pools[j]).pool_identifier@),
    ensures
        spec_first_greater_from(pools, bound, i as nat) == spec_first_greater_from(
            pools,
            bound,
            0,
        ),
    decreases i,
{
    if i > 0 {
        lemma_first_greater_prefix(pools, bound, i - 1);
        assert(spec_first_greater_from(pools, bound, (i - 1) as nat) == spec_first_greater_from(
            pools,
            bound,
            i as nat,
        ));
    }
}

/// Looks a pool up by its identifier, returning a copy of the record.
pub fn get_pool_by_identifier(registry: &PoolRegistry, pool_identifier: &String) -> (r: Result<
    PoolInfo,
    ContractError,
>)
    requires
        registry.well_formed(),
    ensures
        r is Ok <==> spec_has_pool(registry.pools@, pool_identifier@),
        r matches Ok(p) ==> p.same_as(
            &registry.pools@[spec_pool_index_of(registry.pools@, pool_identifier@)],
        ) && p.well_formed(),
        !(r is Ok) ==> r == Err::<PoolInfo, ContractError>(ContractError::UnExistingPool),
{
    match get_pool_ref(registry, pool_identifier) {
        Ok(p) => Ok(p.clone()),
        Err(e) => Err(e),
    }
}

/// Queries the configuration of the contract.
pub fn query_config(registry: &PoolRegistry) -> (r: Result<Config, ContractError>)
    ensures
        r matches Ok(c) && c == registry.config,
{
    Ok(registry.config.clone())
}

/// Queries the decimal precision of one asset of one pool.
pub fn query_asset_decimals(
    registry: &PoolRegistry,
    pool_identifier: String,
    denom: String,
) -> (r: Result<AssetDecimalsResponse, ContractError>)
    requires
        registry.well_formed(),
    ensures
        r is Ok <==> (spec_has_pool(registry.pools@, pool_identifier@)
            && crate::swap::spec_has_denom(
            registry.pools@[spec_pool_index_of(registry.pools@, pool_identifier@)].assets@,
            denom@,
        )),
        r matches Ok(resp) ==> ({
            let pool = registry.pools@[spec_pool_index_of(registry.pools@, pool_identifier@)];
            &&& resp.pool_identifier@ == pool_identifier@
            &&& resp.denom@ == denom@
            &&& resp.decimals == pool.asset_decimals@[spec_index_of_denom(pool.assets@, denom@)]
        }),
        !spec_has_pool(registry.pools@, pool_identifier@) ==> r == Err::<
            AssetDecimalsResponse,
            ContractError,
        >(ContractError::UnExistingPool),
        spec_has_pool(registry.pools@, pool_identifier@) && !crate::swap::spec_has_denom(
            registry.pools@[spec_pool_index_of(registry.pools@, pool_identifier@)].assets@,
            denom@,
        ) ==> r == Err::<AssetDecimalsResponse, ContractError>(ContractError::AssetMismatch),
{
    let pool_info = match get_pool_ref(registry, &pool_identifier) {
        Ok(p) => p,
        Err(e) => {
            return Err(e);
        },
    };
    let decimal_index = match find_asset_index(&pool_info.assets, &denom) {
        Some(i) => i,
        None => {
            return Err(ContractError::AssetMismatch);
        },
    };
    proof {
        lemma_index_of_denom_unique(pool_info.assets@, denom@, decimal_index as int);
    }
    Ok(
        AssetDecimalsResponse {
            pool_identifier,
            denom,
            decimals: pool_info.asset_decimals[decimal_index],
        },
    )
}

/// Simulates a swap: how much of the ask asset the provided offer asset buys,
/// and the fees and spread along the way.
pub fn query_simulation(
    registry: &PoolRegistry,
    offer_asset: Asset,
    ask_asset_denom: String,
    pool_identifier: String,
) -> (r: Result<SimulationResponse, ContractError>)
    requires
        registry.well_formed(),
    ensures
        r is Ok <==> (spec_has_pool(registry.pools@, pool_identifier@) && spec_sim_ok(
            registry.pools@[spec_pool_index_of(registry.pools@, pool_identifier@)],
            offer_asset,
            ask_asset_denom@,
        )),
        r matches Ok(s) ==> spec_sim_response_matches(
            registry.pools@[spec_pool_index_of(registry.pools@, pool_identifier@)],
            offer_asset,
            ask_asset_denom@,
            s,
        ),
        !spec_has_pool(registry.pools@, pool_identifier@) ==> r == Err::<
            SimulationResponse,
            ContractError,
        >(ContractError::UnExistingPool),
        spec_has_pool(registry.pools@, pool_identifier@) && offer_asset.denom@ == ask_asset_denom@
            ==> r == Err::<SimulationResponse, ContractError>(ContractError::SameAsset),
        spec_has_pool(registry.pools@, pool_identifier@) && offer_asset.denom@ != ask_asset_denom@
            && !(crate::swap::spec_has_denom(
            registry.pools@[spec_pool_index_of(registry.pools@, pool_identifier@)].assets@,
            offer_asset.denom@,
        ) && crate::swap::spec_has_denom(
            registry.pools@[spec_pool_index_of(registry.pools@, pool_identifier@)].assets@,
            ask_asset_denom@,
        )) ==> r == Err::<SimulationResponse, ContractError>(ContractError::AssetMismatch),
        !(r is Ok) ==> (r == Err::<SimulationResponse, ContractError>(
            ContractError::UnExistingPool,
        ) || r == Err::<SimulationResponse, ContractError>(ContractError::SameAsset) || r
            == Err::<SimulationResponse, ContractError>(ContractError::AssetMismatch) || r
            == Err::<SimulationResponse, ContractError>(ContractError::SwapOverflowError) || r
            == Err::<SimulationResponse, ContractError>(ContractError::OverflowError) || r
            == Err::<SimulationResponse, ContractError>(ContractError::DivideByZeroError) || r
            == Err::<SimulationResponse, ContractError>(ContractError::ConvergeError)),
{
    let pool_info = match get_pool_ref(registry, &pool_identifier) {
        Ok(p) => p,
        Err(e) => {
            return Err(e);
        },
    };
    simulate_swap(pool_info, &offer_asset, &ask_asset_denom)
}

/// A reverse simulation of this swap against this pool succeeds: the two
/// denominations are distinct and present, the required gross amount leaves
/// the ask balance positive, and every intermediate fits in 128 bits.
pub open spec fn spec_reverse_sim_ok(pool: PoolInfo, ask_asset: Asset, offer_denom: Seq<char>) -> bool {
    let oi = spec_index_of_denom(pool.assets@, offer_denom);
    let ai = spec_index_of_denom(pool.assets@, ask_asset.denom@);
    &&& offer_denom != ask_asset.denom@
    &&& crate::swap::spec_has_denom(pool.assets@, offer_denom)
    &&& crate::swap::spec_has_denom(pool.assets@, ask_asset.denom@)
    &&& (match pool.pool_type {
        PoolType::ConstantProduct => {
            let g = spec_gross_needed(ask_asset.amount, pool.pool_fees);
            &&& g <= u128::MAX as int
            &&& g < pool.assets@[ai].amount
            &&& spec_mul_div_ceil(
                pool.assets@[oi].amount as int,
                pool.assets@[ai].amount as int,
                pool.assets@[ai].amount - g,
            ) <= u128::MAX as int
            &&& crate::swap::spec_swap_fees_fit(g, pool.pool_fees)
        },
        PoolType::StableSwap { amp } => {
            let od = pool.asset_decimals@[oi];
            let ad = pool.asset_decimals@[ai];
            let fo = spec_factor(od, od, ad);
            let fa = spec_factor(ad, od, ad);
            let opn = pool.assets@[oi].amount * fo;
            let apn = pool.assets@[ai].amount * fa;
            let askn = ask_asset.amount * fa;
            let gn = spec_mul_div_ceil(
                askn,
                FEE_SCALE as int,
                FEE_SCALE - pool.pool_fees.spec_total_shares(),
            );
            &&& opn <= u128::MAX as int
            &&& apn <= u128::MAX as int
            &&& askn <= u128::MAX as int
            &&& gn <= u128::MAX as int
            &&& (spec_y_full(
                pool.assets@.len() as int,
                opn as u128,
                apn as u128,
                gn as u128,
                amp as int,
                StableSwapDirection::ReverseSimulate,
            ) matches Some(y) && y >= opn)
            &&& crate::swap::spec_swap_fees_fit(gn / fa, pool.pool_fees)
        },
    })
}

/// The reverse solver for this swap survived its iteration budget without
/// converging: every stage before the Newton iteration succeeds, and the
/// iteration itself runs out.
pub open spec fn spec_reverse_ran_out(pool: PoolInfo, ask_asset: Asset, offer_denom: Seq<char>) -> bool {
    let oi = spec_index_of_denom(pool.assets@, offer_denom);
    let ai = spec_index_of_denom(pool.assets@, ask_asset.denom@);
    &&& offer_denom != ask_asset.denom@
    &&& crate::swap::spec_has_denom(pool.assets@, offer_denom)
    &&& crate::swap::spec_has_denom(pool.assets@, ask_asset.denom@)
    &&& (match pool.pool_type {
        PoolType::ConstantProduct => false,
        PoolType::StableSwap { amp } => {
            let od = pool.asset_decimals@[oi];
            let ad = pool.asset_decimals@[ai];
            let fo = spec_factor(od, od, ad);
            let fa = spec_factor(ad, od, ad);
            let opn = pool.assets@[oi].amount * fo;
            let apn = pool.assets@[ai].amount * fa;
            let askn = ask_asset.amount * fa;
            let gn = spec_mul_div_ceil(
                askn,
                FEE_SCALE as int,
                FEE_SCALE - pool.pool_fees.spec_total_shares(),
            );
            &&& opn <= u128::MAX as int
            &&& apn <= u128::MAX as int
            &&& askn <= u128::MAX as int
            &&& gn <= u128::MAX as int
            &&& crate::stable::spec_y_ran_out(
                pool.assets@.len() as int,
                opn as u128,
                apn as u128,
                gn as u128,
                amp as int,
                StableSwapDirection::ReverseSimulate,
            )
        },
    })
}

/// Simulates a swap backwards: the offer amount required so that, after fees,
/// the trader receives the desired ask amount.  For a constant-product pool
/// the inverse is algebraic; for a stableswap pool the invariant solver walks
/// the reverse direction at the common precision of the two assets.
#[verifier::rlimit(30)]
pub fn query_reverse_simulation(
    registry: &PoolRegistry,
    ask_asset: Asset,
    offer_asset_denom: String,
    pool_identifier: String,
) -> (r: Result<ReverseSimulationResponse, ContractError>)
    requires
        registry.well_formed(),
    ensures
        r is Ok <==> (spec_has_pool(registry.pools@, pool_identifier@) && spec_reverse_sim_ok(
            registry.pools@[spec_pool_index_of(registry.pools@, pool_identifier@)],
            ask_asset,
            offer_asset_denom@,
        )),
        // non-convergence of the reverse Newton iteration is reported
        // distinctly from every arithmetic failure
        (r == Err::<ReverseSimulationResponse, ContractError>(ContractError::ConvergeError)) <==> (
        spec_has_pool(registry.pools@, pool_identifier@) && spec_reverse_ran_out(
            registry.pools@[spec_pool_index_of(registry.pools@, pool_identifier@)],
            ask_asset,
            offer_asset_denom@,
        )),
        !(r is Ok) ==> (r == Err::<ReverseSimulationResponse, ContractError>(
            ContractError::UnExistingPool,
        ) || r == Err::<ReverseSimulationResponse, ContractError>(ContractError::SameAsset) || r
            == Err::<ReverseSimulationResponse, ContractError>(ContractError::AssetMismatch) || r
            == Err::<ReverseSimulationResponse, ContractError>(ContractError::SwapOverflowError)
            || r == Err::<ReverseSimulationResponse, ContractError>(ContractError::OverflowError)
            || r == Err::<ReverseSimulationResponse, ContractError>(
            ContractError::DivideByZeroError,
        ) || r == Err::<ReverseSimulationResponse, ContractError>(ContractError::ConvergeError)),
        // a constant-product pool that cannot cover the asked amount fails
        // in the arithmetic family, never with a lookup or convergence error
        (spec_has_pool(registry.pools@, pool_identifier@) && registry.pools@[spec_pool_index_of(
            registry.pools@,
            pool_identifier@,
        )].pool_type is ConstantProduct && offer_asset_denom@ != ask_asset.denom@
            && crate::swap::spec_has_denom(
            registry.pools@[spec_pool_index_of(registry.pools@, pool_identifier@)].assets@,
            offer_asset_denom@,
        ) && crate::swap::spec_has_denom(
            registry.pools@[spec_pool_index_of(registry.pools@, pool_identifier@)].assets@,
            ask_asset.denom@,
        ) && !(r is Ok)) ==> (r == Err::<ReverseSimulationResponse, ContractError>(
            ContractError::OverflowError,
        ) || r == Err::<ReverseSimulationResponse, ContractError>(
            ContractError::DivideByZeroError,
        )),
        r matches Ok(resp) ==> ({
            let pool = registry.pools@[spec_pool_index_of(registry.pools@, pool_identifier@)];
            let oi = spec_index_of_denom(pool.assets@, offer_asset_denom@);
            let ai = spec_index_of_denom(pool.assets@, ask_asset.denom@);
            &&& crate::swap::spec_has_denom(pool.assets@, offer_asset_denom@)
            &&& crate::swap::spec_has_denom(pool.assets@, ask_asset.denom@)
            &&& offer_asset_denom@ != ask_asset.denom@
            &&& (match pool.pool_type {
                PoolType::ConstantProduct => ({
                    let g = spec_gross_needed(ask_asset.amount, pool.pool_fees);
                    &&& resp.offer_amount == spec_offer_needed(
                        pool.assets@[oi].amount,
                        pool.assets@[ai].amount,
                        g,
                    )
                    &&& resp.spread_amount == spec_spread_amount(resp.offer_amount as int, g)
                    &&& resp.swap_fee_amount == spec_fee_amount(
                        g,
                        pool.pool_fees.swap_fee.share as int,
                    )
                    &&& resp.protocol_fee_amount == spec_fee_amount(
                        g,
                        pool.pool_fees.protocol_fee.share as int,
                    )
                    &&& resp.burn_fee_amount == spec_fee_amount(
                        g,
                        pool.pool_fees.burn_fee.share as int,
                    )
                    &&& resp.extra_fees_amount == spec_extra_fees_amount(
                        g,
                        pool.pool_fees.extra_fees@,
                    )
                }),
                PoolType::StableSwap { amp } => ({
                    let od = pool.asset_decimals@[oi];
                    let ad = pool.asset_decimals@[ai];
                    let fo = spec_factor(od, od, ad);
                    let fa = spec_factor(ad, od, ad);
                    let opn = pool.assets@[oi].amount * fo;
                    let apn = pool.assets@[ai].amount * fa;
                    let gn = spec_mul_div_ceil(
                        ask_asset.amount * fa,
                        FEE_SCALE as int,
                        FEE_SCALE - pool.pool_fees.spec_total_shares(),
                    );
                    let gn_offer = gn / fo;
                    let gn_ask = gn / fa;
                    &&& spec_y_full(
                        pool.assets@.len() as int,
                        opn as u128,
                        apn as u128,
                        gn as u128,
                        amp as int,
                        StableSwapDirection::ReverseSimulate,
                    ) matches Some(y)
                    &&& y >= opn
                    &&& resp.offer_amount == (y - opn) / fo
                    &&& resp.spread_amount == spec_spread_amount(resp.offer_amount as int, gn_offer)
                    &&& resp.swap_fee_amount == spec_fee_amount(
                        gn_ask,
                        pool.pool_fees.swap_fee.share as int,
                    )
                    &&& resp.protocol_fee_amount == spec_fee_amount(
                        gn_ask,
                        pool.pool_fees.protocol_fee.share as int,
                    )
                    &&& resp.burn_fee_amount == spec_fee_amount(
                        gn_ask,
                        pool.pool_fees.burn_fee.share as int,
                    )
                    &&& resp.extra_fees_amount == spec_extra_fees_amount(
                        gn_ask,
                        pool.pool_fees.extra_fees@,
                    )
                }),
            })
        }),
{
    let pool_info = match get_pool_ref(registry, &pool_identifier) {
        Ok(p) => p,
        Err(e) => {
            return Err(e);
        },
    };
    let (offer_in_pool, ask_in_pool, _oi, _ai, offer_decimal, ask_decimal) =
        match get_asset_indexes_in_pool(pool_info, &offer_asset_denom, &ask_asset.denom) {
        Ok(t) => t,
        Err(e) => {
            return Err(e);
        },
    };
    match &pool_info.pool_type {
        PoolType::ConstantProduct => {
            let c = match compute_offer_amount(
                offer_in_pool.amount,
                ask_in_pool.amount,
                ask_asset.amount,
                &pool_info.pool_fees,
            ) {
                Ok(c) => c,
                Err(e) => {
                    return Err(e);
                },
            };
            Ok(
                ReverseSimulationResponse {
                    offer_amount: c.offer_amount,
                    spread_amount: c.spread_amount,
                    swap_fee_amount: c.swap_fee_amount,
                    protocol_fee_amount: c.protocol_fee_amount,
                    burn_fee_amount: c.burn_fee_amount,
                    extra_fees_amount: c.extra_fees_amount,
                },
            )
        },
        PoolType::StableSwap { amp } => {
            let max_dec = if offer_decimal >= ask_decimal {
                offer_decimal
            } else {
                ask_decimal
            };
            let offer_pool_n = match normalize_amount(offer_in_pool.amount, offer_decimal, max_dec)
                {
                Ok(v) => v,
                Err(e) => {
                    return Err(e);
                },
            };
            let ask_pool_n = match normalize_amount(ask_in_pool.amount, ask_decimal, max_dec) {
                Ok(v) => v,
                Err(e) => {
                    return Err(e);
                },
            };
            let ask_amount_n = match normalize_amount(ask_asset.amount, ask_decimal, max_dec) {
                Ok(v) => v,
                Err(e) => {
                    return Err(e);
                },
            };
            let ts = total_fee_shares(&pool_info.pool_fees);
            let gross_n = match crate::math::mul_div_ceil(ask_amount_n, FEE_SCALE, FEE_SCALE - ts)
                {
                Ok(v) => v,
                Err(e) => {
                    return Err(e);
                },
            };
            let y = match calculate_stableswap_y(
                pool_info.assets.len() as u64,
                offer_pool_n,
                ask_pool_n,
                gross_n,
                *amp,
                StableSwapDirection::ReverseSimulate,
            ) {
                Ok(v) => v,
                Err(e) => {
                    return Err(e);
                },
            };
            let offer_amount_n = match y.checked_sub(offer_pool_n) {
                Some(v) => v,
                None => {
                    return Err(ContractError::SwapOverflowError);
                },
            };
            let offer_amount = denormalize_amount(offer_amount_n, offer_decimal, max_dec);
            let gross_offer = denormalize_amount(gross_n, offer_decimal, max_dec);
            let gross_ask = denormalize_amount(gross_n, ask_decimal, max_dec);
            let spread_amount = if gross_offer <= offer_amount {
                offer_amount - gross_offer
            } else {
                0
            };
            let swap_fee_amount = match pool_info.pool_fees.swap_fee.compute(gross_ask) {
                Ok(v) => v,
                Err(e) => {
                    return Err(e);
                },
            };
            let protocol_fee_amount = match pool_info.pool_fees.protocol_fee.compute(gross_ask) {
                Ok(v) => v,
                Err(e) => {
                    return Err(e);
                },
            };
            let burn_fee_amount = match pool_info.pool_fees.burn_fee.compute(gross_ask) {
                Ok(v) => v,
                Err(e) => {
                    return Err(e);
                },
            };
            let extra_total = match extra_fees_amount(gross_ask, &pool_info.pool_fees.extra_fees) {
                Ok(v) => v,
                Err(e) => {
                    return Err(e);
                },
            };
            Ok(
                ReverseSimulationResponse {
                    offer_amount,
                    spread_amount,
                    swap_fee_amount,
                    protocol_fee_amount,
                    burn_fee_amount,
                    extra_fees_amount: extra_total,
                },
            )
        },
    }
}

/// One pool together with its LP supply read from the snapshot (zero when the
/// snapshot bears no entry for the LP denomination).
fn get_pool(registry: &PoolRegistry, supplies: &Vec<Asset>, pool_identifier: &String) -> (r: Result<
    PoolInfoResponse,
    ContractError,
>)
    requires
        registry.well_formed(),
    ensures
        r is Ok <==> spec_has_pool(registry.pools@, pool_identifier@),
        r matches Ok(pr) ==> ({
            let pool = registry.pools@[spec_pool_index_of(registry.pools@, pool_identifier@)];
            &&& pr.pool_info.same_as(&pool)
            &&& pr.total_share as int == (match crate::swap::spec_amount_of(
                supplies@,
                pool.lp_denom@,
            ) {
                Option::Some(v) => v,
                Option::None => 0,
            })
        }),
{
    let pool_info = match get_pool_ref(registry, pool_identifier) {
        Ok(p) => p,
        Err(e) => {
            return Err(e);
        },
    };
    let total_share = match find_asset_amount(supplies, &pool_info.lp_denom) {
        Some(v) => v,
        None => 0,
    };
    Ok(PoolInfoResponse { pool_info: pool_info.clone(), total_share })
}

/// The page size a listing call uses: the caller's limit, defaulted and
/// capped.
pub open spec fn spec_page_limit(limit: Option<u32>) -> int {
    let l = match limit {
        Option::Some(l) => l as int,
        Option::None => DEFAULT_LIMIT as int,
    };
    if l < MAX_LIMIT as int {
        l
    } else {
        MAX_LIMIT as int
    }
}

/// Where a listing page begins: at the first pool whose identifier sorts
/// strictly after `start_after` (an exclusive bound, stored or not), and at
/// the beginning when no bound is given.
pub open spec fn spec_page_start(pools: Seq<PoolInfo>, start_after: Option<String>) -> int {
    match start_after {
        Option::None => 0,
        Option::Some(s) => spec_first_greater_from(pools, s@, 0),
    }
}

/// The LP supply a snapshot reports for a denomination: the first matching
/// entry's amount, and zero when the snapshot bears none.
pub open spec fn spec_supply_of(supplies: Seq<Asset>, denom: Seq<char>) -> int {
    match crate::swap::spec_amount_of(supplies, denom) {
        Option::Some(v) => v,
        Option::None => 0,
    }
}

/// Lists pools with their LP supplies: one pool when an identifier is given,
/// otherwise the page of up to `limit` pools (capped at [`MAX_LIMIT`])
/// starting after the pool named by `start_after`, in registry order.
pub fn get_pools(
    registry: &PoolRegistry,
    supplies: &Vec<Asset>,
    pool_identifier: Option<String>,
    start_after: Option<String>,
    limit: Option<u32>,
) -> (r: Result<PoolsResponse, ContractError>)
    requires
        registry.well_formed(),
    ensures
        pool_identifier matches Some(id) ==> ((r is Ok <==> spec_has_pool(registry.pools@, id@))
            && (r matches Ok(resp) ==> ({
            let pool = registry.pools@[spec_pool_index_of(registry.pools@, id@)];
            &&& resp.pools@.len() == 1
            &&& resp.pools@[0].pool_info.same_as(&pool)
            &&& resp.pools@[0].total_share == spec_supply_of(supplies@, pool.lp_denom@)
        }))),
        pool_identifier is None ==> (r matches Ok(resp) && ({
            let start = spec_page_start(registry.pools@, start_after);
            let avail = registry.pools@.len() - start;
            let lim = spec_page_limit(limit);
            &&& resp.pools@.len() == (if lim <= avail {
                lim
            } else {
                avail
            })
            &&& forall|k: int|
                0 <= k < resp.pools@.len() ==> ((#[trigger] resp.pools@[k]).pool_info.same_as(
                    &registry.pools@[start + k],
                ) && resp.pools@[k].total_share == spec_supply_of(
                    supplies@,
                    registry.pools@[start + k].lp_denom@,
                ))
        })),
        // the page law: the bound is exclusive whether or not it names a
        // stored pool — nothing at or below it is listed, everything listed
        // sorts strictly after it, and the page is ascending
        pool_identifier is None ==> (start_after matches Some(s) ==> (r matches Ok(resp) && ({
            let start = spec_page_start(registry.pools@, start_after);
            &&& (forall|j: int|
                0 <= j < start ==> !spec_str_lt(
                    s@,
                    (#[trigger] registry.pools@[j]).pool_identifier@,
                ))
            &&& (start < registry.pools@.len() ==> spec_str_lt(
                s@,
                registry.pools@[start].pool_identifier@,
            ))
            &&& (forall|k: int|
                0 <= k < resp.pools@.len() ==> spec_str_lt(
                    s@,
                    (#[trigger] resp.pools@[k]).pool_info.pool_identifier@,
                ))
        }))),
        pool_identifier is None ==> (r matches Ok(resp) && (forall|k1: int, k2: int|
            0 <= k1 < k2 < resp.pools@.len() ==> spec_str_lt(
                resp.pools@[k1].pool_info.pool_identifier@,
                resp.pools@[k2].pool_info.pool_identifier@,
            ))),
{
    match pool_identifier {
        Some(id) => {
            let one = match get_pool(registry, supplies, &id) {
                Ok(p) => p,
                Err(e) => {
                    return Err(e);
                },
            };
            let mut pools: Vec<PoolInfoResponse> = Vec::new();
            pools.push(one);
            Ok(PoolsResponse { pools })
        },
        None => {
            let lim_u32: u32 = match limit {
                Some(l) => if l < MAX_LIMIT {
                    l
                } else {
                    MAX_LIMIT
                },
                None => DEFAULT_LIMIT,
            };
            let lim = lim_u32 as usize;
            let start: usize = match &start_after {
                Some(s) => {
                    let n = registry.pools.len();
                    let mut j: usize = 0;
                    while j < n && !str_lt(s, &registry.pools[j].pool_identifier)
                        invariant
                            j <= n,
                            n == registry.pools@.len(),
                            forall|jj: int|
                                0 <= jj < j ==> !spec_str_lt(
                                    s@,
                                    (#[trigger] registry.pools@[jj]).pool_identifier@,
                                ),
                        decreases n - j,
                    {
                        j = j + 1;
                    }
                    proof {
                        lemma_first_greater_prefix(registry.pools@, s@, j as int);
                    }
                    j
                },
                None => 0,
            };
            proof {
                assert(start == spec_page_start(registry.pools@, start_after));
                match &start_after {
                    Some(s) => {
                        lemma_first_greater_bound(registry.pools@, s@);
                    },
                    None => {},
                }
            }
            let mut pools: Vec<PoolInfoResponse> = Vec::new();
            let mut i: usize = start;
            while i < registry.pools.len() && pools.len() < lim
                invariant
                    registry.well_formed(),
                    start <= i,
                    i <= registry.pools@.len() || i == start,
                    start == spec_page_start(registry.pools@, start_after),
                    pools@.len() == i - start,
                    pools@.len() <= lim,
                    lim == spec_page_limit(limit),
                    forall|k: int|
                        0 <= k < pools@.len() ==> ((#[trigger] pools@[k]).pool_info.same_as(
                            &registry.pools@[start + k],
                        ) && pools@[k].total_share == spec_supply_of(
                            supplies@,
                            registry.pools@[start + k].lp_denom@,
                        )),
                decreases registry.pools@.len() - i,
            {
                let total_share = match find_asset_amount(supplies, &registry.pools[i].lp_denom) {
                    Some(v) => v,
                    None => 0,
                };
                pools.push(
                    PoolInfoResponse { pool_info: registry.pools[i].clone(), total_share },
                );
                i = i + 1;
            }
            proof {
                // everything listed sorts strictly after the bound, and the
                // page itself is ascending, because the store is
                match &start_after {
                    Some(s) => {
                        assert forall|k: int|
                            0 <= k < pools@.len() implies spec_str_lt(
                            s@,
                            (#[trigger] pools@[k]).pool_info.pool_identifier@,
                        ) by {
                            if k > 0 {
                                lemma_str_lt_trans(
                                    s@,
                                    registry.pools@[start as int].pool_identifier@,
                                    registry.pools@[start + k].pool_identifier@,
                                );
                            }
                        }
                    },
                    None => {},
                }
                assert forall|k1: int, k2: int|
                    0 <= k1 < k2 < pools@.len() implies spec_str_lt(
                    pools@[k1].pool_info.pool_identifier@,
                    pools@[k2].pool_info.pool_identifier@,
                ) by {
                    assert(spec_str_lt(
                        registry.pools@[start + k1].pool_identifier@,
                        registry.pools@[start + k2].pool_identifier@,
                    ));
                }
            }
            Ok(PoolsResponse { pools })
        },
    }
}

/// The amount a chain of simulated hops returns, threading each hop's return
/// into the next hop's offer from hop `i` on; `None` where any hop fails.
pub open spec fn spec_chain_return(
    pools: Seq<PoolInfo>,
    amount: u128,
    ops: Seq<SwapOperation>,
    i: nat,
) -> Option<int>
    decreases ops.len() - i,
{
    if i >= ops.len() {
        Some(amount as int)
    } else {
        match ops[i as int] {
            SwapOperation::MantraSwap { token_in_denom, token_out_denom, pool_identifier } => {
                if !spec_has_pool(pools, pool_identifier@) {
                    Option::None
                } else {
                    let pool = pools[spec_pool_index_of(pools, pool_identifier@)];
                    let offer = Asset { denom: token_in_denom, amount };
                    if !crate::swap::spec_sim_ok(pool, offer, token_out_denom@) {
                        Option::None
                    } else {
                        let ret = crate::swap::spec_hop_return(pool, offer, token_out_denom@);
                        if 0 <= ret <= u128::MAX as int {
                            spec_chain_return(pools, ret as u128, ops, i + 1)
                        } else {
                            Option::None
                        }
                    }
                }
            },
        }
    }
}

/// Total of one output field (`kind` as in [`crate::swap::spec_hop_part`])
/// over the hops from `i` on whose output denomination is `denom`, following
/// the chained amounts; contributions stop where the chain fails.
pub open spec fn spec_chain_fee(
    pools: Seq<PoolInfo>,
    amount: u128,
    ops: Seq<SwapOperation>,
    i: nat,
    denom: Seq<char>,
    kind: int,
) -> int
    decreases ops.len() - i,
{
    if i >= ops.len() {
        0
    } else {
        match ops[i as int] {
            SwapOperation::MantraSwap { token_in_denom, token_out_denom, pool_identifier } => {
                if !spec_has_pool(pools, pool_identifier@) {
                    0
                } else {
                    let pool = pools[spec_pool_index_of(pools, pool_identifier@)];
                    let offer = Asset { denom: token_in_denom, amount };
                    if !crate::swap::spec_sim_ok(pool, offer, token_out_denom@) {
                        0
                    } else {
                        let here = if token_out_denom@ == denom {
                            crate::swap::spec_hop_part(pool, offer, token_out_denom@, kind)
                        } else {
                            0
                        };
                        let ret = crate::swap::spec_hop_return(pool, offer, token_out_denom@);
                        here + (if 0 <= ret <= u128::MAX as int {
                            spec_chain_fee(pools, ret as u128, ops, i + 1, denom, kind)
                        } else {
                            0
                        })
                    }
                }
            },
        }
    }
}

/// Simulates a chain of swaps forward: each hop's return amount becomes the
/// next hop's offer amount, and the fees and spreads of all hops are
/// aggregated by denomination at the end.
pub fn simulate_swap_operations(
    registry: &PoolRegistry,
    offer_amount: u128,
    operations: &Vec<SwapOperation>,
) -> (r: Result<SimulateSwapOperationsResponse, ContractError>)
    requires
        registry.well_formed(),
    ensures
        (r == Err::<SimulateSwapOperationsResponse, ContractError>(
            ContractError::NoSwapOperationsProvided,
        )) <==> operations@.len() == 0,
        r is Ok ==> operations@.len() > 0,
        r matches Ok(resp) ==> Some(resp.return_amount as int) == spec_chain_return(
            registry.pools@,
            offer_amount,
            operations@,
            0,
        ),
        (operations@.len() == 1 && spec_chain_return(
            registry.pools@,
            offer_amount,
            operations@,
            0,
        ) is Some) ==> r is Ok,
        // a failure is the empty-chain rejection, a failing hop's own error,
        // or an aggregation overflow
        !(r is Ok) ==> (r == Err::<SimulateSwapOperationsResponse, ContractError>(
            ContractError::NoSwapOperationsProvided,
        ) || r == Err::<SimulateSwapOperationsResponse, ContractError>(
            ContractError::UnExistingPool,
        ) || r == Err::<SimulateSwapOperationsResponse, ContractError>(ContractError::SameAsset)
            || r == Err::<SimulateSwapOperationsResponse, ContractError>(
            ContractError::AssetMismatch,
        ) || r == Err::<SimulateSwapOperationsResponse, ContractError>(
            ContractError::SwapOverflowError,
        ) || r == Err::<SimulateSwapOperationsResponse, ContractError>(
            ContractError::OverflowError,
        ) || r == Err::<SimulateSwapOperationsResponse, ContractError>(
            ContractError::DivideByZeroError,
        ) || r == Err::<SimulateSwapOperationsResponse, ContractError>(
            ContractError::ConvergeError,
        )),
        // a priceable chain whose per-denomination fee totals fit is served
        (operations@.len() > 0 && spec_chain_return(
            registry.pools@,
            offer_amount,
            operations@,
            0,
        ) is Some && (forall|d: Seq<char>, kind: int|
            0 <= kind < 5 ==> #[trigger] spec_chain_fee(
                registry.pools@,
                offer_amount,
                operations@,
                0,
                d,
                kind,
            ) <= u128::MAX as int)) ==> r is Ok,
        // each fee list carries, per denomination, exactly the sum of the
        // per-hop amounts in the hop's output denomination, zeros dropped
        r matches Ok(resp) ==> (forall|d: Seq<char>|
            #[trigger] spec_denom_amount(resp.spreads@, d) == spec_chain_fee(
                registry.pools@,
                offer_amount,
                operations@,
                0,
                d,
                0,
            )),
        r matches Ok(resp) ==> (forall|d: Seq<char>|
            #[trigger] spec_denom_amount(resp.swap_fees@, d) == spec_chain_fee(
                registry.pools@,
                offer_amount,
                operations@,
                0,
                d,
                1,
            )),
        r matches Ok(resp) ==> (forall|d: Seq<char>|
            #[trigger] spec_denom_amount(resp.protocol_fees@, d) == spec_chain_fee(
                registry.pools@,
                offer_amount,
                operations@,
                0,
                d,
                2,
            )),
        r matches Ok(resp) ==> (forall|d: Seq<char>|
            #[trigger] spec_denom_amount(resp.burn_fees@, d) == spec_chain_fee(
                registry.pools@,
                offer_amount,
                operations@,
                0,
                d,
                3,
            )),
        r matches Ok(resp) ==> (forall|d: Seq<char>|
            #[trigger] spec_denom_amount(resp.extra_fees@, d) == spec_chain_fee(
                registry.pools@,
                offer_amount,
                operations@,
                0,
                d,
                4,
            )),
        r matches Ok(resp) ==> ({
            &&& spec_denoms_unique(resp.spreads@)
            &&& spec_denoms_unique(resp.swap_fees@)
            &&& spec_denoms_unique(resp.protocol_fees@)
            &&& spec_denoms_unique(resp.burn_fees@)
            &&& spec_denoms_unique(resp.extra_fees@)
            &&& (forall|j: int| 0 <= j < resp.spreads@.len() ==> (#[trigger] resp.spreads@[j]).amount
                > 0)
            &&& (forall|j: int|
                0 <= j < resp.swap_fees@.len() ==> (#[trigger] resp.swap_fees@[j]).amount > 0)
            &&& (forall|j: int|
                0 <= j < resp.protocol_fees@.len() ==> (#[trigger] resp.protocol_fees@[j]).amount
                    > 0)
            &&& (forall|j: int|
                0 <= j < resp.burn_fees@.len() ==> (#[trigger] resp.burn_fees@[j]).amount > 0)
            &&& (forall|j: int|
                0 <= j < resp.extra_fees@.len() ==> (#[trigger] resp.extra_fees@[j]).amount > 0)
        }),
{
    if operations.len() == 0 {
        return Err(ContractError::NoSwapOperationsProvided);
    }
    let mut amount = offer_amount;
    let mut spreads: Vec<Asset> = Vec::new();
    let mut swap_fees: Vec<Asset> = Vec::new();
    let mut protocol_fees: Vec<Asset> = Vec::new();
    let mut burn_fees: Vec<Asset> = Vec::new();
    let mut extra_fees: Vec<Asset> = Vec::new();

    let ghost pools = registry.pools@;
    let ghost ops = operations@;
    let mut i: usize = 0;
    while i < operations.len()
        invariant
            i <= operations@.len(),
            operations@.len() > 0,
            registry.well_formed(),
            pools == registry.pools@,
            ops == operations@,
            spec_chain_return(pools, amount, ops, i as nat) == spec_chain_return(
                pools,
                offer_amount,
                ops,
                0,
            ),
            forall|d: Seq<char>|
                #[trigger] spec_denom_amount(spreads@, d) + spec_chain_fee(
                    pools,
                    amount,
                    ops,
                    i as nat,
                    d,
                    0,
                ) == spec_chain_fee(pools, offer_amount, ops, 0, d, 0),
            forall|d: Seq<char>|
                #[trigger] spec_denom_amount(swap_fees@, d) + spec_chain_fee(
                    pools,
                    amount,
                    ops,
                    i as nat,
                    d,
                    1,
                ) == spec_chain_fee(pools, offer_amount, ops, 0, d, 1),
            forall|d: Seq<char>|
                #[trigger] spec_denom_amount(protocol_fees@, d) + spec_chain_fee(
                    pools,
                    amount,
                    ops,
                    i as nat,
                    d,
                    2,
                ) == spec_chain_fee(pools, offer_amount, ops, 0, d, 2),
            forall|d: Seq<char>|
                #[trigger] spec_denom_amount(burn_fees@, d) + spec_chain_fee(
                    pools,
                    amount,
                    ops,
                    i as nat,
                    d,
                    3,
                ) == spec_chain_fee(pools, offer_amount, ops, 0, d, 3),
            forall|d: Seq<char>|
                #[trigger] spec_denom_amount(extra_fees@, d) + spec_chain_fee(
                    pools,
                    amount,
                    ops,
                    i as nat,
                    d,
                    4,
                ) == spec_chain_fee(pools, offer_amount, ops, 0, d, 4),
            forall|j: int| 0 <= j < spreads@.len() ==> (#[trigger] spreads@[j]).amount > 0,
            forall|j: int| 0 <= j < swap_fees@.len() ==> (#[trigger] swap_fees@[j]).amount > 0,
            forall|j: int|
                0 <= j < protocol_fees@.len() ==> (#[trigger] protocol_fees@[j]).amount > 0,
            forall|j: int| 0 <= j < burn_fees@.len() ==> (#[trigger] burn_fees@[j]).amount > 0,
            forall|j: int| 0 <= j < extra_fees@.len() ==> (#[trigger] extra_fees@[j]).amount > 0,
            spreads@.len() <= i,
            swap_fees@.len() <= i,
            protocol_fees@.len() <= i,
            burn_fees@.len() <= i,
            extra_fees@.len() <= i,
        decreases operations@.len() - i,
    {
        let ghost amount0 = amount;
        match &operations[i] {
            SwapOperation::MantraSwap { token_in_denom, token_out_denom, pool_identifier } => {
                let res = match query_simulation(
                    registry,
                    Asset { denom: token_in_denom.clone(), amount },
                    token_out_denom.clone(),
                    pool_identifier.clone(),
                ) {
                    Ok(res) => res,
                    Err(e) => {
                        proof {
                            // had the chain been serviceable, this hop's
                            // simulation would have succeeded
                            if spec_chain_return(pools, offer_amount, ops, 0) is Some {
                                assert(spec_chain_return(pools, amount, ops, i as nat) is Some);
                                assert(false);
                            }
                        }
                        return Err(e);
                    },
                };
                let ghost pool_g = pools[spec_pool_index_of(pools, pool_identifier@)];
                let ghost offer_g = Asset { denom: *token_in_denom, amount: amount0 };
                proof {
                    assert(crate::swap::spec_hop_return(pool_g, offer_g, token_out_denom@)
                        == res.return_amount as int);
                }
                amount = res.return_amount;
                let ghost pre_sp = spreads@;
                if res.spread_amount > 0 {
                    spreads.push(
                        Asset { denom: token_out_denom.clone(), amount: res.spread_amount },
                    );
                }
                let ghost pre_sw = swap_fees@;
                if res.swap_fee_amount > 0 {
                    swap_fees.push(
                        Asset { denom: token_out_denom.clone(), amount: res.swap_fee_amount },
                    );
                }
                let ghost pre_pr = protocol_fees@;
                if res.protocol_fee_amount > 0 {
                    protocol_fees.push(
                        Asset { denom: token_out_denom.clone(), amount: res.protocol_fee_amount },
                    );
                }
                let ghost pre_bu = burn_fees@;
                if res.burn_fee_amount > 0 {
                    burn_fees.push(
                        Asset { denom: token_out_denom.clone(), amount: res.burn_fee_amount },
                    );
                }
                let ghost pre_ex = extra_fees@;
                if res.extra_fees_amount > 0 {
                    extra_fees.push(
                        Asset { denom: token_out_denom.clone(), amount: res.extra_fees_amount },
                    );
                }
                proof {
                    // each list gains exactly this hop's contribution in the
                    // hop's output denomination
                    assert forall|d: Seq<char>|
                        #[trigger] spec_denom_amount(spreads@, d) == spec_denom_amount(pre_sp, d)
                        + (if token_out_denom@ == d {
                        crate::swap::spec_hop_part(pool_g, offer_g, token_out_denom@, 0)
                    } else {
                        0
                    }) by {
                        if res.spread_amount > 0 {
                            lemma_denom_amount_push(pre_sp, d, spreads@.last());
                        }
                    }
                    assert forall|d: Seq<char>|
                        #[trigger] spec_denom_amount(swap_fees@, d) == spec_denom_amount(pre_sw, d)
                        + (if token_out_denom@ == d {
                        crate::swap::spec_hop_part(pool_g, offer_g, token_out_denom@, 1)
                    } else {
                        0
                    }) by {
                        if res.swap_fee_amount > 0 {
                            lemma_denom_amount_push(pre_sw, d, swap_fees@.last());
                        }
                    }
                    assert forall|d: Seq<char>|
                        #[trigger] spec_denom_amount(protocol_fees@, d) == spec_denom_amount(
                        pre_pr,
                        d,
                    ) + (if token_out_denom@ == d {
                        crate::swap::spec_hop_part(pool_g, offer_g, token_out_denom@, 2)
                    } else {
                        0
                    }) by {
                        if res.protocol_fee_amount > 0 {
                            lemma_denom_amount_push(pre_pr, d, protocol_fees@.last());
                        }
                    }
                    assert forall|d: Seq<char>|
                        #[trigger] spec_denom_amount(burn_fees@, d) == spec_denom_amount(pre_bu, d)
                        + (if token_out_denom@ == d {
                        crate::swap::spec_hop_part(pool_g, offer_g, token_out_denom@, 3)
                    } else {
                        0
                    }) by {
                        if res.burn_fee_amount > 0 {
                            lemma_denom_amount_push(pre_bu, d, burn_fees@.last());
                        }
                    }
                    assert forall|d: Seq<char>|
                        #[trigger] spec_denom_amount(extra_fees@, d) == spec_denom_amount(pre_ex, d)
                        + (if token_out_denom@ == d {
                        crate::swap::spec_hop_part(pool_g, offer_g, token_out_denom@, 4)
                    } else {
                        0
                    }) by {
                        if res.extra_fees_amount > 0 {
                            lemma_denom_amount_push(pre_ex, d, extra_fees@.last());
                        }
                    }
                }
            },
        }
        i = i + 1;
    }

    let spreads = match crate::liquidity::aggregate_coins(&spreads) {
        Ok(v) => v,
        Err(e) => {
            return Err(e);
        },
    };
    let swap_fees = match crate::liquidity::aggregate_coins(&swap_fees) {
        Ok(v) => v,
        Err(e) => {
            return Err(e);
        },
    };
    let protocol_fees = match crate::liquidity::aggregate_coins(&protocol_fees) {
        Ok(v) => v,
        Err(e) => {
            return Err(e);
        },
    };
    let burn_fees = match crate::liquidity::aggregate_coins(&burn_fees) {
        Ok(v) => v,
        Err(e) => {
            return Err(e);
        },
    };
    let extra_fees = match crate::liquidity::aggregate_coins(&extra_fees) {
        Ok(v) => v,
        Err(e) => {
            return Err(e);
        },
    };
    Ok(
        SimulateSwapOperationsResponse {
            return_amount: amount,
            spreads,
            swap_fees,
            protocol_fees,
            burn_fees,
            extra_fees,
        },
    )
}

/// The offer amount one reverse-simulated hop demands, in the offer asset's
/// native precision: the offer field of [`query_reverse_simulation`]'s
/// contract.
pub open spec fn spec_hop_offer(pool: PoolInfo, ask_asset: Asset, offer_denom: Seq<char>) -> int {
    let oi = spec_index_of_denom(pool.assets@, offer_denom);
    let ai = spec_index_of_denom(pool.assets@, ask_asset.denom@);
    match pool.pool_type {
        PoolType::ConstantProduct => spec_offer_needed(
            pool.assets@[oi].amount,
            pool.assets@[ai].amount,
            spec_gross_needed(ask_asset.amount, pool.pool_fees),
        ),
        PoolType::StableSwap { amp } => {
            let od = pool.asset_decimals@[oi];
            let ad = pool.asset_decimals@[ai];
            let fo = spec_factor(od, od, ad);
            let fa = spec_factor(ad, od, ad);
            let opn = pool.assets@[oi].amount * fo;
            let apn = pool.assets@[ai].amount * fa;
            let gn = spec_mul_div_ceil(
                ask_asset.amount * fa,
                FEE_SCALE as int,
                FEE_SCALE - pool.pool_fees.spec_total_shares(),
            );
            let y = spec_y_full(
                pool.assets@.len() as int,
                opn as u128,
                apn as u128,
                gn as u128,
                amp as int,
                StableSwapDirection::ReverseSimulate,
            )->0;
            (y - opn) / fo
        },
    }
}

/// The offer amount a chain of reverse-simulated hops demands after walking
/// the last `k` hops back to front, each hop's required offer becoming the
/// desired output of the hop before it; `None` where any hop fails.
pub open spec fn spec_chain_offer(
    pools: Seq<PoolInfo>,
    amount: u128,
    ops: Seq<SwapOperation>,
    k: nat,
) -> Option<int>
    decreases k,
{
    if k == 0 {
        Some(amount as int)
    } else {
        match spec_chain_offer(pools, amount, ops, (k - 1) as nat) {
            Option::None => Option::None,
            Option::Some(prev) => {
                if !(0 <= prev <= u128::MAX as int) {
                    Option::None
                } else {
                    match ops[ops.len() - k] {
                        SwapOperation::MantraSwap {
                            token_in_denom,
                            token_out_denom,
                            pool_identifier,
                        } => {
                            if !spec_has_pool(pools, pool_identifier@) {
                                Option::None
                            } else {
                                let pool = pools[spec_pool_index_of(pools, pool_identifier@)];
                                let ask = Asset { denom: token_out_denom, amount: prev as u128 };
                                if !spec_reverse_sim_ok(pool, ask, token_in_denom@) {
                                    Option::None
                                } else {
                                    Some(spec_hop_offer(pool, ask, token_in_denom@))
                                }
                            }
                        },
                    }
                }
            },
        }
    }
}

/// One output field of a reverse-simulated hop, selected by `kind`: 0 the
/// spread, 1 the swap fee, 2 the protocol fee, 3 the burn fee, anything else
/// the extra-fee total — as [`query_reverse_simulation`]'s contract states
/// them.
pub open spec fn spec_reverse_hop_part(
    pool: PoolInfo,
    ask_asset: Asset,
    offer_denom: Seq<char>,
    kind: int,
) -> int {
    let oi = spec_index_of_denom(pool.assets@, offer_denom);
    let ai = spec_index_of_denom(pool.assets@, ask_asset.denom@);
    match pool.pool_type {
        PoolType::ConstantProduct => {
            let g = spec_gross_needed(ask_asset.amount, pool.pool_fees);
            if kind == 0 {
                spec_spread_amount(
                    spec_offer_needed(pool.assets@[oi].amount, pool.assets@[ai].amount, g),
                    g,
                )
            } else if kind == 1 {
                spec_fee_amount(g, pool.pool_fees.swap_fee.share as int)
            } else if kind == 2 {
                spec_fee_amount(g, pool.pool_fees.protocol_fee.share as int)
            } else if kind == 3 {
                spec_fee_amount(g, pool.pool_fees.burn_fee.share as int)
            } else {
                spec_extra_fees_amount(g, pool.pool_fees.extra_fees@)
            }
        },
        PoolType::StableSwap { amp } => {
            let od = pool.asset_decimals@[oi];
            let ad = pool.asset_decimals@[ai];
            let fo = spec_factor(od, od, ad);
            let fa = spec_factor(ad, od, ad);
            let opn = pool.assets@[oi].amount * fo;
            let apn = pool.assets@[ai].amount * fa;
            let gn = spec_mul_div_ceil(
                ask_asset.amount * fa,
                FEE_SCALE as int,
                FEE_SCALE - pool.pool_fees.spec_total_shares(),
            );
            let y = spec_y_full(
                pool.assets@.len() as int,
                opn as u128,
                apn as u128,
                gn as u128,
                amp as int,
                StableSwapDirection::ReverseSimulate,
            )->0;
            if kind == 0 {
                spec_spread_amount((y - opn) / fo, gn / fo)
            } else if kind == 1 {
                spec_fee_amount(gn / fa, pool.pool_fees.swap_fee.share as int)
            } else if kind == 2 {
                spec_fee_amount(gn / fa, pool.pool_fees.protocol_fee.share as int)
            } else if kind == 3 {
                spec_fee_amount(gn / fa, pool.pool_fees.burn_fee.share as int)
            } else {
                spec_extra_fees_amount(gn / fa, pool.pool_fees.extra_fees@)
            }
        },
    }
}

/// Total of one output field (`kind` as in [`spec_reverse_hop_part`]) over
/// the last `k` hops of a reverse walk whose output denomination is `denom`,
/// following the chained offer amounts; contributions stop where the walk
/// fails.
pub open spec fn spec_chain_offer_fee(
    pools: Seq<PoolInfo>,
    amount: u128,
    ops: Seq<SwapOperation>,
    k: nat,
    denom: Seq<char>,
    kind: int,
) -> int
    decreases k,
{
    if k == 0 {
        0
    } else {
        let prev_fees = spec_chain_offer_fee(pools, amount, ops, (k - 1) as nat, denom, kind);
        match spec_chain_offer(pools, amount, ops, (k - 1) as nat) {
            Option::None => prev_fees,
            Option::Some(prev) => {
                if !(0 <= prev <= u128::MAX as int) {
                    prev_fees
                } else {
                    match ops[ops.len() - k] {
                        SwapOperation::MantraSwap {
                            token_in_denom,
                            token_out_denom,
                            pool_identifier,
                        } => {
                            if !spec_has_pool(pools, pool_identifier@) {
                                prev_fees
                            } else {
                                let pool = pools[spec_pool_index_of(pools, pool_identifier@)];
                                let ask = Asset { denom: token_out_denom, amount: prev as u128 };
                                if !spec_reverse_sim_ok(pool, ask, token_in_denom@) {
                                    prev_fees
                                } else {
                                    prev_fees + (if token_out_denom@ == denom {
                                        spec_reverse_hop_part(pool, ask, token_in_denom@, kind)
                                    } else {
                                        0
                                    })
                                }
                            }
                        },
                    }
                }
            },
        }
    }
}

/// If a longer reverse walk succeeds, so does every shorter one.
pub proof fn lemma_chain_offer_some_mono(
    pools: Seq<PoolInfo>,
    amount: u128,
    ops: Seq<SwapOperation>,
    j: nat,
    k: nat,
)
    requires
        j <= k,
        spec_chain_offer(pools, amount, ops, k) is Some,
    ensures
        spec_chain_offer(pools, amount, ops, j) is Some,
    decreases k - j,
{
    if j < k {
        assert(spec_chain_offer(pools, amount, ops, (k - 1) as nat) is Some);
        lemma_chain_offer_some_mono(pools, amount, ops, j, (k - 1) as nat);
    }
}

/// Simulates a chain of swaps backwards: walking the hops back to front, each
/// hop's required offer amount becomes the desired output of the hop before
/// it; fees and spreads are aggregated by denomination at the end.
pub fn reverse_simulate_swap_operations(
    registry: &PoolRegistry,
    ask_amount: u128,
    operations: &Vec<SwapOperation>,
) -> (r: Result<ReverseSimulateSwapOperationsResponse, ContractError>)
    requires
        registry.well_formed(),
    ensures
        (r == Err::<ReverseSimulateSwapOperationsResponse, ContractError>(
            ContractError::NoSwapOperationsProvided,
        )) <==> operations@.len() == 0,
        r is Ok ==> operations@.len() > 0,
        r matches Ok(resp) ==> Some(resp.offer_amount as int) == spec_chain_offer(
            registry.pools@,
            ask_amount,
            operations@,
            operations@.len(),
        ),
        (operations@.len() == 1 && spec_chain_offer(
            registry.pools@,
            ask_amount,
            operations@,
            operations@.len(),
        ) is Some) ==> r is Ok,
        // a failure is the empty-chain rejection, a failing hop's own error,
        // or an aggregation overflow
        !(r is Ok) ==> (r == Err::<ReverseSimulateSwapOperationsResponse, ContractError>(
            ContractError::NoSwapOperationsProvided,
        ) || r == Err::<ReverseSimulateSwapOperationsResponse, ContractError>(
            ContractError::UnExistingPool,
        ) || r == Err::<ReverseSimulateSwapOperationsResponse, ContractError>(
            ContractError::SameAsset,
        ) || r == Err::<ReverseSimulateSwapOperationsResponse, ContractError>(
            ContractError::AssetMismatch,
        ) || r == Err::<ReverseSimulateSwapOperationsResponse, ContractError>(
            ContractError::SwapOverflowError,
        ) || r == Err::<ReverseSimulateSwapOperationsResponse, ContractError>(
            ContractError::OverflowError,
        ) || r == Err::<ReverseSimulateSwapOperationsResponse, ContractError>(
            ContractError::DivideByZeroError,
        ) || r == Err::<ReverseSimulateSwapOperationsResponse, ContractError>(
            ContractError::ConvergeError,
        )),
        // a priceable walk whose per-denomination fee totals fit is served
        (operations@.len() > 0 && spec_chain_offer(
            registry.pools@,
            ask_amount,
            operations@,
            operations@.len(),
        ) is Some && (forall|d: Seq<char>, kind: int|
            0 <= kind < 5 ==> #[trigger] spec_chain_offer_fee(
                registry.pools@,
                ask_amount,
                operations@,
                operations@.len(),
                d,
                kind,
            ) <= u128::MAX as int)) ==> r is Ok,
        // each fee list carries, per denomination, exactly the sum of the
        // per-hop amounts in the hop's output denomination, zeros dropped
        r matches Ok(resp) ==> (forall|d: Seq<char>|
            #[trigger] spec_denom_amount(resp.spreads@, d) == spec_chain_offer_fee(
                registry.pools@,
                ask_amount,
                operations@,
                operations@.len(),
                d,
                0,
            )),
        r matches Ok(resp) ==> (forall|d: Seq<char>|
            #[trigger] spec_denom_amount(resp.swap_fees@, d) == spec_chain_offer_fee(
                registry.pools@,
                ask_amount,
                operations@,
                operations@.len(),
                d,
                1,
            )),
        r matches Ok(resp) ==> (forall|d: Seq<char>|
            #[trigger] spec_denom_amount(resp.protocol_fees@, d) == spec_chain_offer_fee(
                registry.pools@,
                ask_amount,
                operations@,
                operations@.len(),
                d,
                2,
            )),
        r matches Ok(resp) ==> (forall|d: Seq<char>|
            #[trigger] spec_denom_amount(resp.burn_fees@, d) == spec_chain_offer_fee(
                registry.pools@,
                ask_amount,
                operations@,
                operations@.len(),
                d,
                3,
            )),
        r matches Ok(resp) ==> (forall|d: Seq<char>|
            #[trigger] spec_denom_amount(resp.extra_fees@, d) == spec_chain_offer_fee(
                registry.pools@,
                ask_amount,
                operations@,
                operations@.len(),
                d,
                4,
            )),
        r matches Ok(resp) ==> ({
            &&& spec_denoms_unique(resp.spreads@)
            &&& spec_denoms_unique(resp.swap_fees@)
            &&& spec_denoms_unique(resp.protocol_fees@)
            &&& spec_denoms_unique(resp.burn_fees@)
            &&& spec_denoms_unique(resp.extra_fees@)
            &&& (forall|j: int| 0 <= j < resp.spreads@.len() ==> (#[trigger] resp.spreads@[j]).amount
                > 0)
            &&& (forall|j: int|
                0 <= j < resp.swap_fees@.len() ==> (#[trigger] resp.swap_fees@[j]).amount > 0)
            &&& (forall|j: int|
                0 <= j < resp.protocol_fees@.len() ==> (#[trigger] resp.protocol_fees@[j]).amount
                    > 0)
            &&& (forall|j: int|
                0 <= j < resp.burn_fees@.len() ==> (#[trigger] resp.burn_fees@[j]).amount > 0)
            &&& (forall|j: int|
                0 <= j < resp.extra_fees@.len() ==> (#[trigger] resp.extra_fees@[j]).amount > 0)
        }),
{
    if operations.len() == 0 {
        return Err(ContractError::NoSwapOperationsProvided);
    }
    let mut offer_in_needed = ask_amount;
    let mut spreads: Vec<Asset> = Vec::new();
    let mut swap_fees: Vec<Asset> = Vec::new();
    let mut protocol_fees: Vec<Asset> = Vec::new();
    let mut burn_fees: Vec<Asset> = Vec::new();
    let mut extra_fees: Vec<Asset> = Vec::new();

    let ghost pools = registry.pools@;
    let ghost ops = operations@;
    let mut i: usize = operations.len();
    while i > 0
        invariant
            i <= operations@.len(),
            operations@.len() > 0,
            registry.well_formed(),
            pools == registry.pools@,
            ops == operations@,
            spec_chain_offer(pools, ask_amount, ops, (ops.len() - i) as nat) == Some(
                offer_in_needed as int,
            ),
            forall|d: Seq<char>|
                #[trigger] spec_denom_amount(spreads@, d) == spec_chain_offer_fee(
                    pools,
                    ask_amount,
                    ops,
                    (ops.len() - i) as nat,
                    d,
                    0,
                ),
            forall|d: Seq<char>|
                #[trigger] spec_denom_amount(swap_fees@, d) == spec_chain_offer_fee(
                    pools,
                    ask_amount,
                    ops,
                    (ops.len() - i) as nat,
                    d,
                    1,
                ),
            forall|d: Seq<char>|
                #[trigger] spec_denom_amount(protocol_fees@, d) == spec_chain_offer_fee(
                    pools,
                    ask_amount,
                    ops,
                    (ops.len() - i) as nat,
                    d,
                    2,
                ),
            forall|d: Seq<char>|
                #[trigger] spec_denom_amount(burn_fees@, d) == spec_chain_offer_fee(
                    pools,
                    ask_amount,
                    ops,
                    (ops.len() - i) as nat,
                    d,
                    3,
                ),
            forall|d: Seq<char>|
                #[trigger] spec_denom_amount(extra_fees@, d) == spec_chain_offer_fee(
                    pools,
                    ask_amount,
                    ops,
                    (ops.len() - i) as nat,
                    d,
                    4,
                ),
            forall|j: int| 0 <= j < spreads@.len() ==> (#[trigger] spreads@[j]).amount > 0,
            forall|j: int| 0 <= j < swap_fees@.len() ==> (#[trigger] swap_fees@[j]).amount > 0,
            forall|j: int|
                0 <= j < protocol_fees@.len() ==> (#[trigger] protocol_fees@[j]).amount > 0,
            forall|j: int| 0 <= j < burn_fees@.len() ==> (#[trigger] burn_fees@[j]).amount > 0,
            forall|j: int| 0 <= j < extra_fees@.len() ==> (#[trigger] extra_fees@[j]).amount > 0,
            spreads@.len() + i <= operations@.len(),
            swap_fees@.len() + i <= operations@.len(),
            protocol_fees@.len() + i <= operations@.len(),
            burn_fees@.len() + i <= operations@.len(),
            extra_fees@.len() + i <= operations@.len(),
        decreases i,
    {
        i = i - 1;
        let ghost amount0 = offer_in_needed;
        match &operations[i] {
            SwapOperation::MantraSwap { token_in_denom, token_out_denom, pool_identifier } => {
                let res = match query_reverse_simulation(
                    registry,
                    Asset { denom: token_out_denom.clone(), amount: offer_in_needed },
                    token_in_denom.clone(),
                    pool_identifier.clone(),
                ) {
                    Ok(res) => res,
                    Err(e) => {
                        proof {
                            // had the whole walk been serviceable, this hop's
                            // reverse simulation would have succeeded
                            if spec_chain_offer(pools, ask_amount, ops, ops.len()) is Some {
                                lemma_chain_offer_some_mono(
                                    pools,
                                    ask_amount,
                                    ops,
                                    (ops.len() - i) as nat,
                                    ops.len(),
                                );
                                assert(false);
                            }
                        }
                        return Err(e);
                    },
                };
                let ghost pool_g = pools[spec_pool_index_of(pools, pool_identifier@)];
                let ghost ask_g = Asset { denom: *token_out_denom, amount: amount0 };
                let ghost pre_sp = spreads@;
                if res.spread_amount > 0 {
                    spreads.push(
                        Asset { denom: token_out_denom.clone(), amount: res.spread_amount },
                    );
                }
                let ghost pre_sw = swap_fees@;
                if res.swap_fee_amount > 0 {
                    swap_fees.push(
                        Asset { denom: token_out_denom.clone(), amount: res.swap_fee_amount },
                    );
                }
                let ghost pre_pr = protocol_fees@;
                if res.protocol_fee_amount > 0 {
                    protocol_fees.push(
                        Asset { denom: token_out_denom.clone(), amount: res.protocol_fee_amount },
                    );
                }
                let ghost pre_bu = burn_fees@;
                if res.burn_fee_amount > 0 {
                    burn_fees.push(
                        Asset { denom: token_out_denom.clone(), amount: res.burn_fee_amount },
                    );
                }
                let ghost pre_ex = extra_fees@;
                if res.extra_fees_amount > 0 {
                    extra_fees.push(
                        Asset { denom: token_out_denom.clone(), amount: res.extra_fees_amount },
                    );
                }
                offer_in_needed = res.offer_amount;
                proof {
                    // each list gains exactly this hop's contribution in the
                    // hop's output denomination
                    assert forall|d: Seq<char>|
                        #[trigger] spec_denom_amount(spreads@, d) == spec_denom_amount(pre_sp, d)
                        + (if token_out_denom@ == d {
                        spec_reverse_hop_part(pool_g, ask_g, token_in_denom@, 0)
                    } else {
                        0
                    }) by {
                        if res.spread_amount > 0 {
                            lemma_denom_amount_push(pre_sp, d, spreads@.last());
                        }
                    }
                    assert forall|d: Seq<char>|
                        #[trigger] spec_denom_amount(swap_fees@, d) == spec_denom_amount(pre_sw, d)
                        + (if token_out_denom@ == d {
                        spec_reverse_hop_part(pool_g, ask_g, token_in_denom@, 1)
                    } else {
                        0
                    }) by {
                        if res.swap_fee_amount > 0 {
                            lemma_denom_amount_push(pre_sw, d, swap_fees@.last());
                        }
                    }
                    assert forall|d: Seq<char>|
                        #[trigger] spec_denom_amount(protocol_fees@, d) == spec_denom_amount(
                        pre_pr,
                        d,
                    ) + (if token_out_denom@ == d {
                        spec_reverse_hop_part(pool_g, ask_g, token_in_denom@, 2)
                    } else {
                        0
                    }) by {
                        if res.protocol_fee_amount > 0 {
                            lemma_denom_amount_push(pre_pr, d, protocol_fees@.last());
                        }
                    }
                    assert forall|d: Seq<char>|
                        #[trigger] spec_denom_amount(burn_fees@, d) == spec_denom_amount(pre_bu, d)
                        + (if token_out_denom@ == d {
                        spec_reverse_hop_part(pool_g, ask_g, token_in_denom@, 3)
                    } else {
                        0
                    }) by {
                        if res.burn_fee_amount > 0 {
                            lemma_denom_amount_push(pre_bu, d, burn_fees@.last());
                        }
                    }
                    assert forall|d: Seq<char>|
                        #[trigger] spec_denom_amount(extra_fees@, d) == spec_denom_amount(pre_ex, d)
                        + (if token_out_denom@ == d {
                        spec_reverse_hop_part(pool_g, ask_g, token_in_denom@, 4)
                    } else {
                        0
                    }) by {
                        if res.extra_fees_amount > 0 {
                            lemma_denom_amount_push(pre_ex, d, extra_fees@.last());
                        }
                    }
                }
            },
        }
    }

    let spreads = match crate::liquidity::aggregate_coins(&spreads) {
        Ok(v) => v,
        Err(e) => {
            return Err(e);
        },
    };
    let swap_fees = match crate::liquidity::aggregate_coins(&swap_fees) {
        Ok(v) => v,
        Err(e) => {
            return Err(e);
        },
    };
    let protocol_fees = match crate::liquidity::aggregate_coins(&protocol_fees) {
        Ok(v) => v,
        Err(e) => {
            return Err(e);
        },
    };
    let burn_fees = match crate::liquidity::aggregate_coins(&burn_fees) {
        Ok(v) => v,
        Err(e) => {
            return Err(e);
        },
    };
    let extra_fees = match crate::liquidity::aggregate_coins(&extra_fees) {
        Ok(v) => v,
        Err(e) => {
            return Err(e);
        },
    };
    Ok(
        ReverseSimulateSwapOperationsResponse {
            offer_amount: offer_in_needed,
            spreads,
            swap_fees,
            protocol_fees,
            burn_fees,
            extra_fees,
        },
    )
}

} // verus!
