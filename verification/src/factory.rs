//! Creating and upgrading markets: the controller makes a liquidity pool for an asset
//! from its pool template, records it, and stores the asset's configuration.
use crate::controller::AssetConfig;
use crate::liquidity::LiquidityPool;
use crate::pool::PoolState;
use crate::rates::{params_error, MarketParams, ParamsError};
use crate::token::{egld_bytes, valid_esdt_identifier, TokenId};
use vstd::prelude::*;

verus! {

/// Why a market cannot be created or upgraded.
#[derive(Clone, Copy, Debug, PartialEq, Eq)]
pub enum FactoryError {
    /// No liquidity pool template is configured.
    TemplateEmpty,
    /// The asset has no price oracle, whose decimals the pool takes.
    OracleTokenNotFound,
    /// The asset already has a pool.
    AssetAlreadySupported,
    /// The asset identifier is not well formed.
    InvalidTicker,
    /// The asset has no pool.
    NoPoolFound,
    /// The rate parameters are refused.
    Params(ParamsError),
}

/// Making and upgrading the liquidity pools of a controller.
pub trait FactoryModule {
    /// Whether a liquidity pool template is configured.
    spec fn template_set(&self) -> bool;

    /// Whether a liquidity pool template is configured.
    fn has_template(&self) -> (r: bool)
        ensures
            r == self.template_set(),
    ;

    /// A new pool for `base_asset` with the rate parameters `params` and the asset
    /// decimals of its oracle: refused without a template, without an oracle, or for
    /// refused parameters.
    fn create_pool(&self, base_asset: TokenId, oracle_decimals: Option<u8>, params: MarketParams, now: u64) -> (r: Result<LiquidityPool, FactoryError>)
        ensures
            !self.template_set() ==> r == Err::<LiquidityPool, FactoryError>(FactoryError::TemplateEmpty),
            self.template_set() && oracle_decimals is None ==> r == Err::<LiquidityPool, FactoryError>(FactoryError::OracleTokenNotFound),
            self.template_set() ==> (oracle_decimals matches Some(d) ==> match params_error(MarketParams { asset_decimals: d as usize, ..params }) {
                Some(e) => r == Err::<LiquidityPool, FactoryError>(FactoryError::Params(e)),
                None => r matches Ok(p) && p.asset_id@ == base_asset@
                    && p.state == PoolState::initial_spec(MarketParams { asset_decimals: d as usize, ..params }, now) && p.state.valid(),
            }),
    ;

    /// Replaces a pool's rate parameters: refused without a template or for refused
    /// parameters, which leave the pool unchanged.
    fn upgrade_pool(&self, pool: &mut LiquidityPool, params: MarketParams) -> (r: Result<(), FactoryError>)
        requires
            old(pool).state.valid(),
        ensures
            final(pool).asset_id@ == old(pool).asset_id@,
            final(pool).state.valid(),
            !self.template_set() ==> r == Err::<(), FactoryError>(FactoryError::TemplateEmpty) && final(pool).state == old(pool).state,
            self.template_set() ==> match params_error(MarketParams { asset_decimals: old(pool).state.params.asset_decimals, ..params }) {
                Some(e) => r == Err::<(), FactoryError>(FactoryError::Params(e)) && final(pool).state == old(pool).state,
                None => r is Ok && final(pool).state == (PoolState {
                    params: MarketParams { asset_decimals: old(pool).state.params.asset_decimals, ..params },
                    ..old(pool).state
                }),
            },
    ;
}

/// The controller's pool factory: whether its pool template is configured.
#[derive(Clone, Copy, Debug)]
pub struct PoolFactory {
    pub template_configured: bool,
}

impl FactoryModule for PoolFactory {
    open spec fn template_set(&self) -> bool {
        self.template_configured
    }

    fn has_template(&self) -> (r: bool) {
        self.template_configured
    }

    fn create_pool(&self, base_asset: TokenId, oracle_decimals: Option<u8>, params: MarketParams, now: u64) -> (r: Result<LiquidityPool, FactoryError>) {
        if !self.template_configured {
            return Err(FactoryError::TemplateEmpty);
        }
        let decimals = match oracle_decimals {
            Some(d) => d,
            None => return Err(FactoryError::OracleTokenNotFound),
        };
        match LiquidityPool::init(base_asset, MarketParams { asset_decimals: decimals as usize, ..params }, now) {
            Ok(p) => Ok(p),
            Err(e) => Err(FactoryError::Params(e)),
        }
    }

    fn upgrade_pool(&self, pool: &mut LiquidityPool, params: MarketParams) -> (r: Result<(), FactoryError>) {
        if !self.template_configured {
            return Err(FactoryError::TemplateEmpty);
        }
        match pool.upgrade(params) {
            Ok(()) => Ok(()),
            Err(e) => Err(FactoryError::Params(e)),
        }
    }
}

/// The configuration a new market starts with: e-mode off, the given parameters.
pub open spec fn new_market_config_spec(
    ltv: u128,
    liquidation_threshold: u128,
    liquidation_base_bonus: u128,
    liquidation_max_fee: u128,
    can_be_collateral: bool,
    can_be_borrowed: bool,
    is_isolated: bool,
    debt_ceiling_usd: u128,
    flash_loan_fee: u128,
    is_siloed: bool,
    flashloan_enabled: bool,
    can_borrow_in_isolation: bool,
    borrow_cap: Option<u128>,
    supply_cap: Option<u128>,
) -> AssetConfig {
    AssetConfig {
        ltv,
        liquidation_threshold,
        liquidation_base_bonus,
        liquidation_max_fee,
        is_e_mode_enabled: false,
        is_isolated,
        debt_ceiling_usd,
        is_siloed,
        flashloan_enabled,
        flash_loan_fee,
        can_be_collateral,
        can_be_borrowed,
        can_borrow_in_isolation,
        borrow_cap,
        supply_cap,
    }
}

/// Creates a market: the asset must have no pool yet and a well-formed identifier;
/// the factory then makes its pool, and the asset's configuration is set up with
/// e-mode off. Yields the pool and the configuration.
pub fn create_liquidity_pool<F: FactoryModule>(
    factory: &F,
    pool_exists: bool,
    base_asset: TokenId,
    oracle_decimals: Option<u8>,
    params: MarketParams,
    now: u64,
    ltv: u128,
    liquidation_threshold: u128,
    liquidation_base_bonus: u128,
    liquidation_max_fee: u128,
    can_be_collateral: bool,
    can_be_borrowed: bool,
    is_isolated: bool,
    debt_ceiling_usd: u128,
    flash_loan_fee: u128,
    is_siloed: bool,
    flashloan_enabled: bool,
    can_borrow_in_isolation: bool,
    borrow_cap: Option<u128>,
    supply_cap: Option<u128>,
) -> (r: Result<(LiquidityPool, AssetConfig), FactoryError>)
    ensures
        pool_exists ==> r == Err::<(LiquidityPool, AssetConfig), FactoryError>(FactoryError::AssetAlreadySupported),
        !pool_exists && !(base_asset@ == egld_bytes() || valid_esdt_identifier(base_asset@))
            ==> r == Err::<(LiquidityPool, AssetConfig), FactoryError>(FactoryError::InvalidTicker),
        !pool_exists && (base_asset@ == egld_bytes() || valid_esdt_identifier(base_asset@)) ==> (
            (!factory.template_set() ==> r == Err::<(LiquidityPool, AssetConfig), FactoryError>(FactoryError::TemplateEmpty))
            && (factory.template_set() && oracle_decimals is None ==> r == Err::<(LiquidityPool, AssetConfig), FactoryError>(FactoryError::OracleTokenNotFound))
            && (factory.template_set() ==> (oracle_decimals matches Some(d) ==> match params_error(MarketParams { asset_decimals: d as usize, ..params }) {
                Some(e) => r == Err::<(LiquidityPool, AssetConfig), FactoryError>(FactoryError::Params(e)),
                None => r matches Ok((p, c)) && p.asset_id@ == base_asset@
                    && p.state == PoolState::initial_spec(MarketParams { asset_decimals: d as usize, ..params }, now)
                    && c == new_market_config_spec(ltv, liquidation_threshold, liquidation_base_bonus, liquidation_max_fee,
                        can_be_collateral, can_be_borrowed, is_isolated, debt_ceiling_usd, flash_loan_fee, is_siloed,
                        flashloan_enabled, can_borrow_in_isolation, borrow_cap, supply_cap),
            }))),
{
    if pool_exists {
        return Err(FactoryError::AssetAlreadySupported);
    }
    if !base_asset.is_valid() {
        return Err(FactoryError::InvalidTicker);
    }
    let pool = factory.create_pool(base_asset, oracle_decimals, params, now)?;
    let config = AssetConfig {
        ltv,
        liquidation_threshold,
        liquidation_base_bonus,
        liquidation_max_fee,
        is_e_mode_enabled: false,
        is_isolated,
        debt_ceiling_usd,
        is_siloed,
        flashloan_enabled,
        flash_loan_fee,
        can_be_collateral,
        can_be_borrowed,
        can_borrow_in_isolation,
        borrow_cap,
        supply_cap,
    };
    Ok((pool, config))
}

/// Upgrades a market's pool: the asset must have a pool (`pool_exists`), and the
/// factory replaces the pool's rate parameters.
pub fn upgrade_liquidity_pool<F: FactoryModule>(factory: &F, pool_exists: bool, pool: &mut LiquidityPool, params: MarketParams) -> (r: Result<(), FactoryError>)
    requires
        old(pool).state.valid(),
    ensures
        final(pool).asset_id@ == old(pool).asset_id@,
        final(pool).state.valid(),
        !pool_exists ==> r == Err::<(), FactoryError>(FactoryError::NoPoolFound) && final(pool).state == old(pool).state,
        pool_exists && !factory.template_set() ==> r == Err::<(), FactoryError>(FactoryError::TemplateEmpty) && final(pool).state == old(pool).state,
        pool_exists && factory.template_set() ==> match params_error(MarketParams { asset_decimals: old(pool).state.params.asset_decimals, ..params }) {
            Some(e) => r == Err::<(), FactoryError>(FactoryError::Params(e)) && final(pool).state == old(pool).state,
            None => r is Ok && final(pool).state == (PoolState {
                params: MarketParams { asset_decimals: old(pool).state.params.asset_decimals, ..params },
                ..old(pool).state
            }),
        },
{
    if !pool_exists {
        return Err(FactoryError::NoPoolFound);
    }
    factory.upgrade_pool(pool, params)
}

} // verus!
