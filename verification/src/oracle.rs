//! Price oracle rules: token tickers, the anchor check that compares a price with a
//! reference price, the choice between them, and the prices of derived and LP tokens.
//!
//! Prices are WAD raw units of EGLD per whole token. The market reads them from
//! other contracts (aggregator rounds, safe-price views, liquid-staking rates); those
//! readings are passed in, and the functions here decide which price is used.
use crate::liquidation::{
    anchor_tolerances_spec, lemma_tolerance_bands_nest, get_anchor_tolerances, get_token_amount_in_egld_raw,
    egld_value_spec, OraclePriceFluctuation, ToleranceError,
};
use crate::math::{div_half_up, div_half_up_spec, BPS, WAD};
use crate::token::{egld_bytes, same_bytes, same_token, ticker_of, wegld_bytes, TokenId};
use crate::u256::{u256_div, u256_from, u256_mul, u256_to_u128};
use crate::wide::{fit, two128};
use vstd::prelude::*;

verus! {

/// Decimals of a WAD price.
pub const PRICE_DECIMALS: u8 = 18;

/// How a normal token is priced.
#[derive(Clone, Copy, Debug, PartialEq, Eq, Structural)]
pub enum PricingMethod {
    /// Not configured.
    Undefined,
    Safe,
    Aggregator,
    Mix,
}

/// What kind of token an oracle prices.
#[derive(Clone, Copy, Debug, PartialEq, Eq, Structural)]
pub enum OracleType {
    /// Not configured.
    Undefined,
    Derived,
    Lp,
    Normal,
}

/// Where an oracle's rate or pair lives.
#[derive(Clone, Copy, Debug, PartialEq, Eq, Structural)]
pub enum ExchangeSource {
    /// Not configured.
    Undefined,
    XExchange,
    LXOXNO,
    XEGLD,
    LEGLD,
}

/// Why a price cannot be given.
#[derive(Clone, Copy, Debug, PartialEq, Eq)]
pub enum OracleError {
    /// No oracle is configured for the token where one is read, or one already is
    /// where a new one is set (both share this code).
    OracleTokenNotFound,
    /// The oracle's exchange source does not fit its kind.
    InvalidExchangeSource,
    /// The oracle's token type is not priced.
    InvalidOracleTokenType,
    /// The price is outside both tolerance bands and unsafe prices are not allowed.
    UnsafePriceNotAllowed,
    /// Neither an aggregator nor a safe price is available.
    NoLastPriceFound,
    /// The price aggregator address is not set.
    PriceAggregatorNotSet,
    /// The price aggregator is paused.
    AggregatorPaused,
    /// The aggregator has no round for the token.
    TokenPairNotFound,
    /// The exchange pair is not active.
    PairNotActive,
    /// The token identifier is too short to carry a ticker.
    InvalidTicker,
    /// The reading handed in is not the one the oracle's kind needs.
    ReadingMismatch,
    /// The oracle's decimals exceed 38, beyond what a 128-bit price scale holds.
    InvalidDecimals,
    /// The tolerances are refused.
    Tolerance(ToleranceError),
    /// A zero divisor, or a value beyond 128 bits.
    Arithmetic,
}

/// Price of a token and the decimals of its amounts.
#[derive(Clone, Copy, Debug, PartialEq, Eq)]
pub struct PriceFeedShort {
    pub decimals: u8,
    pub price: u128,
}

/// An oracle configured for a market token.
#[derive(Debug)]
pub struct OracleProvider {
    pub decimals: u8,
    pub contract_address: Vec<u8>,
    pub pricing_method: PricingMethod,
    pub token_type: OracleType,
    pub source: ExchangeSource,
    pub first_token_id: TokenId,
    pub second_token_id: TokenId,
    pub tolerance: OraclePriceFluctuation,
}

/// The ticker a token is priced under: `EGLD` for the native coin and for `WEGLD`,
/// the identifier's ticker otherwise.
pub open spec fn token_ticker_spec(id: Seq<u8>) -> Option<Seq<u8>> {
    if id == egld_bytes() {
        Some(egld_bytes())
    } else {
        match ticker_of(id) {
            None => None,
            Some(t) => if t == wegld_bytes() { Some(egld_bytes()) } else { Some(t) },
        }
    }
}

fn egld_ticker() -> (r: Vec<u8>)
    ensures
        r@ == egld_bytes(),
{
    let mut v: Vec<u8> = Vec::new();
    v.push(69u8);
    v.push(71u8);
    v.push(76u8);
    v.push(68u8);
    assert(v@ =~= egld_bytes());
    v
}

fn wegld_ticker() -> (r: Vec<u8>)
    ensures
        r@ == wegld_bytes(),
{
    let mut v: Vec<u8> = Vec::new();
    v.push(87u8);
    v.push(69u8);
    v.push(71u8);
    v.push(76u8);
    v.push(68u8);
    assert(v@ =~= wegld_bytes());
    v
}

/// The ticker a token is priced under (see `token_ticker_spec`).
pub fn get_token_ticker(token_id: &TokenId) -> (r: Option<Vec<u8>>)
    ensures
        r is None <==> token_ticker_spec(token_id@) is None,
        r matches Some(t) ==> token_ticker_spec(token_id@) == Some(t@),
{
    if token_id.is_egld() {
        return Some(egld_ticker());
    }
    let t = token_id.ticker()?;
    let w = wegld_ticker();
    if same_bytes(&t, &w) {
        Some(egld_ticker())
    } else {
        Some(t)
    }
}

/// Whether the ratio of `anchor` to `primary` (in BPS, truncated) lies within
/// `[lower, upper]`; `None` for a zero `primary`, where the computation has no result.
pub open spec fn within_anchor_spec(primary: int, anchor: int, upper: int, lower: int) -> Option<bool> {
    if primary == 0 {
        None
    } else {
        let ratio = anchor * (BPS as int) / primary;
        Some(lower <= ratio && ratio <= upper)
    }
}

/// Checks a price against its anchor price and a tolerance band.
pub fn is_within_anchor(primary: u128, anchor: u128, upper_bound_ratio: u128, lower_bound_ratio: u128) -> (r: Option<bool>)
    ensures
        r == within_anchor_spec(primary as int, anchor as int, upper_bound_ratio as int, lower_bound_ratio as int),
{
    if primary == 0 {
        return None;
    }
    proof {
        assert(0 <= (anchor as int) * (BPS as int) < two128() * two128()) by (nonlinear_arith)
            requires
                0 <= anchor < two128(),
                BPS < two128(),
        ;
    }
    let ratio = u256_div(u256_mul(u256_from(anchor), u256_from(BPS)).unwrap(), u256_from(primary));
    let upper = u256_from(upper_bound_ratio);
    let lower = u256_from(lower_bound_ratio);
    Some(crate::u256::u256_le(lower, ratio) && crate::u256::u256_le(ratio, upper))
}

/// The price used when a primary price is checked against an anchor price: the
/// primary price within the first band, the average (truncated) within the last
/// band, otherwise the anchor price if unsafe prices are allowed.
pub open spec fn anchored_price_spec(primary: int, anchor: int, tol: OraclePriceFluctuation, allow_unsafe: bool) -> Result<u128, OracleError> {
    if primary == 0 {
        Err(OracleError::Arithmetic)
    } else if within_anchor_spec(primary, anchor, tol.first_upper_ratio as int, tol.first_lower_ratio as int) == Some(true) {
        Ok(primary as u128)
    } else if within_anchor_spec(primary, anchor, tol.last_upper_ratio as int, tol.last_lower_ratio as int) == Some(true) {
        Ok(((primary + anchor) / 2) as u128)
    } else if !allow_unsafe {
        Err(OracleError::UnsafePriceNotAllowed)
    } else {
        Ok(anchor as u128)
    }
}

/// Chooses between a primary price and its anchor (see `anchored_price_spec`).
pub fn select_anchored_price(primary: u128, anchor: u128, tolerance: &OraclePriceFluctuation, allow_unsafe: bool) -> (r: Result<u128, OracleError>)
    ensures
        r == anchored_price_spec(primary as int, anchor as int, *tolerance, allow_unsafe),
{
    if primary == 0 {
        return Err(OracleError::Arithmetic);
    }
    let avg = primary / 2 + anchor / 2 + (primary % 2 + anchor % 2) / 2;
    if matches!(is_within_anchor(primary, anchor, tolerance.first_upper_ratio, tolerance.first_lower_ratio), Some(true)) {
        Ok(primary)
    } else if matches!(is_within_anchor(primary, anchor, tolerance.last_upper_ratio, tolerance.last_lower_ratio), Some(true)) {
        Ok(avg)
    } else if !allow_unsafe {
        Err(OracleError::UnsafePriceNotAllowed)
    } else {
        Ok(anchor)
    }
}

/// Which prices a pricing method reads: `(aggregator, safe)`.
pub open spec fn price_sources_spec(method: PricingMethod) -> (bool, bool) {
    (method == PricingMethod::Aggregator || method == PricingMethod::Mix, method == PricingMethod::Safe || method == PricingMethod::Mix)
}

/// Which prices a normal token's pricing method reads: `(aggregator, safe)`.
pub fn normal_price_sources(method: PricingMethod) -> (r: (bool, bool))
    ensures
        r == price_sources_spec(method),
{
    (
        method == PricingMethod::Aggregator || method == PricingMethod::Mix,
        method == PricingMethod::Safe || method == PricingMethod::Mix,
    )
}

/// Price of a normal token from the prices read for its method: with both, the
/// aggregator price checked against the safe price; with one, that one.
pub open spec fn normal_price_spec(aggregator: Option<u128>, safe: Option<u128>, tol: OraclePriceFluctuation, allow_unsafe: bool) -> Result<u128, OracleError> {
    match (aggregator, safe) {
        (Some(a), Some(s)) => anchored_price_spec(a as int, s as int, tol, allow_unsafe),
        (Some(a), None) => Ok(a),
        (None, Some(s)) => Ok(s),
        (None, None) => Err(OracleError::NoLastPriceFound),
    }
}

/// Price (WAD) of a normal token (see `normal_price_spec`).
pub fn get_normal_price_in_egld(aggregator_price: Option<u128>, safe_price: Option<u128>, tolerance: &OraclePriceFluctuation, allow_unsafe: bool) -> (r: Result<u128, OracleError>)
    ensures
        r == normal_price_spec(aggregator_price, safe_price, *tolerance, allow_unsafe),
{
    match (aggregator_price, safe_price) {
        (Some(a), Some(s)) => select_anchored_price(a, s, tolerance, allow_unsafe),
        (Some(a), None) => Ok(a),
        (None, Some(s)) => Ok(s),
        (None, None) => Err(OracleError::NoLastPriceFound),
    }
}

/// The USD price an aggregator round gives, or why there is none.
pub open spec fn aggregator_feed_spec(aggregator_set: bool, paused: bool, round_price: Option<u128>) -> Result<u128, OracleError> {
    if !aggregator_set {
        Err(OracleError::PriceAggregatorNotSet)
    } else if paused {
        Err(OracleError::AggregatorPaused)
    } else {
        match round_price {
            None => Err(OracleError::TokenPairNotFound),
            Some(p) => Ok(p),
        }
    }
}

/// USD price (WAD) of a token from the aggregator's last round.
pub fn get_aggregator_price_feed(aggregator_set: bool, paused: bool, round_price: Option<u128>) -> (r: Result<u128, OracleError>)
    ensures
        r == aggregator_feed_spec(aggregator_set, paused, round_price),
{
    if !aggregator_set {
        return Err(OracleError::PriceAggregatorNotSet);
    }
    if paused {
        return Err(OracleError::AggregatorPaused);
    }
    match round_price {
        None => Err(OracleError::TokenPairNotFound),
        Some(p) => Ok(p),
    }
}

/// Price in EGLD (WAD) of a token from the USD prices of the token and of EGLD:
/// their quotient rounded half up.
pub fn get_token_price_in_egld_from_aggregator(token_usd_price: u128, egld_usd_price: u128) -> (r: Result<u128, OracleError>)
    ensures
        egld_usd_price == 0 ==> r == Err::<u128, OracleError>(OracleError::Arithmetic),
        egld_usd_price > 0 ==> (match fit(div_half_up_spec(token_usd_price as int, egld_usd_price as int, 18)) {
            Some(v) => r == Ok::<u128, OracleError>(v),
            None => r == Err::<u128, OracleError>(OracleError::Arithmetic),
        }),
{
    if egld_usd_price == 0 {
        return Err(OracleError::Arithmetic);
    }
    match div_half_up(token_usd_price, egld_usd_price, 18) {
        Some(v) => Ok(v),
        None => Err(OracleError::Arithmetic),
    }
}

/// Price (WAD) of an LP token: the EGLD values of the two token amounts one LP token
/// is worth, summed.
pub open spec fn lp_price_spec(first_amount: int, first: PriceFeedShort, second_amount: int, second: PriceFeedShort) -> Option<u128> {
    let v1 = egld_value_spec(first_amount, first.price as int, first.decimals as nat);
    let v2 = egld_value_spec(second_amount, second.price as int, second.decimals as nat);
    if fit(v1) is None || fit(v2) is None {
        None
    } else {
        fit(v1 + v2)
    }
}

/// Price (WAD) of an LP token from the amounts of its two tokens that one LP token is
/// worth and the tokens' feeds.
pub fn get_lp_price(first_amount: u128, first: PriceFeedShort, second_amount: u128, second: PriceFeedShort) -> (r: Result<u128, OracleError>)
    requires
        first.decimals <= 38,
        second.decimals <= 38,
    ensures
        lp_price_spec(first_amount as int, first, second_amount as int, second) matches Some(v) ==> r == Ok::<u128, OracleError>(v),
        lp_price_spec(first_amount as int, first, second_amount as int, second) is None ==> r == Err::<u128, OracleError>(OracleError::Arithmetic),
{
    let v1 = match get_token_amount_in_egld_raw(first_amount, first.price, first.decimals as usize) {
        Some(v) => v,
        None => return Err(OracleError::Arithmetic),
    };
    let v2 = match get_token_amount_in_egld_raw(second_amount, second.price, second.decimals as usize) {
        Some(v) => v,
        None => return Err(OracleError::Arithmetic),
    };
    if v1 <= u128::MAX - v2 {
        Ok(v1 + v2)
    } else {
        Err(OracleError::Arithmetic)
    }
}


/// Which outside readings configuring an oracle needs: `(main token of a liquid
/// staking contract, tokens of an exchange pair)`.
pub fn oracle_token_queries(source: ExchangeSource) -> (r: (bool, bool))
    ensures
        r == (source == ExchangeSource::LXOXNO, source == ExchangeSource::XExchange),
{
    (source == ExchangeSource::LXOXNO, source == ExchangeSource::XExchange)
}

/// The first and second token an oracle refers to, by its source: the staking
/// contract's main token (twice), the pair's two tokens, or EGLD (twice).
pub open spec fn oracle_tokens_spec(source: ExchangeSource, main_token: Option<Seq<u8>>, pair_tokens: Option<(Seq<u8>, Seq<u8>)>) -> Result<(Seq<u8>, Seq<u8>), OracleError> {
    match source {
        ExchangeSource::LXOXNO => match main_token {
            Some(m) => Ok((m, m)),
            None => Err(OracleError::ReadingMismatch),
        },
        ExchangeSource::XExchange => match pair_tokens {
            Some((a, b)) => Ok((a, b)),
            None => Err(OracleError::ReadingMismatch),
        },
        ExchangeSource::XEGLD | ExchangeSource::LEGLD => Ok((egld_bytes(), egld_bytes())),
        ExchangeSource::Undefined => Err(OracleError::InvalidExchangeSource),
    }
}

/// The view of an optional pair of identifiers.
pub open spec fn pair_view(p: Option<(TokenId, TokenId)>) -> Option<(Seq<u8>, Seq<u8>)> {
    match p {
        Some((a, b)) => Some((a@, b@)),
        None => None,
    }
}

/// The view of an optional identifier.
pub open spec fn token_view(t: Option<TokenId>) -> Option<Seq<u8>> {
    match t {
        Some(a) => Some(a@),
        None => None,
    }
}

/// Configures the oracle of a market token: refused with `OracleTokenNotFound`
/// when one is already set, with `InvalidDecimals` for more than 38 decimals, for
/// an unknown source, or for refused tolerances (checked in this order); otherwise
/// an oracle with the source's tokens and the tolerances' bands.
pub fn set_token_oracle(
    already_set: bool,
    decimals: u8,
    contract_address: Vec<u8>,
    pricing_method: PricingMethod,
    token_type: OracleType,
    source: ExchangeSource,
    main_token: Option<TokenId>,
    pair_tokens: Option<(TokenId, TokenId)>,
    first_tolerance: u128,
    last_tolerance: u128,
) -> (r: Result<OracleProvider, OracleError>)
    ensures
        already_set ==> r == Err::<OracleProvider, OracleError>(OracleError::OracleTokenNotFound),
        !already_set && decimals > 38 ==> r == Err::<OracleProvider, OracleError>(OracleError::InvalidDecimals),
        !already_set && decimals <= 38 ==> match oracle_tokens_spec(source, token_view(main_token), pair_view(pair_tokens)) {
            Err(e) => r == Err::<OracleProvider, OracleError>(e),
            Ok((first, second)) => match anchor_tolerances_spec(first_tolerance as int, last_tolerance as int) {
                Err(e) => r == Err::<OracleProvider, OracleError>(OracleError::Tolerance(e)),
                Ok(tol) => r matches Ok(p) && p.decimals == decimals && p.contract_address@ == contract_address@
                    && p.pricing_method == pricing_method && p.token_type == token_type && p.source == source
                    && p.first_token_id@ == first && p.second_token_id@ == second && p.tolerance == tol,
            },
        },
{
    if already_set {
        return Err(OracleError::OracleTokenNotFound);
    }
    if decimals > 38 {
        return Err(OracleError::InvalidDecimals);
    }
    let (first_token_id, second_token_id) = match source {
        ExchangeSource::LXOXNO => match main_token {
            Some(m) => {
                let m2 = m.clone();
                (m, m2)
            },
            None => return Err(OracleError::ReadingMismatch),
        },
        ExchangeSource::XExchange => match pair_tokens {
            Some((a, b)) => (a, b),
            None => return Err(OracleError::ReadingMismatch),
        },
        ExchangeSource::XEGLD | ExchangeSource::LEGLD => (TokenId::egld(), TokenId::egld()),
        ExchangeSource::Undefined => return Err(OracleError::InvalidExchangeSource),
    };
    let tolerance = match get_anchor_tolerances(first_tolerance, last_tolerance) {
        Ok(t) => t,
        Err(e) => return Err(OracleError::Tolerance(e)),
    };
    Ok(OracleProvider {
        decimals,
        contract_address,
        pricing_method,
        token_type,
        source,
        first_token_id,
        second_token_id,
        tolerance,
    })
}

/// Replaces the tolerance bands of a configured oracle.
pub fn edit_token_oracle_tolerance(provider: Option<OracleProvider>, first_tolerance: u128, last_tolerance: u128) -> (r: Result<OracleProvider, OracleError>)
    ensures
        provider is None ==> r == Err::<OracleProvider, OracleError>(OracleError::OracleTokenNotFound),
        provider matches Some(old) ==> match anchor_tolerances_spec(first_tolerance as int, last_tolerance as int) {
            Err(e) => r == Err::<OracleProvider, OracleError>(OracleError::Tolerance(e)),
            Ok(tol) => r matches Ok(p) && p.decimals == old.decimals && p.contract_address@ == old.contract_address@
                && p.pricing_method == old.pricing_method && p.token_type == old.token_type && p.source == old.source
                && p.first_token_id@ == old.first_token_id@ && p.second_token_id@ == old.second_token_id@ && p.tolerance == tol,
        },
{
    let old = match provider {
        Some(p) => p,
        None => return Err(OracleError::OracleTokenNotFound),
    };
    let tolerance = match get_anchor_tolerances(first_tolerance, last_tolerance) {
        Ok(t) => t,
        Err(e) => return Err(OracleError::Tolerance(e)),
    };
    Ok(OracleProvider { tolerance, ..old })
}

/// What the market reads from outside to price a token.
#[derive(Clone, Copy, Debug)]
pub enum PriceReading {
    /// Exchange rate of a liquid-staking token to EGLD (WAD).
    Rate(u128),
    /// Exchange rate to the staking contract's main token (at the oracle's decimals)
    /// and the main token's price (WAD).
    RateOfMain { ratio: u128, main_price: u128 },
    /// Prices of an LP token over a short and a long window (WAD).
    LpWindows { short: u128, long: u128 },
    /// The aggregator and safe prices read for the pricing method (WAD).
    Normal { aggregator: Option<u128>, safe: Option<u128> },
}

/// Price of a token from its oracle's configuration and the reading taken for it.
pub open spec fn reading_price_spec(
    token_type: OracleType,
    source: ExchangeSource,
    method: PricingMethod,
    decimals: u8,
    tol: OraclePriceFluctuation,
    reading: PriceReading,
    allow_unsafe: bool,
) -> Result<u128, OracleError> {
    match token_type {
        OracleType::Derived => match source {
            ExchangeSource::XEGLD | ExchangeSource::LEGLD => match reading {
                PriceReading::Rate(rate) => Ok(rate),
                _ => Err(OracleError::ReadingMismatch),
            },
            ExchangeSource::LXOXNO => match reading {
                PriceReading::RateOfMain { ratio, main_price } => match fit(egld_value_spec(ratio as int, main_price as int, decimals as nat)) {
                    Some(v) => Ok(v),
                    None => Err(OracleError::Arithmetic),
                },
                _ => Err(OracleError::ReadingMismatch),
            },
            _ => Err(OracleError::InvalidExchangeSource),
        },
        OracleType::Lp => if source != ExchangeSource::XExchange {
            Err(OracleError::InvalidExchangeSource)
        } else {
            match reading {
                PriceReading::LpWindows { short, long } => anchored_price_spec(short as int, long as int, tol, allow_unsafe),
                _ => Err(OracleError::ReadingMismatch),
            }
        },
        OracleType::Normal => match reading {
            PriceReading::Normal { aggregator, safe } => if (aggregator is Some, safe is Some) != price_sources_spec(method) {
                Err(OracleError::ReadingMismatch)
            } else {
                normal_price_spec(aggregator, safe, tol, allow_unsafe)
            },
            _ => Err(OracleError::ReadingMismatch),
        },
        OracleType::Undefined => Err(OracleError::InvalidOracleTokenType),
    }
}

/// Price (WAD) of a token from its oracle and the reading taken for it.
pub fn price_from_reading(provider: &OracleProvider, reading: PriceReading, allow_unsafe: bool) -> (r: Result<u128, OracleError>)
    requires
        provider.decimals <= 38,
    ensures
        r == reading_price_spec(provider.token_type, provider.source, provider.pricing_method, provider.decimals, provider.tolerance, reading, allow_unsafe),
{
    match provider.token_type {
        OracleType::Derived => match provider.source {
            ExchangeSource::XEGLD | ExchangeSource::LEGLD => match reading {
                PriceReading::Rate(rate) => Ok(rate),
                _ => Err(OracleError::ReadingMismatch),
            },
            ExchangeSource::LXOXNO => match reading {
                PriceReading::RateOfMain { ratio, main_price } => match get_token_amount_in_egld_raw(ratio, main_price, provider.decimals as usize) {
                    Some(v) => Ok(v),
                    None => Err(OracleError::Arithmetic),
                },
                _ => Err(OracleError::ReadingMismatch),
            },
            _ => Err(OracleError::InvalidExchangeSource),
        },
        OracleType::Lp => if provider.source != ExchangeSource::XExchange {
            Err(OracleError::InvalidExchangeSource)
        } else {
            match reading {
                PriceReading::LpWindows { short, long } => select_anchored_price(short, long, &provider.tolerance, allow_unsafe),
                _ => Err(OracleError::ReadingMismatch),
            }
        },
        OracleType::Normal => match reading {
            PriceReading::Normal { aggregator, safe } => {
                let (need_aggregator, need_safe) = normal_price_sources(provider.pricing_method);
                if aggregator.is_some() != need_aggregator || safe.is_some() != need_safe {
                    Err(OracleError::ReadingMismatch)
                } else {
                    get_normal_price_in_egld(aggregator, safe, &provider.tolerance, allow_unsafe)
                }
            },
            _ => Err(OracleError::ReadingMismatch),
        },
        OracleType::Undefined => Err(OracleError::InvalidOracleTokenType),
    }
}

/// Safe price of a token from the exchange's answer for one whole token: the amount
/// itself when the answer is in EGLD, otherwise the price of the answered token.
pub open spec fn safe_price_spec(pair_active: bool, result_token: Seq<u8>, result_amount: u128, result_token_price: Option<u128>) -> Result<u128, OracleError> {
    if !pair_active {
        Err(OracleError::PairNotActive)
    } else {
        match token_ticker_spec(result_token) {
            None => Err(OracleError::InvalidTicker),
            Some(t) => if t == egld_bytes() {
                Ok(result_amount)
            } else {
                match result_token_price {
                    Some(p) => Ok(p),
                    None => Err(OracleError::ReadingMismatch),
                }
            },
        }
    }
}

/// Safe price (WAD) of a token (see `safe_price_spec`).
pub fn get_safe_price(pair_active: bool, result_token: &TokenId, result_amount: u128, result_token_price: Option<u128>) -> (r: Result<u128, OracleError>)
    ensures
        r == safe_price_spec(pair_active, result_token@, result_amount, result_token_price),
{
    if !pair_active {
        return Err(OracleError::PairNotActive);
    }
    let ticker = match get_token_ticker(result_token) {
        Some(t) => t,
        None => return Err(OracleError::InvalidTicker),
    };
    let egld = egld_ticker();
    if same_bytes(&ticker, &egld) {
        return Ok(result_amount);
    }
    match result_token_price {
        Some(p) => Ok(p),
        None => Err(OracleError::ReadingMismatch),
    }
}

/// First feed recorded for `key` in `s` from index `i` on.
pub open spec fn find_feed(s: Seq<(TokenId, PriceFeedShort)>, key: Seq<u8>, i: int) -> Option<PriceFeedShort>
    decreases s.len() - i,
{
    if i < 0 || i >= s.len() {
        None
    } else if s[i].0@ == key {
        Some(s[i].1)
    } else {
        find_feed(s, key, i + 1)
    }
}

proof fn lemma_find_feed_prepend(s: Seq<(TokenId, PriceFeedShort)>, x: (TokenId, PriceFeedShort), key: Seq<u8>, i: int)
    requires
        0 <= i <= s.len(),
    ensures
        find_feed(seq![x] + s, key, i + 1) == find_feed(s, key, i),
    decreases s.len() - i,
{
    let t = seq![x] + s;
    if i < s.len() {
        assert(t[i + 1] == s[i]);
        lemma_find_feed_prepend(s, x, key, i + 1);
    }
}

/// Prices already computed during one operation, by token.
#[derive(Debug)]
pub struct PriceCache {
    pub entries: Vec<(TokenId, PriceFeedShort)>,
}

impl PriceCache {
    /// The feed cached for a token.
    pub open spec fn lookup(&self, key: Seq<u8>) -> Option<PriceFeedShort> {
        find_feed(self.entries@, key, 0)
    }

    /// An empty cache.
    pub fn new() -> (r: PriceCache)
        ensures
            forall|k: Seq<u8>| r.lookup(k) is None,
    {
        PriceCache { entries: Vec::new() }
    }

    /// The feed cached for a token.
    pub fn get(&self, token: &TokenId) -> (r: Option<PriceFeedShort>)
        ensures
            r == self.lookup(token@),
    {
        let mut i: usize = 0;
        while i < self.entries.len()
            invariant
                i <= self.entries@.len(),
                find_feed(self.entries@, token@, 0) == find_feed(self.entries@, token@, i as int),
            decreases self.entries@.len() - i,
        {
            if same_token(&self.entries[i].0, token) {
                return Some(self.entries[i].1);
            }
            i = i + 1;
        }
        None
    }

    /// Records the feed of a token, replacing any earlier one.
    pub fn put(&mut self, token: &TokenId, feed: PriceFeedShort)
        ensures
            forall|k: Seq<u8>| #[trigger] final(self).lookup(k) == if k == token@ { Some(feed) } else { old(self).lookup(k) },
    {
        let entry = (token.clone(), feed);
        let ghost before = self.entries@;
        self.entries.insert(0, entry);
        proof {
            assert(self.entries@ =~= seq![entry] + before);
            assert forall|k: Seq<u8>| #[trigger] find_feed(self.entries@, k, 0) == if k == token@ { Some(feed) } else { find_feed(before, k, 0) } by {
                lemma_find_feed_prepend(before, entry, k, 0);
            }
        }
    }
}

/// Feed of a token: EGLD (and WEGLD) at one EGLD with 18 decimals, a cached feed,
/// or the oracle's price from the reading, which is then cached.
pub open spec fn token_price_spec(
    token: Seq<u8>,
    cached: Option<PriceFeedShort>,
    provider: Option<(OracleType, ExchangeSource, PricingMethod, u8, OraclePriceFluctuation)>,
    reading: Option<PriceReading>,
    allow_unsafe: bool,
) -> Result<PriceFeedShort, OracleError> {
    match token_ticker_spec(token) {
        None => Err(OracleError::InvalidTicker),
        Some(t) => if t == egld_bytes() {
            Ok(PriceFeedShort { decimals: PRICE_DECIMALS, price: WAD })
        } else {
            match cached {
                Some(f) => Ok(f),
                None => match provider {
                    None => Err(OracleError::OracleTokenNotFound),
                    Some((token_type, source, method, decimals, tol)) => match reading {
                        None => Err(OracleError::ReadingMismatch),
                        Some(rd) => match reading_price_spec(token_type, source, method, decimals, tol, rd, allow_unsafe) {
                            Err(e) => Err(e),
                            Ok(price) => Ok(PriceFeedShort { decimals, price }),
                        },
                    },
                },
            }
        },
    }
}

/// The parts of an oracle that its price depends on.
pub open spec fn provider_view(p: Option<&OracleProvider>) -> Option<(OracleType, ExchangeSource, PricingMethod, u8, OraclePriceFluctuation)> {
    match p {
        Some(o) => Some((o.token_type, o.source, o.pricing_method, o.decimals, o.tolerance)),
        None => None,
    }
}

/// Feed of a token (see `token_price_spec`); a newly computed feed is cached.
pub fn get_token_price(
    token: &TokenId,
    cache: &mut PriceCache,
    provider: Option<&OracleProvider>,
    reading: Option<PriceReading>,
    allow_unsafe: bool,
) -> (r: Result<PriceFeedShort, OracleError>)
    requires
        provider matches Some(p) ==> p.decimals <= 38,
    ensures
        r == token_price_spec(token@, old(cache).lookup(token@), provider_view(provider), reading, allow_unsafe),
        forall|k: Seq<u8>| #[trigger] final(cache).lookup(k) == if k == token@ && r is Ok && old(cache).lookup(token@) is None
            && token_ticker_spec(token@) != Some(egld_bytes()) { Some(r->Ok_0) } else { old(cache).lookup(k) },
{
    let ticker = match get_token_ticker(token) {
        Some(t) => t,
        None => return Err(OracleError::InvalidTicker),
    };
    let egld = egld_ticker();
    if same_bytes(&ticker, &egld) {
        return Ok(PriceFeedShort { decimals: PRICE_DECIMALS, price: WAD });
    }
    if let Some(f) = cache.get(token) {
        return Ok(f);
    }
    let oracle = match provider {
        Some(o) => o,
        None => return Err(OracleError::OracleTokenNotFound),
    };
    let rd = match reading {
        Some(rd) => rd,
        None => return Err(OracleError::ReadingMismatch),
    };
    let price = price_from_reading(oracle, rd, allow_unsafe)?;
    let feed = PriceFeedShort { decimals: oracle.decimals, price };
    cache.put(token, feed);
    Ok(feed)
}

/// The price chosen between a primary price and its anchor never leaves the range
/// the two span.
pub proof fn lemma_anchored_price_between(primary: u128, anchor: u128, tol: OraclePriceFluctuation, allow_unsafe: bool)
    requires
        anchored_price_spec(primary as int, anchor as int, tol, allow_unsafe) is Ok,
    ensures
        ({
            let p = anchored_price_spec(primary as int, anchor as int, tol, allow_unsafe)->Ok_0;
            &&& (primary <= anchor ==> primary <= p <= anchor)
            &&& (anchor <= primary ==> anchor <= p <= primary)
        }),
{
}

/// With accepted tolerances, a price within the first band is also
/// within the last band.
pub proof fn lemma_first_band_within_last(primary: int, anchor: int, first: int, last: int)
    requires
        anchor_tolerances_spec(first, last) is Ok,
        within_anchor_spec(
            primary,
            anchor,
            anchor_tolerances_spec(first, last)->Ok_0.first_upper_ratio as int,
            anchor_tolerances_spec(first, last)->Ok_0.first_lower_ratio as int,
        ) == Some(true),
    ensures
        within_anchor_spec(
            primary,
            anchor,
            anchor_tolerances_spec(first, last)->Ok_0.last_upper_ratio as int,
            anchor_tolerances_spec(first, last)->Ok_0.last_lower_ratio as int,
        ) == Some(true),
{
    lemma_tolerance_bands_nest(first, last);
}

/// Once a token's feed is cached, pricing the token again gives that feed, whatever
/// oracle and reading are handed in.
pub proof fn lemma_cached_price_reused(
    token: Seq<u8>,
    feed: PriceFeedShort,
    provider: Option<(OracleType, ExchangeSource, PricingMethod, u8, OraclePriceFluctuation)>,
    reading: Option<PriceReading>,
    allow_unsafe: bool,
)
    requires
        token_price_spec(token, None, provider, reading, allow_unsafe) == Ok::<PriceFeedShort, OracleError>(feed),
    ensures
        forall|p: Option<(OracleType, ExchangeSource, PricingMethod, u8, OraclePriceFluctuation)>, r: Option<PriceReading>, a: bool|
            #[trigger] token_price_spec(token, Some(feed), p, r, a) == Ok::<PriceFeedShort, OracleError>(feed),
{
}

/// Reading a token's price a second time, with the cache the first reading left,
/// gives the same feed, whatever the second reading and unsafe-price setting.
pub proof fn lemma_price_cache_repeats(
    token: Seq<u8>,
    cached: Option<PriceFeedShort>,
    provider: Option<(OracleType, ExchangeSource, PricingMethod, u8, OraclePriceFluctuation)>,
    reading: Option<PriceReading>,
    allow_unsafe: bool,
    second_reading: Option<PriceReading>,
    second_allow_unsafe: bool,
)
    requires
        token_price_spec(token, cached, provider, reading, allow_unsafe) is Ok,
    ensures
        ({
            let f = token_price_spec(token, cached, provider, reading, allow_unsafe)->Ok_0;
            let next = if cached is None && token_ticker_spec(token) != Some(egld_bytes()) { Some(f) } else { cached };
            token_price_spec(token, next, provider, second_reading, second_allow_unsafe) == Ok::<PriceFeedShort, OracleError>(f)
        }),
{
}
} // verus!
