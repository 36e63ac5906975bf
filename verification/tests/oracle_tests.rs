use lending_pool::liquidation::{get_anchor_tolerances, OraclePriceFluctuation, ToleranceError};
use lending_pool::oracle::{
    edit_token_oracle_tolerance, get_aggregator_price_feed, get_lp_price, get_normal_price_in_egld,
    get_safe_price, get_token_price, get_token_price_in_egld_from_aggregator, get_token_ticker,
    is_within_anchor, normal_price_sources, oracle_token_queries, price_from_reading,
    select_anchored_price, set_token_oracle, ExchangeSource, OracleError, OracleProvider, OracleType,
    PriceCache, PriceFeedShort, PriceReading, PricingMethod,
};
use lending_pool::token::TokenId;

const E18: u128 = 1_000_000_000_000_000_000;

fn token(s: &str) -> TokenId {
    TokenId::new(s.as_bytes().to_vec())
}

fn tolerance() -> OraclePriceFluctuation {
    get_anchor_tolerances(500, 1_000).unwrap()
}

fn provider(token_type: OracleType, source: ExchangeSource, method: PricingMethod) -> OracleProvider {
    OracleProvider {
        decimals: 18,
        contract_address: vec![1, 2, 3],
        pricing_method: method,
        token_type,
        source,
        first_token_id: token("EGLD"),
        second_token_id: token("EGLD"),
        tolerance: tolerance(),
    }
}

#[test]
fn tickers_of_identifiers() {
    assert_eq!(get_token_ticker(&token("USDC-c76f1f")), Some(b"USDC".to_vec()));
    assert_eq!(get_token_ticker(&token("WEGLD-bd4d79")), Some(b"EGLD".to_vec()));
    assert_eq!(get_token_ticker(&token("EGLD")), Some(b"EGLD".to_vec()));
    assert_eq!(get_token_ticker(&token("XEGLD-e413ed")), Some(b"XEGLD".to_vec()));
    assert_eq!(get_token_ticker(&token("ABC")), None);
}

#[test]
fn anchor_ratio_checks() {
    // 103 against 100 is a ratio of 10300.
    assert_eq!(is_within_anchor(100, 103, 10_500, 9_524), Some(true));
    assert_eq!(is_within_anchor(100, 106, 10_500, 9_524), Some(false));
    assert_eq!(is_within_anchor(100, 95, 10_500, 9_524), Some(false));
    assert_eq!(is_within_anchor(0, 95, 10_500, 9_524), None);
}

#[test]
fn anchored_price_selection() {
    let t = tolerance();
    // Within the first band: the primary price.
    assert_eq!(select_anchored_price(100 * E18, 103 * E18, &t, false), Ok(100 * E18));
    // Within the last band only: the average.
    assert_eq!(select_anchored_price(100 * E18, 108 * E18, &t, false), Ok(104 * E18));
    // The average truncates.
    assert_eq!(select_anchored_price(100, 107, &t, false), Ok(103));
    // Beyond both: refused unless unsafe prices are allowed, then the anchor.
    assert_eq!(select_anchored_price(100 * E18, 120 * E18, &t, false), Err(OracleError::UnsafePriceNotAllowed));
    assert_eq!(select_anchored_price(100 * E18, 120 * E18, &t, true), Ok(120 * E18));
    assert_eq!(select_anchored_price(0, 120 * E18, &t, true), Err(OracleError::Arithmetic));
}

#[test]
fn anchored_price_lies_between_primary_and_anchor() {
    let t = tolerance();
    for anchor in [90u128, 95, 99, 100, 104, 107, 110, 130] {
        let p = select_anchored_price(100 * E18, anchor * E18, &t, true).unwrap();
        assert!(p >= (100 * E18).min(anchor * E18));
        assert!(p <= (100 * E18).max(anchor * E18));
    }
}

#[test]
fn normal_price_from_the_method_sources() {
    let t = tolerance();
    assert_eq!(normal_price_sources(PricingMethod::Mix), (true, true));
    assert_eq!(normal_price_sources(PricingMethod::Safe), (false, true));
    assert_eq!(normal_price_sources(PricingMethod::Aggregator), (true, false));
    assert_eq!(normal_price_sources(PricingMethod::Undefined), (false, false));
    assert_eq!(get_normal_price_in_egld(Some(5), None, &t, false), Ok(5));
    assert_eq!(get_normal_price_in_egld(None, Some(7), &t, false), Ok(7));
    assert_eq!(get_normal_price_in_egld(Some(100 * E18), Some(108 * E18), &t, false), Ok(104 * E18));
    assert_eq!(get_normal_price_in_egld(None, None, &t, false), Err(OracleError::NoLastPriceFound));
}

#[test]
fn aggregator_feed_errors() {
    assert_eq!(get_aggregator_price_feed(false, false, Some(1)), Err(OracleError::PriceAggregatorNotSet));
    assert_eq!(get_aggregator_price_feed(true, true, Some(1)), Err(OracleError::AggregatorPaused));
    assert_eq!(get_aggregator_price_feed(true, false, None), Err(OracleError::TokenPairNotFound));
    assert_eq!(get_aggregator_price_feed(true, false, Some(42)), Ok(42));
}

#[test]
fn usd_prices_to_egld_price() {
    // A 30 USD token when EGLD is 40 USD costs 0.75 EGLD.
    assert_eq!(get_token_price_in_egld_from_aggregator(30 * E18, 40 * E18), Ok(75 * E18 / 100));
    assert_eq!(get_token_price_in_egld_from_aggregator(30 * E18, 0), Err(OracleError::Arithmetic));
}

#[test]
fn lp_price_sums_both_sides() {
    let a = PriceFeedShort { decimals: 18, price: E18 };
    let usdc = PriceFeedShort { decimals: 6, price: 25 * E18 / 1_000 };
    assert_eq!(get_lp_price(2 * E18, a, 100_000_000, usdc), Ok(45 * E18 / 10));
}

#[test]
fn oracle_configuration() {
    assert_eq!(oracle_token_queries(ExchangeSource::LXOXNO), (true, false));
    assert_eq!(oracle_token_queries(ExchangeSource::XExchange), (false, true));
    assert_eq!(oracle_token_queries(ExchangeSource::XEGLD), (false, false));

    let r = set_token_oracle(true, 18, vec![], PricingMethod::Safe, OracleType::Normal, ExchangeSource::XExchange, None, Some((token("A-aaaaaa"), token("B-bbbbbb"))), 500, 1_000);
    assert!(matches!(r, Err(OracleError::OracleTokenNotFound)));
    let r = set_token_oracle(false, 18, vec![], PricingMethod::Safe, OracleType::Normal, ExchangeSource::Undefined, None, None, 500, 1_000);
    assert!(matches!(r, Err(OracleError::InvalidExchangeSource)));
    let r = set_token_oracle(false, 39, vec![], PricingMethod::Safe, OracleType::Normal, ExchangeSource::XEGLD, None, None, 500, 1_000);
    assert!(matches!(r, Err(OracleError::InvalidDecimals)));
    let r = set_token_oracle(false, 18, vec![], PricingMethod::Safe, OracleType::Derived, ExchangeSource::LXOXNO, None, None, 500, 1_000);
    assert!(matches!(r, Err(OracleError::ReadingMismatch)));
    let r = set_token_oracle(false, 18, vec![], PricingMethod::Safe, OracleType::Normal, ExchangeSource::XExchange, None, Some((token("A-aaaaaa"), token("B-bbbbbb"))), 40, 1_000);
    assert!(matches!(r, Err(OracleError::Tolerance(ToleranceError::UnexpectedFirstTolerance))));

    let p = set_token_oracle(false, 18, vec![9], PricingMethod::Mix, OracleType::Normal, ExchangeSource::XExchange, None, Some((token("A-aaaaaa"), token("B-bbbbbb"))), 500, 1_000).unwrap();
    assert_eq!(p.first_token_id.bytes, b"A-aaaaaa".to_vec());
    assert_eq!(p.second_token_id.bytes, b"B-bbbbbb".to_vec());
    assert_eq!(p.tolerance, tolerance());

    let x = set_token_oracle(false, 18, vec![], PricingMethod::Safe, OracleType::Derived, ExchangeSource::XEGLD, None, None, 500, 1_000).unwrap();
    assert_eq!(x.first_token_id.bytes, b"EGLD".to_vec());
    let l = set_token_oracle(false, 18, vec![], PricingMethod::Safe, OracleType::Derived, ExchangeSource::LXOXNO, Some(token("XOXNO-589e09")), None, 500, 1_000).unwrap();
    assert_eq!(l.second_token_id.bytes, b"XOXNO-589e09".to_vec());

    let edited = edit_token_oracle_tolerance(Some(p), 300, 600).unwrap();
    assert_eq!(edited.tolerance, get_anchor_tolerances(300, 600).unwrap());
    assert_eq!(edited.pricing_method, PricingMethod::Mix);
    assert!(matches!(edit_token_oracle_tolerance(None, 300, 600), Err(OracleError::OracleTokenNotFound)));
    assert!(matches!(
        edit_token_oracle_tolerance(Some(edited), 600, 300),
        Err(OracleError::Tolerance(ToleranceError::UnexpectedAnchorTolerances))
    ));
}

#[test]
fn prices_from_readings() {
    let xegld = provider(OracleType::Derived, ExchangeSource::XEGLD, PricingMethod::Safe);
    assert_eq!(price_from_reading(&xegld, PriceReading::Rate(11 * E18 / 10), false), Ok(11 * E18 / 10));
    assert_eq!(price_from_reading(&xegld, PriceReading::LpWindows { short: 1, long: 1 }, false), Err(OracleError::ReadingMismatch));

    let lxoxno = provider(OracleType::Derived, ExchangeSource::LXOXNO, PricingMethod::Safe);
    assert_eq!(
        price_from_reading(&lxoxno, PriceReading::RateOfMain { ratio: 105 * E18 / 100, main_price: 2 * E18 }, false),
        Ok(21 * E18 / 10)
    );

    let bad_derived = provider(OracleType::Derived, ExchangeSource::XExchange, PricingMethod::Safe);
    assert_eq!(price_from_reading(&bad_derived, PriceReading::Rate(1), false), Err(OracleError::InvalidExchangeSource));

    let lp = provider(OracleType::Lp, ExchangeSource::XExchange, PricingMethod::Safe);
    assert_eq!(price_from_reading(&lp, PriceReading::LpWindows { short: 100 * E18, long: 108 * E18 }, false), Ok(104 * E18));
    let bad_lp = provider(OracleType::Lp, ExchangeSource::XEGLD, PricingMethod::Safe);
    assert_eq!(price_from_reading(&bad_lp, PriceReading::LpWindows { short: 1, long: 1 }, false), Err(OracleError::InvalidExchangeSource));

    let mix = provider(OracleType::Normal, ExchangeSource::XExchange, PricingMethod::Mix);
    assert_eq!(
        price_from_reading(&mix, PriceReading::Normal { aggregator: Some(100 * E18), safe: Some(103 * E18) }, false),
        Ok(100 * E18)
    );
    assert_eq!(
        price_from_reading(&mix, PriceReading::Normal { aggregator: Some(100 * E18), safe: None }, false),
        Err(OracleError::ReadingMismatch)
    );

    let undefined = provider(OracleType::Undefined, ExchangeSource::XExchange, PricingMethod::Mix);
    assert_eq!(price_from_reading(&undefined, PriceReading::Rate(1), false), Err(OracleError::InvalidOracleTokenType));
}

#[test]
fn safe_price_of_a_pair_answer() {
    assert_eq!(get_safe_price(false, &token("WEGLD-bd4d79"), 5, None), Err(OracleError::PairNotActive));
    assert_eq!(get_safe_price(true, &token("WEGLD-bd4d79"), 5, None), Ok(5));
    assert_eq!(get_safe_price(true, &token("USDC-c76f1f"), 5, Some(7)), Ok(7));
    assert_eq!(get_safe_price(true, &token("USDC-c76f1f"), 5, None), Err(OracleError::ReadingMismatch));
    assert_eq!(get_safe_price(true, &token("X"), 5, None), Err(OracleError::InvalidTicker));
}

#[test]
fn price_cache_keeps_the_latest_feed() {
    let mut cache = PriceCache::new();
    assert_eq!(cache.get(&token("USDC-c76f1f")), None);
    cache.put(&token("USDC-c76f1f"), PriceFeedShort { decimals: 6, price: 1 });
    cache.put(&token("USDC-c76f1f"), PriceFeedShort { decimals: 6, price: 2 });
    assert_eq!(cache.get(&token("USDC-c76f1f")), Some(PriceFeedShort { decimals: 6, price: 2 }));
    assert_eq!(cache.get(&token("HTM-abcdef")), None);
}

#[test]
fn token_price_is_computed_once_and_reused() {
    let mut cache = PriceCache::new();
    let xegld = provider(OracleType::Derived, ExchangeSource::XEGLD, PricingMethod::Safe);
    let t = token("XEGLD-e413ed");
    let first = get_token_price(&t, &mut cache, Some(&xegld), Some(PriceReading::Rate(11 * E18 / 10)), false);
    assert_eq!(first, Ok(PriceFeedShort { decimals: 18, price: 11 * E18 / 10 }));
    // A second reading is not used: the cached feed is.
    let second = get_token_price(&t, &mut cache, Some(&xegld), Some(PriceReading::Rate(2 * E18)), false);
    assert_eq!(second, first);
    // EGLD and WEGLD are one EGLD.
    assert_eq!(get_token_price(&token("WEGLD-bd4d79"), &mut cache, None, None, false), Ok(PriceFeedShort { decimals: 18, price: E18 }));
    assert_eq!(get_token_price(&token("HTM-abcdef"), &mut cache, None, None, false), Err(OracleError::OracleTokenNotFound));
}
