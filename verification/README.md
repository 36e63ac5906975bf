# lending_pool

The arithmetic and the rules of a MultiversX lending protocol (a controller and its
per-asset liquidity pools), written in Verus and proved against contracts stated over
mathematical models.

## Layout

- `src/` — the verified library.
  - `wide`, `u256`, `math`: 128/256-bit arithmetic, RAY/WAD/BPS fixed-point rounding.
  - `rates`: the three-slope interest rate model, interest factors, index updates and
    the split of accrued interest between bad debt, treasury and suppliers.
  - `pool`, `liquidity`, `position`: a pool's scaled accounting, index synchronisation,
    and its operations (supply, borrow, withdraw, repay, flash loans, bad debt, revenue).
  - `token`: token identifiers; well-formedness and tickers come from
    `multiversx-chain-core`.
  - `controller`, `lending`, `account`: asset configuration, e-mode, isolation and
    siloed borrowing rules, caps, health checks, and the supply, borrow, repay,
    withdraw, vault and leverage flows on a pool.
  - `oracle`: tolerance bands, anchored prices, price sources and a per-operation cache.
  - `valuation`, `views`: an account's collateral and debt in EGLD, its health factor.
  - `liquidation`, `liquidation_bp`, `liquidation_flow`: health factors, liquidation
    bonuses, repayment estimates, and the planning of a liquidation.
- `tests/` — tests on concrete values, run against the compiled library.
- `app/` — the contract-side plumbing: NFT attribute encoding and an in-memory
  controller that stores markets and accounts and calls the library.

Public `proof fn`s named `lemma_*` state the laws the library keeps (round trips,
conservation, monotonicity, bounds); each doc comment says the law in words.
