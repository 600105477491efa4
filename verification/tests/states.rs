use solana_mirror::asset_map::AssetMap;
use solana_mirror::chart::get_balance_states;
use solana_mirror::chart::types::ChartData;
use solana_mirror::decimal::Decimal;
use solana_mirror::transactions::types::{BalanceChange, ParsedTransaction, TransactionResponse};
use solana_mirror::types::FormattedAmount;

fn amount(raw: &str, formatted: f64) -> FormattedAmount {
    FormattedAmount { amount: raw.to_string(), formatted: Decimal::from_bits(formatted.to_bits()) }
}

fn change(pre: f64, post: f64) -> BalanceChange {
    BalanceChange { pre: amount("0", pre), post: amount("0", post) }
}

fn transaction(time: i64, changes: Vec<(&str, BalanceChange)>) -> ParsedTransaction {
    let mut balances = AssetMap::new();
    for (asset, change) in changes {
        balances.insert(asset.to_string(), change);
    }
    ParsedTransaction::new(time, balances)
}

fn held(state: &ChartData, asset: &str) -> Option<f64> {
    state.balances.get(asset).map(|a| f64::from_bits(a.formatted.to_bits()))
}

#[test]
fn folding_removes_an_exited_asset() {
    let txs = vec![
        transaction(100, vec![("SOL", change(0.0, 5.0))]),
        transaction(200, vec![("SOL", change(5.0, 0.0)), ("USDC", change(0.0, 10.0))]),
    ];
    let states = get_balance_states(&txs);
    assert_eq!(states.len(), 2);
    assert_eq!(states[0].timestamp, 100);
    assert_eq!(states[0].balances.len(), 1);
    assert_eq!(held(&states[0], "SOL"), Some(5.0));
    assert_eq!(states[1].timestamp, 200);
    assert_eq!(states[1].balances.len(), 1);
    assert_eq!(held(&states[1], "USDC"), Some(10.0));
    assert!(!states[1].balances.contains_key("SOL"));
}

#[test]
fn folding_nothing_gives_nothing() {
    let states = get_balance_states(&Vec::new());
    assert!(states.is_empty());
}

#[test]
fn folding_keeps_one_snapshot_per_transaction() {
    let txs = vec![
        transaction(10, vec![("A", change(0.0, 1.0))]),
        transaction(10, vec![("B", change(0.0, 2.0))]),
        transaction(30, vec![]),
        transaction(40, vec![("A", change(1.0, 3.0))]),
    ];
    let states = get_balance_states(&txs);
    assert_eq!(states.len(), txs.len());
    assert_eq!(states[0].timestamp, 10);
    assert_eq!(states[1].timestamp, 10);
    assert_eq!(held(&states[0], "A"), Some(1.0));
    assert_eq!(held(&states[0], "B"), None);
    assert_eq!(held(&states[1], "A"), Some(1.0));
    assert_eq!(held(&states[1], "B"), Some(2.0));
    assert_eq!(states[2].balances.len(), 2);
    assert_eq!(held(&states[3], "A"), Some(3.0));
    assert_eq!(held(&states[3], "B"), Some(2.0));
}

#[test]
fn folding_keeps_the_amount_after_the_transaction() {
    let txs = vec![transaction(
        5,
        vec![("SOL", BalanceChange { pre: amount("7", 0.7), post: amount("1500", 1.5) })],
    )];
    let states = get_balance_states(&txs);
    assert_eq!(states[0].balances.get("SOL"), Some(&amount("1500", 1.5)));
}

#[test]
fn an_asset_whose_latest_change_is_zero_is_absent_at_the_end() {
    let txs = vec![
        transaction(1, vec![("A", change(0.0, 4.0)), ("B", change(0.0, 1.0))]),
        transaction(2, vec![("A", change(4.0, 0.0))]),
        transaction(3, vec![("B", change(1.0, 2.0))]),
        transaction(4, vec![("C", change(0.0, -0.0))]),
    ];
    let states = get_balance_states(&txs);
    let last = &states[states.len() - 1];
    assert!(!last.balances.contains_key("A"));
    assert!(!last.balances.contains_key("C"));
    assert_eq!(held(last, "B"), Some(2.0));
    assert_eq!(last.balances.len(), 1);
}

#[test]
fn an_asset_that_comes_back_is_held_again() {
    let txs = vec![
        transaction(1, vec![("A", change(0.0, 4.0))]),
        transaction(2, vec![("A", change(4.0, 0.0))]),
        transaction(3, vec![("A", change(0.0, 9.0))]),
    ];
    let states = get_balance_states(&txs);
    assert_eq!(held(&states[0], "A"), Some(4.0));
    assert_eq!(held(&states[1], "A"), None);
    assert_eq!(held(&states[2], "A"), Some(9.0));
}

#[test]
fn a_transaction_response_counts_its_transactions() {
    let response = TransactionResponse::new(vec![transaction(1, vec![]), transaction(2, vec![])]);
    assert_eq!(response.count, 2);
    assert_eq!(response.transactions.len(), 2);
    let empty = TransactionResponse::default();
    assert_eq!(empty.count, 0);
    assert!(empty.transactions.is_empty());
}

#[test]
fn zero_is_told_from_other_amounts() {
    assert!(Decimal::from_bits(0.0f64.to_bits()).is_zero());
    assert!(Decimal::from_bits((-0.0f64).to_bits()).is_zero());
    assert!(Decimal::zero().is_zero());
    assert!(!Decimal::from_bits(1e-300f64.to_bits()).is_zero());
    assert!(!Decimal::from_bits(f64::NAN.to_bits()).is_zero());
    assert!(!Decimal::from_bits(f64::MIN_POSITIVE.to_bits()).is_zero());
    assert_eq!(Decimal::from_bits(42).to_bits(), 42);
}

#[test]
fn defaults_are_empty() {
    let a = FormattedAmount::default();
    assert_eq!(a.amount, "");
    assert!(a.formatted.is_zero());
    let c = BalanceChange::default();
    assert_eq!(c.pre, a);
    assert_eq!(c.post, a);
    let d = ChartData::default();
    assert_eq!(d.timestamp, 0);
    assert!(d.balances.is_empty());
}
