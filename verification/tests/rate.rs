use cosmwasm_std::testing::MockStorage;
use cosmwasm_std::Storage;
use std_reference::contract::{
    execute_add_relayers, execute_force_relay, execute_relay, execute_relay_with_policy, instantiate,
    query_ref, query_reference_data, query_reference_data_bulk,
};
use std_reference::error::ContractError;
use std_reference::msg::{InstantiateMsg, StalePolicy};
use std_reference::rate::{compute_cross_rate, E18, E9};
use std_reference::state::Store;
use std_reference::struct_types::{RefData, ReferenceData};

fn names(list: &[&str]) -> Vec<String> {
    list.iter().map(|s| s.to_string()).collect()
}

// A ledger that holds `symbols[i]` at `rates[i]`, resolved at `10 + i`.
fn ledger_with<'a>(storage: &'a mut MockStorage, symbols: &[&str], rates: &[u128]) -> Store<'a> {
    let mut store = Store::new(storage);
    instantiate(&mut store, "owner", InstantiateMsg {}).unwrap();
    execute_add_relayers(&mut store, "owner", names(&["relayer"])).unwrap();
    for (i, symbol) in symbols.iter().enumerate() {
        execute_force_relay(
            &mut store,
            "relayer",
            names(&[symbol]),
            vec![rates[i]],
            10 + i as u64,
            1,
        )
        .unwrap();
    }
    store
}

#[test]
fn the_scale_is_a_billion() {
    assert_eq!(E9, 1_000_000_000u128);
    assert_eq!(E18, E9 * E9);
}

#[test]
fn cross_rate_is_base_times_scale_squared_over_quote() {
    let base = RefData::new(3 * E9, 7, 1);
    let quote = RefData::new(2 * E9, 9, 2);
    assert_eq!(
        compute_cross_rate(base, quote).unwrap(),
        ReferenceData::new(1_500_000_000_000_000_000, 7, 9)
    );
    assert_eq!(
        compute_cross_rate(quote, base).unwrap(),
        ReferenceData::new(666_666_666_666_666_666, 9, 7)
    );
}

#[test]
fn cross_rate_rounds_down() {
    let one = RefData::new(1, 0, 0);
    let three = RefData::new(3, 0, 0);
    let seven = RefData::new(7, 0, 0);
    assert_eq!(compute_cross_rate(one, three).unwrap().rate, 333_333_333_333_333_333);
    assert_eq!(compute_cross_rate(one, seven).unwrap().rate, 142_857_142_857_142_857);
    assert_eq!(compute_cross_rate(RefData::new(2, 0, 0), three).unwrap().rate, 666_666_666_666_666_666);
    // A base of zero is a rate of zero.
    assert_eq!(compute_cross_rate(RefData::new(0, 0, 0), three).unwrap().rate, 0);
    // A quotient below one is zero.
    let huge = RefData::new(E18 + 1, 0, 0);
    assert_eq!(compute_cross_rate(one, huge).unwrap().rate, 0);
    assert_eq!(compute_cross_rate(one, RefData::new(E18, 0, 0)).unwrap().rate, 1);
}

#[test]
fn cross_rate_takes_the_product_in_full() {
    // The product does not fit in 128 bits; the quotient does.
    let base = RefData::new(u128::MAX, 1, 1);
    let quote = RefData::new(E18, 2, 2);
    assert_eq!(
        compute_cross_rate(base, quote).unwrap(),
        ReferenceData::new(u128::MAX, 1, 2)
    );
    let quote = RefData::new(2 * E18, 2, 2);
    assert_eq!(compute_cross_rate(base, quote).unwrap().rate, u128::MAX / 2);
    let same = compute_cross_rate(base, base).unwrap();
    assert_eq!(same.rate, E18);
}

#[test]
fn cross_rate_with_a_zero_quote_is_an_error() {
    let base = RefData::new(5, 1, 1);
    let zero = RefData::new(0, 2, 2);
    assert_eq!(compute_cross_rate(base, zero).unwrap_err(), ContractError::Arithmetic);
    assert_eq!(compute_cross_rate(zero, zero).unwrap_err(), ContractError::Arithmetic);
    assert_eq!(
        compute_cross_rate(base, zero).unwrap_err().message(),
        "INVALID_RATE_DIVISION"
    );
}

#[test]
fn cross_rate_beyond_128_bits_is_an_error() {
    // The greatest rate that still fits, and the least that does not.
    let fits = u128::MAX / E18;
    let one = RefData::new(1, 0, 0);
    assert_eq!(
        compute_cross_rate(RefData::new(fits, 0, 0), one).unwrap().rate,
        fits * E18
    );
    assert_eq!(
        compute_cross_rate(RefData::new(fits + 1, 0, 0), one).unwrap_err(),
        ContractError::Arithmetic
    );
    assert_eq!(
        compute_cross_rate(RefData::new(u128::MAX, 0, 0), one).unwrap_err(),
        ContractError::Arithmetic
    );
    assert_eq!(
        compute_cross_rate(RefData::new(u128::MAX, 0, 0), RefData::new(E18 - 1, 0, 0)).unwrap_err(),
        ContractError::Arithmetic
    );
}

#[test]
fn usd_is_the_unit_rate_and_always_fresh() {
    let mut storage = MockStorage::new();
    let store = ledger_with(&mut storage, &["AAA"], &[1000 * E9]);
    assert_eq!(
        query_reference_data(&store, "AAA", "USD").unwrap(),
        ReferenceData::new(1000 * E9 * E9, 10, u64::MAX)
    );
    assert_eq!(
        query_reference_data(&store, "USD", "AAA").unwrap(),
        ReferenceData::new(E9 * E9 / 1000, u64::MAX, 10)
    );
    assert_eq!(
        query_reference_data(&store, "USD", "USD").unwrap(),
        ReferenceData::new(E9 * E9, u64::MAX, u64::MAX)
    );
}

#[test]
fn nothing_is_stored_for_usd_and_what_is_there_is_never_read() {
    let mut storage = MockStorage::new();
    {
        let store = ledger_with(&mut storage, &["USD", "AAA"], &[5, 2 * E9]);
        assert_eq!(
            query_reference_data(&store, "AAA", "USD").unwrap(),
            ReferenceData::new(2 * E9 * E9, 11, u64::MAX)
        );
    }
    assert_eq!(storage.get(b"\x00\x07refdataUSD"), None);
    {
        let mut store = Store::new(&mut storage);
        execute_relay(&mut store, "relayer", names(&["USD", "BBB"]), vec![7, 8], 50, 2).unwrap();
        assert_eq!(query_ref(&store, "BBB").unwrap(), RefData::new(8, 50, 2));
        assert_eq!(query_ref(&store, "USD").unwrap(), RefData::new(E9, u64::MAX, 0));
        // The strict policy refuses an entry of USD as it refuses any stale one.
        assert_eq!(
            execute_relay_with_policy(
                &mut store,
                "relayer",
                names(&["CCC", "USD"]),
                vec![7, 8],
                60,
                3,
                StalePolicy::Reject
            )
            .unwrap_err(),
            ContractError::InvalidResolveTime
        );
        assert_eq!(
            query_ref(&store, "CCC").unwrap_err(),
            ContractError::NotFound(names(&["CCC"]))
        );
    }
    assert_eq!(storage.get(b"\x00\x07refdataUSD"), None);

    // An entry that stands under the key of USD all the same is not read.
    storage.set(b"\x00\x07refdataUSD", b"[\"5\",1,1]");
    let store = Store::new(&mut storage);
    assert_eq!(query_ref(&store, "USD").unwrap(), RefData::new(E9, u64::MAX, 0));
    assert_eq!(
        query_reference_data(&store, "AAA", "USD").unwrap(),
        ReferenceData::new(2 * E9 * E9, 11, u64::MAX)
    );
}

#[test]
fn a_rate_with_itself_is_the_scale_squared() {
    let mut storage = MockStorage::new();
    let store = ledger_with(&mut storage, &["AAA", "BBB", "TINY"], &[123_456_789, u128::MAX, 1]);
    assert_eq!(
        query_reference_data(&store, "AAA", "AAA").unwrap(),
        ReferenceData::new(E9 * E9, 10, 10)
    );
    assert_eq!(
        query_reference_data(&store, "BBB", "BBB").unwrap(),
        ReferenceData::new(E9 * E9, 11, 11)
    );
    assert_eq!(
        query_reference_data(&store, "TINY", "TINY").unwrap(),
        ReferenceData::new(E9 * E9, 12, 12)
    );
}

#[test]
fn a_zero_rate_in_the_ledger_fails_the_query_and_nothing_else() {
    // No relay stores a rate of zero; this one was in the storage before.
    let mut storage = MockStorage::new();
    storage.set(b"\x00\x07refdataZERO", b"[\"0\",11,1]");
    let store = ledger_with(&mut storage, &["AAA"], &[4 * E9]);
    assert_eq!(query_ref(&store, "ZERO").unwrap(), RefData::new(0, 11, 1));
    assert_eq!(
        query_reference_data(&store, "AAA", "ZERO").unwrap_err(),
        ContractError::Arithmetic
    );
    assert_eq!(
        query_reference_data(&store, "ZERO", "AAA").unwrap(),
        ReferenceData::new(0, 11, 10)
    );
    // In bulk, a rate that cannot be computed fails the call ...
    assert_eq!(
        query_reference_data_bulk(&store, names(&["AAA", "AAA"]), names(&["USD", "ZERO"])).unwrap_err(),
        ContractError::Arithmetic
    );
    // ... unless symbols are missing too: they are named first.
    assert_eq!(
        query_reference_data_bulk(&store, names(&["AAA", "DNE"]), names(&["ZERO", "USD"])).unwrap_err(),
        ContractError::NotFound(names(&["DNE"]))
    );
}
