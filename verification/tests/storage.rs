use cosmwasm_std::testing::MockStorage;
use cosmwasm_std::Storage;
use std_reference::contract::{
    execute_add_relayers, execute_force_relay, execute_relay, execute_remove_relayers,
    execute_update_config, instantiate, query_config, query_is_relayer, query_ref,
};
use std_reference::error::{ContractError, Role};
use std_reference::msg::InstantiateMsg;
use std_reference::state::Store;
use std_reference::struct_types::{Config, RefData};

fn names(list: &[&str]) -> Vec<String> {
    list.iter().map(|s| s.to_string()).collect()
}

// Texts that a JSON writer has to escape, and texts beyond ASCII.
fn odd_texts() -> Vec<String> {
    names(&[
        "",
        " ",
        "\"",
        "\\",
        "a\"b\\c",
        "line\nbreak\ttab\r",
        "\u{0000}\u{0001}\u{001f}",
        "\u{0008}\u{000c}",
        "é",
        "日本語",
        "𝄞 clef",
        "USD ",
        "usd",
        "refdata",
        "config",
    ])
}

#[test]
fn owner_is_read_back_as_written() {
    for owner in odd_texts() {
        let mut storage = MockStorage::new();
        let mut store = Store::new(&mut storage);
        instantiate(&mut store, &owner, InstantiateMsg {}).unwrap();
        assert_eq!(
            query_config(&store).unwrap(),
            Config {
                owner: owner.clone()
            }
        );
        execute_update_config(&mut store, &owner, "next".to_string()).unwrap();
        assert_eq!(query_config(&store).unwrap().owner, "next");
    }
}

#[test]
fn every_character_is_read_back_as_written() {
    // Every character up to the end of the first plane, and a sample of the
    // planes beyond, in texts of up to 64 characters.
    let mut all: Vec<char> = (0u32..0x1_0000).filter_map(char::from_u32).collect();
    all.extend((0x1_0000u32..=0x10_ffff).step_by(257).filter_map(char::from_u32));
    all.push('\u{10ffff}');
    let mut storage = MockStorage::new();
    let mut store = Store::new(&mut storage);
    instantiate(&mut store, "owner", InstantiateMsg {}).unwrap();
    execute_add_relayers(&mut store, "owner", names(&["relayer"])).unwrap();
    let mut owner = "owner".to_string();
    for (i, chunk) in all.chunks(64).enumerate() {
        let text: String = chunk.iter().collect();
        execute_update_config(&mut store, &owner, text.clone()).unwrap();
        assert_eq!(query_config(&store).unwrap().owner, text);
        owner = text.clone();

        execute_add_relayers(&mut store, &owner, vec![text.clone()]).unwrap();
        assert!(query_is_relayer(&store, &text));

        let data = RefData::new(1 + i as u128, i as u64, 7);
        execute_force_relay(&mut store, "relayer", vec![text.clone()], vec![data.rate], data.resolve_time, 7)
            .unwrap();
        assert_eq!(query_ref(&store, &text).unwrap(), data);
    }
    // Nothing that was written later stands in the place of an earlier text.
    for (i, chunk) in all.chunks(64).enumerate() {
        let text: String = chunk.iter().collect();
        assert!(query_is_relayer(&store, &text));
        assert_eq!(query_ref(&store, &text).unwrap(), RefData::new(1 + i as u128, i as u64, 7));
    }
}

#[test]
fn relayers_with_odd_names_are_kept_apart() {
    let mut storage = MockStorage::new();
    let mut store = Store::new(&mut storage);
    instantiate(&mut store, "owner", InstantiateMsg {}).unwrap();
    let all = odd_texts();
    for (i, id) in all.iter().enumerate() {
        execute_add_relayers(&mut store, "owner", vec![id.clone()]).unwrap();
        for (j, other) in all.iter().enumerate() {
            assert_eq!(query_is_relayer(&store, other), j <= i);
        }
    }
    for (i, id) in all.iter().enumerate() {
        execute_remove_relayers(&mut store, "owner", vec![id.clone()]).unwrap();
        for (j, other) in all.iter().enumerate() {
            assert_eq!(query_is_relayer(&store, other), j > i);
        }
    }
    assert_eq!(query_config(&store).unwrap().owner, "owner");
}

#[test]
fn observations_with_odd_symbols_are_kept_apart() {
    let mut storage = MockStorage::new();
    let mut store = Store::new(&mut storage);
    instantiate(&mut store, "owner", InstantiateMsg {}).unwrap();
    execute_add_relayers(&mut store, "owner", names(&["relayer"])).unwrap();
    let all = odd_texts();
    let rates: Vec<u128> = (0..all.len()).map(|i| 1000 + i as u128).collect();
    execute_relay(&mut store, "relayer", all.clone(), rates.clone(), 5, 6).unwrap();
    for (i, symbol) in all.iter().enumerate() {
        assert_eq!(query_ref(&store, symbol).unwrap(), RefData::new(rates[i], 5, 6));
    }
    // The writes touched neither the owner nor the relayers.
    assert_eq!(query_config(&store).unwrap().owner, "owner");
    assert!(query_is_relayer(&store, "relayer"));
    assert!(!query_is_relayer(&store, "refdata"));
}

#[test]
fn extreme_values_are_read_back_as_written() {
    let mut storage = MockStorage::new();
    let mut store = Store::new(&mut storage);
    instantiate(&mut store, "owner", InstantiateMsg {}).unwrap();
    execute_add_relayers(&mut store, "owner", names(&["relayer"])).unwrap();
    execute_force_relay(
        &mut store,
        "relayer",
        names(&["MAX", "ONE"]),
        vec![u128::MAX, 1],
        u64::MAX,
        u64::MAX,
    )
    .unwrap();
    assert_eq!(
        query_ref(&store, "MAX").unwrap(),
        RefData::new(u128::MAX, u64::MAX, u64::MAX)
    );
    assert_eq!(query_ref(&store, "ONE").unwrap(), RefData::new(1, u64::MAX, u64::MAX));
    execute_force_relay(&mut store, "relayer", names(&["MAX"]), vec![1], 0, 0).unwrap();
    assert_eq!(query_ref(&store, "MAX").unwrap(), RefData::new(1, 0, 0));
}

#[test]
fn the_storage_keeps_the_layout_of_its_three_keys() {
    let mut storage = MockStorage::new();
    {
        let mut store = Store::new(&mut storage);
        instantiate(&mut store, "owner", InstantiateMsg {}).unwrap();
        execute_add_relayers(&mut store, "owner", names(&["relayer"])).unwrap();
        execute_relay(&mut store, "relayer", names(&["AAA"]), vec![1000], 100, 1).unwrap();
    }
    assert_eq!(storage.get(b"config"), Some(b"\"owner\"".to_vec()));
    assert_eq!(storage.get(b"\x00\x08relayersrelayer"), Some(b"true".to_vec()));
    assert_eq!(
        storage.get(b"\x00\x07refdataAAA"),
        Some(b"[\"1000\",100,1]".to_vec())
    );
}

#[test]
fn bytes_that_do_not_parse_count_as_nothing() {
    let mut storage = MockStorage::new();
    storage.set(b"config", b"{not json");
    storage.set(b"\x00\x07refdataAAA", b"garbage");
    storage.set(b"\x00\x07refdataBBB", b"[\"12\",3]");
    storage.set(b"\x00\x08relayersrelayer", b"x");
    let mut store = Store::new(&mut storage);

    // No owner can be read, so nobody owns the ledger.
    assert_eq!(query_config(&store).unwrap_err(), ContractError::NotInitialized);
    assert_eq!(
        execute_add_relayers(&mut store, "owner", names(&["other"])).unwrap_err(),
        ContractError::Unauthorized(Role::Owner)
    );
    // An entry of the relayer map makes a relayer, whatever its bytes.
    assert!(query_is_relayer(&store, "relayer"));
    // An observation that cannot be read is none, and a relay writes over it.
    assert_eq!(
        query_ref(&store, "AAA").unwrap_err(),
        ContractError::NotFound(names(&["AAA"]))
    );
    assert_eq!(
        query_ref(&store, "BBB").unwrap_err(),
        ContractError::NotFound(names(&["BBB"]))
    );
    execute_relay(&mut store, "relayer", names(&["AAA", "BBB"]), vec![5, 6], 1, 2).unwrap();
    assert_eq!(query_ref(&store, "AAA").unwrap(), RefData::new(5, 1, 2));
    assert_eq!(query_ref(&store, "BBB").unwrap(), RefData::new(6, 1, 2));
}
