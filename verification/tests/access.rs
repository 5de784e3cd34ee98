use cosmwasm_std::testing::mock_dependencies;
use std_reference::contract::{execute, instantiate, query_config, query_is_relayer};
use std_reference::error::{ContractError, Role};
use std_reference::msg::{ExecuteMsg, InstantiateMsg};
use std_reference::state::Store;
use std_reference::struct_types::Config;

// Sets the ledger up with `sender` as its owner.
fn setup(store: &mut Store, sender: &str) {
    instantiate(store, sender, InstantiateMsg {}).unwrap();
    assert_eq!(
        query_config(store).unwrap(),
        Config {
            owner: sender.to_string()
        }
    );
}

// Sets the ledger up and admits `relayers`.
fn setup_relayers(store: &mut Store, sender: &str, relayers: Vec<String>) {
    setup(store, sender);
    let msg = ExecuteMsg::AddRelayers {
        relayers: relayers.clone(),
    };
    execute(store, sender, msg).unwrap();
    assert_eq!(
        is_relayers(store, &relayers),
        std::iter::repeat(true)
            .take(relayers.len())
            .collect::<Vec<bool>>()
    );
}

fn is_relayers(store: &Store, relayers: &[String]) -> Vec<bool> {
    relayers
        .iter()
        .map(|r| query_is_relayer(store, r))
        .collect::<Vec<bool>>()
}

fn names(list: &[&str]) -> Vec<String> {
    list.iter().map(|s| s.to_string()).collect()
}

#[test]
fn can_instantiate() {
    let mut deps = mock_dependencies();
    let mut store = Store::new(&mut deps.storage);
    instantiate(&mut store, "owner", InstantiateMsg {}).unwrap();
    assert_eq!(
        query_config(&store).unwrap(),
        Config {
            owner: "owner".to_string()
        }
    );
}

#[test]
fn contract_can_instantiate() {
    let mut deps = mock_dependencies();
    {
        let store = Store::new(&mut deps.storage);
        assert_eq!(
            query_config(&store).unwrap_err(),
            ContractError::NotInitialized
        );
        assert_eq!(
            query_config(&store).unwrap_err().message(),
            "CONFIG_NOT_INITIALIZED"
        );
    }
    let mut store = Store::new(&mut deps.storage);
    instantiate(&mut store, "owner", InstantiateMsg {}).unwrap();
    assert_eq!(
        query_config(&store).unwrap(),
        Config {
            owner: "owner".to_string()
        }
    );
}

#[test]
fn can_update_config_by_owner() {
    let mut deps = mock_dependencies();
    let mut store = Store::new(&mut deps.storage);
    setup(&mut store, "owner");

    let msg = ExecuteMsg::UpdateConfig {
        new_owner: "new_owner".to_string(),
    };
    execute(&mut store, "owner", msg).unwrap();
    let config = query_config(&store).unwrap();
    assert_eq!(
        config,
        Config {
            owner: "new_owner".to_string(),
        },
        "Expected successful owner change"
    );
}

#[test]
fn contract_can_update_config_by_owner() {
    let mut deps = mock_dependencies();
    let mut store = Store::new(&mut deps.storage);
    setup_relayers(&mut store, "owner", names(&["relayer_1"]));

    let msg = ExecuteMsg::UpdateConfig {
        new_owner: "new_owner".to_string(),
    };
    execute(&mut store, "owner", msg).unwrap();
    assert_eq!(
        query_config(&store).unwrap(),
        Config {
            owner: "new_owner".to_string(),
        },
        "Expected successful owner change"
    );
    // The relayers stay, and the former owner has no say any more.
    assert!(query_is_relayer(&store, "relayer_1"));
    let msg = ExecuteMsg::UpdateConfig {
        new_owner: "owner".to_string(),
    };
    assert_eq!(
        execute(&mut store, "owner", msg).unwrap_err(),
        ContractError::Unauthorized(Role::Owner)
    );
}

#[test]
fn cannot_update_config_by_others() {
    let mut deps = mock_dependencies();
    let mut store = Store::new(&mut deps.storage);
    setup(&mut store, "owner");

    let msg = ExecuteMsg::UpdateConfig {
        new_owner: "user".to_string(),
    };
    let err = execute(&mut store, "user", msg).unwrap_err();
    assert_eq!(err.message(), "NOT_AUTHORIZED");
}

#[test]
fn contract_cannot_update_config_by_others() {
    let mut deps = mock_dependencies();
    let mut store = Store::new(&mut deps.storage);
    setup(&mut store, "owner");

    let msg = ExecuteMsg::UpdateConfig {
        new_owner: "user".to_string(),
    };
    let err = execute(&mut store, "user", msg).unwrap_err();
    assert_eq!(err, ContractError::Unauthorized(Role::Owner));
    assert_eq!(
        query_config(&store).unwrap(),
        Config {
            owner: "owner".to_string()
        }
    );
}

#[test]
fn add_relayers_by_owner() {
    let mut deps = mock_dependencies();
    let mut store = Store::new(&mut deps.storage);
    instantiate(&mut store, "owner", InstantiateMsg {}).unwrap();
    let relayers_to_add = names(&["relayer_1", "relayer_2", "relayer_3"]);

    let msg = ExecuteMsg::AddRelayers {
        relayers: relayers_to_add.clone(),
    };
    execute(&mut store, "owner", msg).unwrap();

    assert_eq!(is_relayers(&store, &relayers_to_add), [true, true, true]);
}

#[test]
fn contract_add_relayers_by_owner() {
    let mut deps = mock_dependencies();
    let mut store = Store::new(&mut deps.storage);
    instantiate(&mut store, "owner", InstantiateMsg {}).unwrap();
    let relayers_to_add = vec!["relayer_1", "relayer_2", "relayer_3"];

    let msg = ExecuteMsg::AddRelayers {
        relayers: relayers_to_add
            .clone()
            .into_iter()
            .map(|r| r.to_string())
            .collect::<Vec<String>>(),
    };
    execute(&mut store, "owner", msg).unwrap();

    let is_relayers = relayers_to_add
        .into_iter()
        .map(|r| query_is_relayer(&store, r))
        .collect::<Vec<bool>>();
    assert_eq!(is_relayers, [true, true, true]);
}

#[test]
fn add_relayers_by_other() {
    let mut deps = mock_dependencies();
    let mut store = Store::new(&mut deps.storage);
    instantiate(&mut store, "owner", InstantiateMsg {}).unwrap();

    let msg = ExecuteMsg::AddRelayers {
        relayers: names(&["relayer_1"]),
    };
    let err = execute(&mut store, "user", msg).unwrap_err();
    assert_eq!(err.message(), "NOT_AUTHORIZED");
}

#[test]
fn contract_add_relayers_by_other() {
    let mut deps = mock_dependencies();
    let mut store = Store::new(&mut deps.storage);
    instantiate(&mut store, "owner", InstantiateMsg {}).unwrap();

    let msg = ExecuteMsg::AddRelayers {
        relayers: names(&["relayer_1"]),
    };
    let err = execute(&mut store, "user", msg).unwrap_err();
    assert_eq!(err, ContractError::Unauthorized(Role::Owner));
    assert!(!query_is_relayer(&store, "relayer_1"));
}

#[test]
fn remove_relayers_by_owner() {
    let mut deps = mock_dependencies();
    let mut store = Store::new(&mut deps.storage);
    let relayers_list = names(&["relayer_1", "relayer_2", "relayer_3"]);
    setup_relayers(&mut store, "owner", relayers_list.clone());

    let relayers_to_remove = relayers_list[..2].to_vec();
    let msg = ExecuteMsg::RemoveRelayers {
        relayers: relayers_to_remove,
    };
    execute(&mut store, "owner", msg).unwrap();

    assert_eq!(is_relayers(&store, &relayers_list), [false, false, true]);
}

#[test]
fn remove_relayer_by_owner() {
    let mut deps = mock_dependencies();
    let mut store = Store::new(&mut deps.storage);
    let relayers_list = names(&["relayer_1", "relayer_2", "relayer_3"]);
    setup_relayers(&mut store, "owner", relayers_list.clone());

    let relayers_to_remove = relayers_list[..2].to_vec();
    let msg = ExecuteMsg::RemoveRelayers {
        relayers: relayers_to_remove,
    };
    execute(&mut store, "owner", msg).unwrap();

    let is_relayers = relayers_list
        .into_iter()
        .map(|r| query_is_relayer(&store, &r))
        .collect::<Vec<bool>>();
    assert_eq!(is_relayers, [false, false, true]);
}

#[test]
fn remove_relayers_by_other() {
    let mut deps = mock_dependencies();
    let mut store = Store::new(&mut deps.storage);
    let relayers = names(&["relayer_1"]);
    setup_relayers(&mut store, "owner", relayers.clone());

    let msg = ExecuteMsg::RemoveRelayers { relayers };
    let err = execute(&mut store, "user", msg).unwrap_err();
    assert_eq!(err.message(), "NOT_AUTHORIZED");
}

#[test]
fn remove_relayer_by_other() {
    let mut deps = mock_dependencies();
    let mut store = Store::new(&mut deps.storage);
    let relayers = names(&["relayer_1"]);
    setup_relayers(&mut store, "owner", relayers.clone());

    let msg = ExecuteMsg::RemoveRelayers { relayers };
    let err = execute(&mut store, "user", msg).unwrap_err();
    assert_eq!(err, ContractError::Unauthorized(Role::Owner));
    assert!(query_is_relayer(&store, "relayer_1"));
}

#[test]
fn attempt_query_config() {
    let mut deps = mock_dependencies();
    let mut store = Store::new(&mut deps.storage);
    setup(&mut store, "owner");

    assert_eq!(
        query_config(&store).unwrap(),
        Config {
            owner: "owner".to_string()
        }
    );
}

#[test]
fn contract_attempt_query_config() {
    let mut deps = mock_dependencies();
    {
        let mut store = Store::new(&mut deps.storage);
        setup(&mut store, "owner");
    }
    // A handle made anew on the same storage finds what the first one wrote.
    let store = Store::new(&mut deps.storage);
    assert_eq!(
        query_config(&store).unwrap(),
        Config {
            owner: "owner".to_string()
        }
    );
}

#[test]
fn attempt_query_is_relayer() {
    let mut deps = mock_dependencies();
    let mut store = Store::new(&mut deps.storage);
    setup_relayers(&mut store, "owner", names(&["relayer"]));

    assert_eq!(query_is_relayer(&store, "relayer"), true);
    assert_eq!(query_is_relayer(&store, "not_a_relayer"), false);
}

#[test]
fn contract_attempt_query_is_relayer() {
    let mut deps = mock_dependencies();
    let mut store = Store::new(&mut deps.storage);
    let relayer = "relayer".to_string();
    setup_relayers(&mut store, "owner", vec![relayer.clone()]);

    assert_eq!(query_is_relayer(&store, &relayer), true);
    assert_eq!(query_is_relayer(&store, "not_a_relayer"), false);
    // The owner is no relayer unless admitted as one.
    assert_eq!(query_is_relayer(&store, "owner"), false);
}
