//! The operations of the ledger.
//!
//! Each takes the storage handle, and the writes take the identity of the
//! caller. A write that fails leaves the ledger as it was.
use vstd::prelude::*;
use crate::error::{outcome, outcome_seq, ContractError, ErrorView, Role};
use crate::model::{
    accepts, add_relayers, all_accepted, bulk_answer, execute_answer, execute_state, force_relay, forced,
    get_ref, get_reference_data, is_relayer, query_answer, relay_gate_under, relay_under,
    lemma_forced_step, lemma_missing_upto, lemma_relayed_none, lemma_relayed_step, missing_in, missing_of,
    missing_upto, observation, owner_gate, relay, relay_gate, relayed, remove_relayers, set_up,
    set_up_gate, update_config,
};
use crate::msg::{ExecuteMsg, InstantiateMsg, QueryMsg, QueryResponse, StalePolicy};
use crate::rate::{compute_cross_rate, E9};
use crate::state::{State, Store};
use crate::struct_types::{Config, RefData, ReferenceData};
use crate::symbols::{lemma_take_contains, sorted_names, text_eq, texts};

verus! {

/// Sets the ledger up: the caller becomes the owner of a ledger that has
/// none. Relayers and observations stay as the storage holds them.
///
/// A ledger that has an owner is not set up again: the call leaves it as it
/// is, and fails with `Unauthorized` unless the owner made it.
pub fn instantiate(store: &mut Store, sender: &str, _msg: InstantiateMsg) -> (r: Result<(), ContractError>)
    ensures
        outcome(r) == set_up_gate(old(store)@, sender@),
        final(store)@ == set_up(old(store)@, sender@),
{
    match store.load_owner() {
        Ok(Some(owner)) => {
            if text_eq(owner.as_str(), sender) {
                Ok(())
            } else {
                Err(ContractError::Unauthorized(Role::Owner))
            }
        },
        _ => {
            store.save_owner(sender);
            Ok(())
        },
    }
}

/// Carries out the write that `msg` asks for, on behalf of `sender`.
pub fn execute(store: &mut Store, sender: &str, msg: ExecuteMsg) -> (r: Result<(), ContractError>)
    ensures
        outcome(r) == execute_answer(old(store)@, sender@, msg),
        final(store)@ == execute_state(old(store)@, sender@, msg),
{
    match msg {
        ExecuteMsg::UpdateConfig { new_owner } => execute_update_config(store, sender, new_owner),
        ExecuteMsg::AddRelayers { relayers } => execute_add_relayers(store, sender, relayers),
        ExecuteMsg::RemoveRelayers { relayers } => execute_remove_relayers(store, sender, relayers),
        ExecuteMsg::Relay { symbols, rates, resolve_time, request_id } => execute_relay(
            store,
            sender,
            symbols,
            rates,
            resolve_time,
            request_id,
        ),
        ExecuteMsg::ForceRelay { symbols, rates, resolve_time, request_id } => execute_force_relay(
            store,
            sender,
            symbols,
            rates,
            resolve_time,
            request_id,
        ),
    }
}

/// Checks that `sender` owns the ledger. A ledger without an owner is owned
/// by nobody.
pub fn is_owner(store: &Store, sender: &str) -> (r: Result<(), ContractError>)
    ensures
        outcome(r) == owner_gate(store@, sender@),
{
    match store.load_owner() {
        Ok(Some(owner)) => {
            if text_eq(owner.as_str(), sender) {
                Ok(())
            } else {
                Err(ContractError::Unauthorized(Role::Owner))
            }
        },
        _ => Err(ContractError::Unauthorized(Role::Owner)),
    }
}

/// Hands the ledger to `new_owner`. Only the owner may do so. The relayers
/// stay as they are.
pub fn execute_update_config(store: &mut Store, sender: &str, new_owner: String) -> (r: Result<
    (),
    ContractError,
>)
    ensures
        outcome(r) == owner_gate(old(store)@, sender@),
        final(store)@ == update_config(old(store)@, sender@, new_owner@),
{
    match is_owner(store, sender) {
        Ok(()) => {
            store.save_owner(new_owner.as_str());
            Ok(())
        },
        Err(e) => Err(e),
    }
}

/// Admits each of `relayers` as a relayer. Only the owner may do so. One
/// that is a relayer already stays one.
pub fn execute_add_relayers(store: &mut Store, sender: &str, relayers: Vec<String>) -> (r: Result<
    (),
    ContractError,
>)
    ensures
        outcome(r) == owner_gate(old(store)@, sender@),
        final(store)@ == add_relayers(old(store)@, sender@, texts(relayers@)),
{
    match is_owner(store, sender) {
        Ok(()) => {},
        Err(e) => {
            return Err(e);
        },
    }
    let ghost before = store@;
    let ghost ids = texts(relayers@);
    let mut i: usize = 0;
    while i < relayers.len()
        invariant
            i <= relayers.len(),
            ids == texts(relayers@),
            store@.owner == before.owner,
            store@.refs == before.refs,
            forall|x: Seq<char>|
                #[trigger] store@.relayers.contains(x) <==> (before.relayers.contains(x) || ids.take(
                    i as int,
                ).contains(x)),
        decreases relayers.len() - i,
    {
        let ghost held = store@.relayers;
        store.save_relayer(relayers[i].as_str());
        proof {
            lemma_take_contains(ids, i as int);
            assert(ids[i as int] == relayers@[i as int]@);
            assert forall|x: Seq<char>| #[trigger]
                store@.relayers.contains(x) <==> (before.relayers.contains(x) || ids.take(i + 1).contains(
                    x,
                )) by {
                assert(held.contains(x) <==> (before.relayers.contains(x) || ids.take(i as int).contains(x)));
            }
        }
        i += 1;
    }
    proof {
        assert(ids.take(relayers.len() as int) =~= ids);
        let after = add_relayers(before, sender@, ids);
        assert(store@.relayers =~= after.relayers);
        assert(store@ == after);
    }
    Ok(())
}

/// Dismisses each of `relayers` as a relayer. Only the owner may do so. One
/// that is no relayer is passed over.
pub fn execute_remove_relayers(store: &mut Store, sender: &str, relayers: Vec<String>) -> (r: Result<
    (),
    ContractError,
>)
    ensures
        outcome(r) == owner_gate(old(store)@, sender@),
        final(store)@ == remove_relayers(old(store)@, sender@, texts(relayers@)),
{
    match is_owner(store, sender) {
        Ok(()) => {},
        Err(e) => {
            return Err(e);
        },
    }
    let ghost before = store@;
    let ghost ids = texts(relayers@);
    let mut i: usize = 0;
    while i < relayers.len()
        invariant
            i <= relayers.len(),
            ids == texts(relayers@),
            store@.owner == before.owner,
            store@.refs == before.refs,
            forall|x: Seq<char>|
                #[trigger] store@.relayers.contains(x) <==> (before.relayers.contains(x) && !ids.take(
                    i as int,
                ).contains(x)),
        decreases relayers.len() - i,
    {
        let ghost held = store@.relayers;
        store.remove_relayer(relayers[i].as_str());
        proof {
            lemma_take_contains(ids, i as int);
            assert(ids[i as int] == relayers@[i as int]@);
            assert forall|x: Seq<char>| #[trigger]
                store@.relayers.contains(x) <==> (before.relayers.contains(x) && !ids.take(i + 1).contains(
                    x,
                )) by {
                assert(held.contains(x) <==> (before.relayers.contains(x) && !ids.take(i as int).contains(x)));
            }
        }
        i += 1;
    }
    proof {
        assert(ids.take(relayers.len() as int) =~= ids);
        let after = remove_relayers(before, sender@, ids);
        assert forall|x: Seq<char>| store@.relayers.contains(x) <==> after.relayers.contains(x) by {
            assert(store@.relayers.contains(x) <==> (before.relayers.contains(x) && !ids.contains(x)));
        }
        assert(store@.relayers =~= after.relayers);
        assert(store@ == after);
    }
    Ok(())
}

/// Whether one of `rates` is zero.
fn holds_zero(rates: &Vec<u128>) -> (r: bool)
    ensures
        r == rates@.contains(0u128),
{
    let mut i: usize = 0;
    while i < rates.len()
        invariant
            i <= rates.len(),
            forall|j: int| 0 <= j < i ==> rates@[j] != 0,
        decreases rates.len() - i,
    {
        if rates[i] == 0 {
            assert(rates@[i as int] == 0u128);
            return true;
        }
        i += 1;
    }
    false
}

/// Takes in the entries of a batch one after the other, passing over each
/// that is no fresher than what the ledger holds by then.
fn relay_entries(
    store: &mut Store,
    symbols: &Vec<String>,
    rates: &Vec<u128>,
    resolve_time: u64,
    request_id: u64,
)
    requires
        symbols.len() == rates.len(),
    ensures
        final(store)@ == (State {
            refs: relayed(old(store)@.refs, texts(symbols@), rates@, resolve_time, request_id),
            ..old(store)@
        }),
{
    let ghost before = store@;
    let ghost names = texts(symbols@);
    proof {
        lemma_relayed_none(before.refs, rates@, resolve_time, request_id);
        assert(names.take(0) =~= Seq::<Seq<char>>::empty());
    }
    let mut i: usize = 0;
    while i < symbols.len()
        invariant
            i <= symbols.len(),
            symbols.len() == rates.len(),
            names == texts(symbols@),
            store@.owner == before.owner,
            store@.relayers == before.relayers,
            store@.refs == relayed(before.refs, names.take(i as int), rates@, resolve_time, request_id),
        decreases symbols.len() - i,
    {
        let symbol = symbols[i].as_str();
        let stale = match lookup(store, symbol) {
            Some(existing) => existing.resolve_time >= resolve_time,
            None => false,
        };
        proof {
            lemma_relayed_step(before.refs, names, rates@, resolve_time, request_id, i as int);
        }
        if !stale {
            store.save_ref(symbol, RefData::new(rates[i], resolve_time, request_id));
        }
        i += 1;
    }
    proof {
        assert(names.take(symbols.len() as int) =~= names);
    }
}

/// Whether the ledger accepts every entry of a batch resolved at
/// `resolve_time`, and the batch names no symbol twice.
fn accepts_all(store: &Store, symbols: &Vec<String>, resolve_time: u64) -> (r: bool)
    ensures
        r == all_accepted(store@.refs, texts(symbols@), resolve_time),
{
    let ghost names = texts(symbols@);
    let mut i: usize = 0;
    while i < symbols.len()
        invariant
            i <= symbols.len(),
            names == texts(symbols@),
            forall|a: int| 0 <= a < i ==> accepts(store@.refs, #[trigger] names[a], resolve_time),
            forall|a: int, b: int| 0 <= a < b < i ==> #[trigger] names[a] != #[trigger] names[b],
        decreases symbols.len() - i,
    {
        let symbol = symbols[i].as_str();
        assert(names[i as int] == symbol@);
        match lookup(store, symbol) {
            Some(existing) => {
                if existing.resolve_time >= resolve_time {
                    assert(!accepts(store@.refs, names[i as int], resolve_time));
                    return false;
                }
            },
            None => {},
        }
        let mut j: usize = 0;
        while j < i
            invariant
                j <= i,
                i < symbols.len(),
                names == texts(symbols@),
                symbol@ == names[i as int],
                forall|a: int| 0 <= a < j ==> #[trigger] names[a] != names[i as int],
            decreases i - j,
        {
            if text_eq(symbols[j].as_str(), symbol) {
                assert(names[j as int] == names[i as int]);
                return false;
            }
            j += 1;
        }
        i += 1;
    }
    true
}

/// Takes in a batch of observations, all resolved at `resolve_time` by the
/// request `request_id`: `rates[i]` is the rate of `symbols[i]`.
///
/// Only a relayer may do so, the two lists must be of one length, and no
/// rate may be zero. An entry is written where the ledger holds nothing for
/// its symbol, or something resolved strictly earlier; any other entry is
/// passed over, and the entries after it are still taken in. So a batch may
/// be sent again, or overlap with another, without harm. An entry of `USD`
/// is always passed over: nothing is fresher than `USD`. This is the lenient
/// policy, which `execute` follows; `execute_relay_with_policy` offers the strict
/// one too.
pub fn execute_relay(
    store: &mut Store,
    sender: &str,
    symbols: Vec<String>,
    rates: Vec<u128>,
    resolve_time: u64,
    request_id: u64,
) -> (r: Result<(), ContractError>)
    ensures
        outcome(r) == relay_gate(old(store)@, sender@, symbols.len() as nat, rates@),
        final(store)@ == relay(old(store)@, sender@, texts(symbols@), rates@, resolve_time, request_id),
{
    execute_relay_with_policy(store, sender, symbols, rates, resolve_time, request_id, StalePolicy::Skip)
}

/// Takes in a batch of observations as `execute_relay` does, with the choice
/// of what an entry that is no fresher than the ledger leads to.
///
/// Under `StalePolicy::Skip` such an entry is passed over. Under
/// `StalePolicy::Reject` it fails the whole call with `InvalidResolveTime`,
/// and nothing is written; a symbol named twice in the batch counts as such
/// an entry, since its second entry is no fresher than its first. A batch
/// that `Reject` lets through is written whole.
pub fn execute_relay_with_policy(
    store: &mut Store,
    sender: &str,
    symbols: Vec<String>,
    rates: Vec<u128>,
    resolve_time: u64,
    request_id: u64,
    policy: StalePolicy,
) -> (r: Result<(), ContractError>)
    ensures
        outcome(r) == relay_gate_under(
            old(store)@,
            sender@,
            texts(symbols@),
            rates@,
            resolve_time,
            policy,
        ),
        final(store)@ == relay_under(
            old(store)@,
            sender@,
            texts(symbols@),
            rates@,
            resolve_time,
            request_id,
            policy,
        ),
{
    if !store.has_relayer(sender) {
        return Err(ContractError::Unauthorized(Role::Relayer));
    }
    if symbols.len() != rates.len() {
        return Err(ContractError::SizeMismatch);
    }
    if holds_zero(&rates) {
        return Err(ContractError::InvalidRate);
    }
    match policy {
        StalePolicy::Skip => {},
        StalePolicy::Reject => {
            if !accepts_all(store, &symbols, resolve_time) {
                return Err(ContractError::InvalidResolveTime);
            }
        },
    }
    relay_entries(store, &symbols, &rates, resolve_time, request_id);
    Ok(())
}

/// Writes a batch of observations whatever the ledger holds: the correction
/// of bad data.
///
/// Only a relayer may do so, the two lists must be of one length, and no
/// rate may be zero. Every entry is written, in the order of the batch, but
/// for entries of `USD`, for which nothing is ever stored.
pub fn execute_force_relay(
    store: &mut Store,
    sender: &str,
    symbols: Vec<String>,
    rates: Vec<u128>,
    resolve_time: u64,
    request_id: u64,
) -> (r: Result<(), ContractError>)
    ensures
        outcome(r) == relay_gate(old(store)@, sender@, symbols.len() as nat, rates@),
        final(store)@ == force_relay(old(store)@, sender@, texts(symbols@), rates@, resolve_time, request_id),
{
    if !store.has_relayer(sender) {
        return Err(ContractError::Unauthorized(Role::Relayer));
    }
    if symbols.len() != rates.len() {
        return Err(ContractError::SizeMismatch);
    }
    if holds_zero(&rates) {
        return Err(ContractError::InvalidRate);
    }
    let ghost before = store@;
    let ghost names = texts(symbols@);
    proof {
        lemma_relayed_none(before.refs, rates@, resolve_time, request_id);
        assert(names.take(0) =~= Seq::<Seq<char>>::empty());
    }
    let mut i: usize = 0;
    while i < symbols.len()
        invariant
            i <= symbols.len(),
            symbols.len() == rates.len(),
            names == texts(symbols@),
            store@.owner == before.owner,
            store@.relayers == before.relayers,
            store@.refs == forced(before.refs, names.take(i as int), rates@, resolve_time, request_id),
        decreases symbols.len() - i,
    {
        let symbol = symbols[i].as_str();
        proof {
            lemma_forced_step(before.refs, names, rates@, resolve_time, request_id, i as int);
        }
        if !text_eq(symbol, "USD") {
            store.save_ref(symbol, RefData::new(rates[i], resolve_time, request_id));
        }
        i += 1;
    }
    proof {
        assert(names.take(symbols.len() as int) =~= names);
        assert(store@ == force_relay(before, sender@, names, rates@, resolve_time, request_id));
    }
    Ok(())
}

/// Answers the read that `msg` asks for.
pub fn query(store: &Store, msg: QueryMsg) -> (r: Result<QueryResponse, ContractError>)
    ensures
        query_answer(store@, msg, r),
{
    match msg {
        QueryMsg::Config {  } => match query_config(store) {
            Ok(config) => Ok(QueryResponse::Config(config)),
            Err(e) => Err(e),
        },
        QueryMsg::IsRelayer { relayer } => Ok(
            QueryResponse::IsRelayer(query_is_relayer(store, relayer.as_str())),
        ),
        QueryMsg::GetRef { symbol } => match query_ref(store, symbol.as_str()) {
            Ok(data) => Ok(QueryResponse::Ref(data)),
            Err(e) => Err(e),
        },
        QueryMsg::GetReferenceData { base_symbol, quote_symbol } => match query_reference_data(
            store,
            base_symbol.as_str(),
            quote_symbol.as_str(),
        ) {
            Ok(data) => Ok(QueryResponse::ReferenceData(data)),
            Err(e) => Err(e),
        },
        QueryMsg::GetReferenceDataBulk { base_symbols, quote_symbols } => match query_reference_data_bulk(
            store,
            base_symbols,
            quote_symbols,
        ) {
            Ok(rates) => Ok(QueryResponse::ReferenceDataBulk(rates)),
            Err(e) => Err(e),
        },
    }
}

/// The owner of the ledger. Fails with `NotInitialized` where it has none.
pub fn query_config(store: &Store) -> (r: Result<Config, ContractError>)
    ensures
        store@.owner matches Some(owner) ==> (r matches Ok(config) && config.owner@ == owner),
        store@.owner is None ==> (r matches Err(e) && e@ == ErrorView::NotInitialized),
{
    match store.load_owner() {
        Ok(Some(owner)) => Ok(Config { owner }),
        _ => Err(ContractError::NotInitialized),
    }
}

/// Whether `relayer` may submit observations.
pub fn query_is_relayer(store: &Store, relayer: &str) -> (r: bool)
    ensures
        r == is_relayer(store@, relayer@),
{
    store.has_relayer(relayer)
}

/// The observation of `symbol`, or `None`. For `USD` it is the unit rate,
/// resolved at the end of time by request `0`; the storage is not asked.
fn lookup(store: &Store, symbol: &str) -> (r: Option<RefData>)
    ensures
        r == observation(store@.refs, symbol@),
{
    if text_eq(symbol, "USD") {
        Some(RefData::new(E9, u64::MAX, 0))
    } else {
        match store.load_ref(symbol) {
            Ok(Some(data)) => Some(data),
            _ => None,
        }
    }
}

/// The observation of `symbol`. Fails with `NotFound`, naming the symbol,
/// where the ledger holds none and the symbol is not `USD`.
pub fn query_ref(store: &Store, symbol: &str) -> (r: Result<RefData, ContractError>)
    ensures
        outcome(r) == get_ref(store@.refs, symbol@),
{
    match lookup(store, symbol) {
        Some(data) => Ok(data),
        None => {
            let mut names: Vec<String> = Vec::new();
            names.push(symbol.to_owned());
            assert(texts(names@) =~= seq![symbol@]);
            Err(ContractError::NotFound(names))
        },
    }
}

/// The names, base first, of those of the two symbols that have no
/// observation.
fn missing_names(base: &str, found_base: Option<RefData>, quote: &str, found_quote: Option<RefData>) -> (r:
    Vec<String>)
    ensures
        texts(r@) == (if found_base is None {
            seq![base@]
        } else {
            Seq::empty()
        }) + (if found_quote is None {
            seq![quote@]
        } else {
            Seq::empty()
        }),
{
    let mut names: Vec<String> = Vec::new();
    if found_base.is_none() {
        names.push(base.to_owned());
    }
    if found_quote.is_none() {
        names.push(quote.to_owned());
    }
    assert(texts(names@) =~= (if found_base is None {
        seq![base@]
    } else {
        Seq::empty()
    }) + (if found_quote is None {
        seq![quote@]
    } else {
        Seq::empty()
    }));
    names
}

/// The rate of `base_symbol` in units of `quote_symbol`:
/// `base.rate * 10^18 / quote.rate`, rounded down, with the resolve times of
/// both observations.
///
/// Both symbols are looked up before anything fails: `NotFound` names, base
/// first, each of the two that has no observation. With both at hand,
/// `Arithmetic` says that the quote's rate is zero or that the rate does not
/// fit in 128 bits.
pub fn query_reference_data(store: &Store, base_symbol: &str, quote_symbol: &str) -> (r: Result<
    ReferenceData,
    ContractError,
>)
    ensures
        outcome(r) == get_reference_data(store@.refs, base_symbol@, quote_symbol@),
{
    let found_base = lookup(store, base_symbol);
    let found_quote = lookup(store, quote_symbol);
    match (found_base, found_quote) {
        (Some(base), Some(quote)) => {
            assert(missing_of(store@.refs, base_symbol@, quote_symbol@) =~= Seq::<Seq<char>>::empty());
            compute_cross_rate(base, quote)
        },
        _ => {
            let names = missing_names(base_symbol, found_base, quote_symbol, found_quote);
            Err(ContractError::NotFound(names))
        },
    }
}

/// The rates of `base_symbols[i]` in units of `quote_symbols[i]`, in the order
/// of the pairs.
///
/// The two lists must be of one length. Every pair is looked at before
/// anything fails. Where symbols have no observation, `NotFound` names each
/// of them once, in sorted order, and no rate is returned. Where none is
/// missing but some rate cannot be computed, the call fails with
/// `Arithmetic`.
pub fn query_reference_data_bulk(
    store: &Store,
    base_symbols: Vec<String>,
    quote_symbols: Vec<String>,
) -> (r: Result<Vec<ReferenceData>, ContractError>)
    ensures
        bulk_answer(store@.refs, texts(base_symbols@), texts(quote_symbols@), outcome_seq(r)),
{
    if base_symbols.len() != quote_symbols.len() {
        return Err(ContractError::SizeMismatch);
    }
    let ghost refs = store@.refs;
    let ghost bases = texts(base_symbols@);
    let ghost quotes = texts(quote_symbols@);
    let mut rates: Vec<ReferenceData> = Vec::new();
    let mut gone: Vec<String> = Vec::new();
    let mut failed = false;
    let mut i: usize = 0;
    while i < base_symbols.len()
        invariant
            i <= base_symbols.len(),
            base_symbols.len() == quote_symbols.len(),
            refs == store@.refs,
            bases == texts(base_symbols@),
            quotes == texts(quote_symbols@),
            texts(gone@) == missing_upto(refs, bases, quotes, i as int),
            failed <==> exists|j: int|
                0 <= j < i && #[trigger] get_reference_data(refs, bases[j], quotes[j]) == Err::<
                    ReferenceData,
                    ErrorView,
                >(ErrorView::Arithmetic),
            gone@.len() == 0 && !failed ==> rates@.len() == i && forall|j: int|
                0 <= j < i ==> get_reference_data(refs, bases[j], quotes[j]) == Ok::<ReferenceData, ErrorView>(
                    #[trigger] rates@[j],
                ),
        decreases base_symbols.len() - i,
    {
        let ghost here = get_reference_data(refs, bases[i as int], quotes[i as int]);
        let ghost held = texts(gone@);
        let ghost was_failed = failed;
        match query_reference_data(store, base_symbols[i].as_str(), quote_symbols[i].as_str()) {
            Ok(data) => {
                rates.push(data);
                assert(held + missing_of(refs, bases[i as int], quotes[i as int]) =~= held);
            },
            Err(ContractError::NotFound(mut names)) => {
                let ghost found = texts(names@);
                gone.append(&mut names);
                assert(texts(gone@) =~= held + found);
            },
            Err(_) => {
                failed = true;
                assert(here == Err::<ReferenceData, ErrorView>(ErrorView::Arithmetic));
                assert(held + missing_of(refs, bases[i as int], quotes[i as int]) =~= held);
            },
        }
        proof {
            if failed && !was_failed {
                assert(get_reference_data(refs, bases[i as int], quotes[i as int]) == Err::<
                    ReferenceData,
                    ErrorView,
                >(ErrorView::Arithmetic));
            }
        }
        i += 1;
    }
    proof {
        lemma_missing_upto(refs, bases, quotes, i as int);
        assert(bases.take(i as int) =~= bases);
        assert(quotes.take(i as int) =~= quotes);
    }
    if gone.len() > 0 {
        let names = sorted_names(&gone);
        proof {
            assert(texts(gone@)[0] == gone@[0]@);
            assert(texts(gone@).contains(gone@[0]@));
            assert(missing_in(refs, bases, quotes, gone@[0]@));
        }
        Err(ContractError::NotFound(names))
    } else {
        proof {
            assert(texts(gone@).len() == 0);
            assert forall|x: Seq<char>| !missing_in(refs, bases, quotes, x) by {
                if missing_in(refs, bases, quotes, x) {
                    assert(texts(gone@).contains(x));
                }
            }
            assert forall|j: int| 0 <= j < bases.len() && #[trigger] get_reference_data(
                refs,
                bases[j],
                quotes[j],
            ) is Err implies get_reference_data(refs, bases[j], quotes[j]) == Err::<ReferenceData, ErrorView>(
                ErrorView::Arithmetic,
            ) by {
                assert(missing_of(refs, bases[j], quotes[j]).len() == 0);
            }
        }
        if failed {
            Err(ContractError::Arithmetic)
        } else {
            Ok(rates)
        }
    }
}

} // verus!
