//! The ledger as mathematics: what each operation makes of a `State`.
//!
//! The executable operations promise exactly these functions; the laws of the
//! ledger are proved of them.
use vstd::prelude::*;
use crate::error::{ContractError, ErrorView, Role};
use crate::msg::{ExecuteMsg, QueryMsg, QueryResponse, StalePolicy};
use crate::rate::{cross_rate_outcome, E9};
use crate::state::State;
use crate::struct_types::{RefData, ReferenceData};
use crate::symbols::{lemma_take_contains, strictly_sorted, texts};

verus! {

// ---------------------------------------------------------------- access

/// Whether `caller` is the owner of the ledger.
pub open spec fn is_owner(st: State, caller: Seq<char>) -> bool {
    st.owner == Some(caller)
}

/// Whether `caller` may submit observations.
pub open spec fn is_relayer(st: State, caller: Seq<char>) -> bool {
    st.relayers.contains(caller)
}

/// What an operation reserved to the owner answers to `caller`.
pub open spec fn owner_gate(st: State, caller: Seq<char>) -> Result<(), ErrorView> {
    if is_owner(st, caller) {
        Ok(())
    } else {
        Err(ErrorView::Unauthorized(Role::Owner))
    }
}

/// What the ledger answers to `caller` who asks to set it up: a ledger
/// without an owner can be set up by anybody, and one with an owner only by
/// that owner, to whom nothing changes.
pub open spec fn set_up_gate(st: State, caller: Seq<char>) -> Result<(), ErrorView> {
    if st.owner is None {
        Ok(())
    } else {
        owner_gate(st, caller)
    }
}

/// The ledger after `caller` asked to set it up.
pub open spec fn set_up(st: State, caller: Seq<char>) -> State {
    if st.owner is None {
        State { owner: Some(caller), ..st }
    } else {
        st
    }
}

/// The ledger after `caller` asked to hand it to `new_owner`.
pub open spec fn update_config(st: State, caller: Seq<char>, new_owner: Seq<char>) -> State {
    if is_owner(st, caller) {
        State { owner: Some(new_owner), ..st }
    } else {
        st
    }
}

/// The ledger after `caller` asked to admit `ids` as relayers.
pub open spec fn add_relayers(st: State, caller: Seq<char>, ids: Seq<Seq<char>>) -> State {
    if is_owner(st, caller) {
        State { relayers: Set::new(|x: Seq<char>| st.relayers.contains(x) || ids.contains(x)), ..st }
    } else {
        st
    }
}

/// The ledger after `caller` asked to dismiss `ids` as relayers.
pub open spec fn remove_relayers(st: State, caller: Seq<char>, ids: Seq<Seq<char>>) -> State {
    if is_owner(st, caller) {
        State { relayers: Set::new(|x: Seq<char>| st.relayers.contains(x) && !ids.contains(x)), ..st }
    } else {
        st
    }
}

// ---------------------------------------------------------------- relay

/// Whether the ledger takes an observation of `symbol` resolved at `time`:
/// it has none of that symbol, or an older one. It never takes one of `USD`,
/// whose own observation is as fresh as can be.
pub open spec fn accepts(refs: Map<Seq<char>, RefData>, symbol: Seq<char>, time: u64) -> bool {
    match observation(refs, symbol) {
        Some(held) => held.resolve_time < time,
        None => true,
    }
}

/// The least index at which `symbols` holds `k`, or `-1`.
pub open spec fn first_index(symbols: Seq<Seq<char>>, k: Seq<char>) -> int
    decreases symbols.len(),
{
    if symbols.len() == 0 {
        -1
    } else {
        let before = first_index(symbols.drop_last(), k);
        if before >= 0 {
            before
        } else if symbols.last() == k {
            symbols.len() - 1
        } else {
            -1
        }
    }
}

/// The greatest index at which `symbols` holds `k`, or `-1`.
pub open spec fn last_index(symbols: Seq<Seq<char>>, k: Seq<char>) -> int
    decreases symbols.len(),
{
    if symbols.len() == 0 {
        -1
    } else if symbols.last() == k {
        symbols.len() - 1
    } else {
        last_index(symbols.drop_last(), k)
    }
}

/// The observations after a relay of `symbols` with `rates`.
///
/// A symbol of the batch that the ledger accepts at `time` gets the rate of
/// its first entry in the batch; every other symbol keeps what it had. So
/// nothing is stored for `USD`.
pub open spec fn relayed(
    refs: Map<Seq<char>, RefData>,
    symbols: Seq<Seq<char>>,
    rates: Seq<u128>,
    time: u64,
    request: u64,
) -> Map<Seq<char>, RefData> {
    Map::new(
        |k: Seq<char>| refs.dom().contains(k) || (symbols.contains(k) && accepts(refs, k, time)),
        |k: Seq<char>|
            if symbols.contains(k) && accepts(refs, k, time) {
                RefData { rate: rates[first_index(symbols, k)], resolve_time: time, request_id: request }
            } else {
                refs[k]
            },
    )
}

/// The observations after a forced relay of `symbols` with `rates`.
///
/// A symbol of the batch other than `USD` gets the rate of its last entry in
/// the batch; every other symbol keeps what it had. So nothing is stored for
/// `USD`.
pub open spec fn forced(
    refs: Map<Seq<char>, RefData>,
    symbols: Seq<Seq<char>>,
    rates: Seq<u128>,
    time: u64,
    request: u64,
) -> Map<Seq<char>, RefData> {
    Map::new(
        |k: Seq<char>| refs.dom().contains(k) || (symbols.contains(k) && k != "USD"@),
        |k: Seq<char>|
            if symbols.contains(k) && k != "USD"@ {
                RefData { rate: rates[last_index(symbols, k)], resolve_time: time, request_id: request }
            } else {
                refs[k]
            },
    )
}

/// The observations after one entry of a forced relay was written.
pub open spec fn force_one(
    refs: Map<Seq<char>, RefData>,
    symbol: Seq<char>,
    rate: u128,
    time: u64,
    request: u64,
) -> Map<Seq<char>, RefData> {
    if symbol == "USD"@ {
        refs
    } else {
        refs.insert(symbol, RefData { rate, resolve_time: time, request_id: request })
    }
}

/// The observations after one entry of a relay was taken in.
pub open spec fn relay_one(
    refs: Map<Seq<char>, RefData>,
    symbol: Seq<char>,
    rate: u128,
    time: u64,
    request: u64,
) -> Map<Seq<char>, RefData> {
    if accepts(refs, symbol, time) {
        refs.insert(symbol, RefData { rate, resolve_time: time, request_id: request })
    } else {
        refs
    }
}

/// `first_index` is `-1` where `k` does not occur, and else the index of its
/// first occurrence.
pub proof fn lemma_first_index(symbols: Seq<Seq<char>>, k: Seq<char>)
    ensures
        symbols.contains(k) <==> first_index(symbols, k) >= 0,
        -1 <= first_index(symbols, k) < symbols.len(),
        first_index(symbols, k) >= 0 ==> symbols[first_index(symbols, k)] == k,
        forall|j: int| 0 <= j < first_index(symbols, k) ==> symbols[j] != k,
    decreases symbols.len(),
{
    if symbols.len() > 0 {
        let front = symbols.drop_last();
        lemma_first_index(front, k);
        if front.contains(k) {
            let j = choose|j: int| 0 <= j < front.len() && front[j] == k;
            assert(symbols[j] == k);
        }
        if symbols.contains(k) && !front.contains(k) {
            let j = choose|j: int| 0 <= j < symbols.len() && symbols[j] == k;
            if j < front.len() {
                assert(front[j] == k);
            }
        }
        if first_index(front, k) >= 0 {
            assert(front[first_index(front, k)] == symbols[first_index(front, k)]);
        } else {
            assert forall|j: int| 0 <= j < symbols.len() - 1 implies symbols[j] != k by {
                if symbols[j] == k {
                    assert(front[j] == k);
                }
            }
        }
        assert forall|j: int| 0 <= j < first_index(symbols, k) implies symbols[j] != k by {
            if symbols[j] == k {
                assert(front[j] == k);
            }
        }
    }
}

/// `last_index` is `-1` where `k` does not occur, and else the index of its
/// last occurrence.
pub proof fn lemma_last_index(symbols: Seq<Seq<char>>, k: Seq<char>)
    ensures
        symbols.contains(k) <==> last_index(symbols, k) >= 0,
        -1 <= last_index(symbols, k) < symbols.len(),
        last_index(symbols, k) >= 0 ==> symbols[last_index(symbols, k)] == k,
        forall|j: int| last_index(symbols, k) < j < symbols.len() ==> symbols[j] != k,
    decreases symbols.len(),
{
    if symbols.len() > 0 {
        let front = symbols.drop_last();
        lemma_last_index(front, k);
        if symbols.last() == k {
            assert(symbols[symbols.len() - 1] == k);
        } else {
            if front.contains(k) {
                let j = choose|j: int| 0 <= j < front.len() && front[j] == k;
                assert(symbols[j] == k);
            }
            if symbols.contains(k) {
                let j = choose|j: int| 0 <= j < symbols.len() && symbols[j] == k;
                assert(front[j] == k);
            }
            if last_index(front, k) >= 0 {
                assert(front[last_index(front, k)] == symbols[last_index(front, k)]);
            }
            assert forall|j: int| last_index(symbols, k) < j < symbols.len() implies symbols[j] != k by {
                if j < symbols.len() - 1 && symbols[j] == k {
                    assert(front[j] == k);
                }
            }
        }
    }
}

/// Relaying one entry more is taking that entry into what the entries before
/// it left.
pub proof fn lemma_relayed_step(
    refs: Map<Seq<char>, RefData>,
    symbols: Seq<Seq<char>>,
    rates: Seq<u128>,
    time: u64,
    request: u64,
    i: int,
)
    requires
        0 <= i < symbols.len(),
    ensures
        relayed(refs, symbols.take(i + 1), rates, time, request) == relay_one(
            relayed(refs, symbols.take(i), rates, time, request),
            symbols[i],
            rates[i],
            time,
            request,
        ),
{
    let done = symbols.take(i);
    let next = symbols.take(i + 1);
    let left = relayed(refs, done, rates, time, request);
    let right = relayed(refs, next, rates, time, request);
    let step = relay_one(left, symbols[i], rates[i], time, request);
    assert(next.drop_last() =~= done);
    assert(next.last() == symbols[i]);
    assert forall|k: Seq<char>| right.dom().contains(k) <==> step.dom().contains(k) by {
        lemma_first_index(done, k);
        lemma_first_index(next, k);
        lemma_first_index(done, symbols[i]);
    }
    assert forall|k: Seq<char>| right.dom().contains(k) implies right[k] == step[k] by {
        lemma_first_index(done, k);
        lemma_first_index(next, k);
        lemma_first_index(done, symbols[i]);
    }
    assert(right =~= step);
}

/// Forcing one entry more is writing that entry over what the entries before
/// it left.
pub proof fn lemma_forced_step(
    refs: Map<Seq<char>, RefData>,
    symbols: Seq<Seq<char>>,
    rates: Seq<u128>,
    time: u64,
    request: u64,
    i: int,
)
    requires
        0 <= i < symbols.len(),
    ensures
        forced(refs, symbols.take(i + 1), rates, time, request) == force_one(
            forced(refs, symbols.take(i), rates, time, request),
            symbols[i],
            rates[i],
            time,
            request,
        ),
{
    let done = symbols.take(i);
    let next = symbols.take(i + 1);
    let left = forced(refs, done, rates, time, request);
    let right = forced(refs, next, rates, time, request);
    let step = force_one(left, symbols[i], rates[i], time, request);
    assert(next.drop_last() =~= done);
    assert(next.last() == symbols[i]);
    assert forall|k: Seq<char>| right.dom().contains(k) <==> step.dom().contains(k) by {
        lemma_last_index(done, k);
        lemma_last_index(next, k);
    }
    assert forall|k: Seq<char>| right.dom().contains(k) implies right[k] == step[k] by {
        lemma_last_index(done, k);
        lemma_last_index(next, k);
    }
    assert(right =~= step);
}

/// A relay of no entries changes nothing.
pub proof fn lemma_relayed_none(refs: Map<Seq<char>, RefData>, rates: Seq<u128>, time: u64, request: u64)
    ensures
        relayed(refs, Seq::empty(), rates, time, request) == refs,
        forced(refs, Seq::empty(), rates, time, request) == refs,
{
    assert(relayed(refs, Seq::empty(), rates, time, request) =~= refs);
    assert(forced(refs, Seq::empty(), rates, time, request) =~= refs);
}

/// What a relay, forced or not, answers to `caller` who submits `symbols`
/// symbols with `rates`: only a relayer is heard, the two lists must be of
/// one length, and no rate may be zero.
pub open spec fn relay_gate(st: State, caller: Seq<char>, symbols: nat, rates: Seq<u128>) -> Result<
    (),
    ErrorView,
> {
    if !is_relayer(st, caller) {
        Err(ErrorView::Unauthorized(Role::Relayer))
    } else if symbols != rates.len() {
        Err(ErrorView::SizeMismatch)
    } else if rates.contains(0u128) {
        Err(ErrorView::InvalidRate)
    } else {
        Ok(())
    }
}

/// The ledger after `caller` asked to relay.
pub open spec fn relay(
    st: State,
    caller: Seq<char>,
    symbols: Seq<Seq<char>>,
    rates: Seq<u128>,
    time: u64,
    request: u64,
) -> State {
    if relay_gate(st, caller, symbols.len(), rates) is Ok {
        State { refs: relayed(st.refs, symbols, rates, time, request), ..st }
    } else {
        st
    }
}

/// The ledger after `caller` asked to relay by force.
pub open spec fn force_relay(
    st: State,
    caller: Seq<char>,
    symbols: Seq<Seq<char>>,
    rates: Seq<u128>,
    time: u64,
    request: u64,
) -> State {
    if relay_gate(st, caller, symbols.len(), rates) is Ok {
        State { refs: forced(st.refs, symbols, rates, time, request), ..st }
    } else {
        st
    }
}

/// Whether the ledger accepts every entry of a batch resolved at `time`, one
/// after the other: it accepts each symbol, and the batch names none twice.
pub open spec fn all_accepted(refs: Map<Seq<char>, RefData>, symbols: Seq<Seq<char>>, time: u64) -> bool {
    &&& forall|i: int| 0 <= i < symbols.len() ==> accepts(refs, #[trigger] symbols[i], time)
    &&& forall|i: int, j: int| 0 <= i < j < symbols.len() ==> #[trigger] symbols[i] != #[trigger] symbols[j]
}

/// What a relay under `policy` answers to `caller`.
pub open spec fn relay_gate_under(
    st: State,
    caller: Seq<char>,
    symbols: Seq<Seq<char>>,
    rates: Seq<u128>,
    time: u64,
    policy: StalePolicy,
) -> Result<(), ErrorView> {
    if relay_gate(st, caller, symbols.len(), rates) is Err {
        relay_gate(st, caller, symbols.len(), rates)
    } else if policy == StalePolicy::Reject && !all_accepted(st.refs, symbols, time) {
        Err(ErrorView::InvalidResolveTime)
    } else {
        Ok(())
    }
}

/// The ledger after `caller` asked to relay under `policy`.
pub open spec fn relay_under(
    st: State,
    caller: Seq<char>,
    symbols: Seq<Seq<char>>,
    rates: Seq<u128>,
    time: u64,
    request: u64,
    policy: StalePolicy,
) -> State {
    if relay_gate_under(st, caller, symbols, rates, time, policy) is Ok {
        State { refs: relayed(st.refs, symbols, rates, time, request), ..st }
    } else {
        st
    }
}

// ---------------------------------------------------------------- queries

/// The observation that stands for `USD`: the unit rate, as fresh as can be.
pub open spec fn usd_observation() -> RefData {
    RefData { rate: E9, resolve_time: u64::MAX, request_id: 0 }
}

/// The observation of `symbol`, if there is one. `USD` is never looked up.
pub open spec fn observation(refs: Map<Seq<char>, RefData>, symbol: Seq<char>) -> Option<RefData> {
    if symbol == "USD"@ {
        Some(usd_observation())
    } else if refs.dom().contains(symbol) {
        Some(refs[symbol])
    } else {
        None
    }
}

/// What the ledger answers when asked for the observation of `symbol`.
pub open spec fn get_ref(refs: Map<Seq<char>, RefData>, symbol: Seq<char>) -> Result<RefData, ErrorView> {
    match observation(refs, symbol) {
        Some(data) => Ok(data),
        None => Err(ErrorView::NotFound(seq![symbol])),
    }
}

/// Those of `base` and `quote`, in this order, that have no observation.
pub open spec fn missing_of(refs: Map<Seq<char>, RefData>, base: Seq<char>, quote: Seq<char>) -> Seq<
    Seq<char>,
> {
    let b = if observation(refs, base) is None {
        seq![base]
    } else {
        Seq::empty()
    };
    let q = if observation(refs, quote) is None {
        seq![quote]
    } else {
        Seq::empty()
    };
    b + q
}

/// What the ledger answers when asked for the rate of `base` in `quote`.
pub open spec fn get_reference_data(
    refs: Map<Seq<char>, RefData>,
    base: Seq<char>,
    quote: Seq<char>,
) -> Result<ReferenceData, ErrorView> {
    if missing_of(refs, base, quote).len() > 0 {
        Err(ErrorView::NotFound(missing_of(refs, base, quote)))
    } else {
        cross_rate_outcome(observation(refs, base)->0, observation(refs, quote)->0)
    }
}

/// Whether `x` is a symbol of some pair and has no observation.
pub open spec fn missing_in(
    refs: Map<Seq<char>, RefData>,
    bases: Seq<Seq<char>>,
    quotes: Seq<Seq<char>>,
    x: Seq<char>,
) -> bool {
    observation(refs, x) is None && (bases.contains(x) || quotes.contains(x))
}

/// Whether `answer` is what the ledger answers when asked for the rates of
/// the pairs `bases[i]` in `quotes[i]`.
///
/// Lists of different lengths are refused. Where symbols are missing, the
/// answer names each of them once, in sorted order, whatever else fails.
/// Where none is missing but a rate cannot be computed, the answer says so.
/// Otherwise it holds the rate of each pair, in the order of the pairs.
pub open spec fn bulk_answer(
    refs: Map<Seq<char>, RefData>,
    bases: Seq<Seq<char>>,
    quotes: Seq<Seq<char>>,
    answer: Result<Seq<ReferenceData>, ErrorView>,
) -> bool {
    if bases.len() != quotes.len() {
        answer == Err::<Seq<ReferenceData>, ErrorView>(ErrorView::SizeMismatch)
    } else if exists|x: Seq<char>| missing_in(refs, bases, quotes, x) {
        &&& answer matches Err(ErrorView::NotFound(names))
        &&& strictly_sorted(names)
        &&& forall|x: Seq<char>| names.contains(x) <==> missing_in(refs, bases, quotes, x)
    } else if exists|i: int| 0 <= i < bases.len() && #[trigger] get_reference_data(refs, bases[i], quotes[i]) is Err {
        answer == Err::<Seq<ReferenceData>, ErrorView>(ErrorView::Arithmetic)
    } else {
        &&& answer matches Ok(rates)
        &&& rates.len() == bases.len()
        &&& forall|i: int|
            0 <= i < bases.len() ==> get_reference_data(refs, bases[i], quotes[i]) == Ok::<ReferenceData, ErrorView>(
                #[trigger] rates[i],
            )
    }
}

/// The symbols without observation of the first `n` pairs, pair by pair,
/// base before quote.
pub open spec fn missing_upto(
    refs: Map<Seq<char>, RefData>,
    bases: Seq<Seq<char>>,
    quotes: Seq<Seq<char>>,
    n: int,
) -> Seq<Seq<char>>
    decreases n,
{
    if n <= 0 {
        Seq::empty()
    } else {
        missing_upto(refs, bases, quotes, n - 1) + missing_of(refs, bases[n - 1], quotes[n - 1])
    }
}

/// `missing_upto` holds the symbols of the first `n` pairs that have no
/// observation, and is empty only where each of those pairs has both.
pub proof fn lemma_missing_upto(
    refs: Map<Seq<char>, RefData>,
    bases: Seq<Seq<char>>,
    quotes: Seq<Seq<char>>,
    n: int,
)
    requires
        0 <= n <= bases.len(),
        bases.len() == quotes.len(),
    ensures
        forall|x: Seq<char>|
            missing_upto(refs, bases, quotes, n).contains(x) <==> missing_in(
                refs,
                bases.take(n),
                quotes.take(n),
                x,
            ),
        missing_upto(refs, bases, quotes, n).len() == 0 ==> forall|j: int|
            0 <= j < n ==> (#[trigger] missing_of(refs, bases[j], quotes[j])).len() == 0,
    decreases n,
{
    let all = missing_upto(refs, bases, quotes, n);
    if n > 0 {
        lemma_missing_upto(refs, bases, quotes, n - 1);
        lemma_take_contains(bases, n - 1);
        lemma_take_contains(quotes, n - 1);
        let front = missing_upto(refs, bases, quotes, n - 1);
        let here = missing_of(refs, bases[n - 1], quotes[n - 1]);
        assert(all == front + here);
        assert forall|x: Seq<char>| all.contains(x) <==> missing_in(
            refs,
            bases.take(n),
            quotes.take(n),
            x,
        ) by {
            assert(bases.take(n).contains(x) <==> (bases.take(n - 1).contains(x) || x == bases[n - 1]));
            assert(quotes.take(n).contains(x) <==> (quotes.take(n - 1).contains(x) || x == quotes[n - 1]));
            assert(front.contains(x) <==> missing_in(refs, bases.take(n - 1), quotes.take(n - 1), x));
            if all.contains(x) {
                let i = choose|i: int| 0 <= i < all.len() && all[i] == x;
                if i < front.len() {
                    assert(front[i] == x);
                    assert(front.contains(x));
                } else {
                    assert(here[i - front.len()] == x);
                }
            }
            if missing_in(refs, bases.take(n), quotes.take(n), x) {
                if missing_in(refs, bases.take(n - 1), quotes.take(n - 1), x) {
                    assert(front.contains(x));
                    let i = choose|i: int| 0 <= i < front.len() && front[i] == x;
                    assert(all[i] == x);
                } else {
                    if bases[n - 1] == x {
                        assert(here[0] == x);
                        assert(all[front.len() as int] == x);
                    } else {
                        assert(here[here.len() - 1] == x);
                        assert(all[all.len() - 1] == x);
                    }
                }
            }
        }
    } else {
        assert(bases.take(n) =~= Seq::<Seq<char>>::empty());
        assert(quotes.take(n) =~= Seq::<Seq<char>>::empty());
    }
}

// ---------------------------------------------------------------- requests

/// What the ledger answers to the write `msg` of `sender`.
pub open spec fn execute_answer(st: State, sender: Seq<char>, msg: ExecuteMsg) -> Result<(), ErrorView> {
    match msg {
        ExecuteMsg::UpdateConfig { .. } => owner_gate(st, sender),
        ExecuteMsg::AddRelayers { .. } => owner_gate(st, sender),
        ExecuteMsg::RemoveRelayers { .. } => owner_gate(st, sender),
        ExecuteMsg::Relay { symbols, rates, .. } => relay_gate(st, sender, symbols@.len(), rates@),
        ExecuteMsg::ForceRelay { symbols, rates, .. } => relay_gate(st, sender, symbols@.len(), rates@),
    }
}

/// The ledger after the write `msg` of `sender`.
pub open spec fn execute_state(st: State, sender: Seq<char>, msg: ExecuteMsg) -> State {
    match msg {
        ExecuteMsg::UpdateConfig { new_owner } => update_config(st, sender, new_owner@),
        ExecuteMsg::AddRelayers { relayers } => add_relayers(st, sender, texts(relayers@)),
        ExecuteMsg::RemoveRelayers { relayers } => remove_relayers(st, sender, texts(relayers@)),
        ExecuteMsg::Relay { symbols, rates, resolve_time, request_id } => relay(
            st,
            sender,
            texts(symbols@),
            rates@,
            resolve_time,
            request_id,
        ),
        ExecuteMsg::ForceRelay { symbols, rates, resolve_time, request_id } => force_relay(
            st,
            sender,
            texts(symbols@),
            rates@,
            resolve_time,
            request_id,
        ),
    }
}

/// Whether `r` is what the ledger answers to the read `msg`: the answer of
/// the operation that `msg` names, in the form of `QueryResponse` that
/// belongs to it.
pub open spec fn query_answer(st: State, msg: QueryMsg, r: Result<QueryResponse, ContractError>) -> bool {
    match msg {
        QueryMsg::Config {  } => match st.owner {
            Some(owner) => r matches Ok(QueryResponse::Config(config)) && config.owner@ == owner,
            None => r matches Err(e) && e@ == ErrorView::NotInitialized,
        },
        QueryMsg::IsRelayer { relayer } => r matches Ok(QueryResponse::IsRelayer(b)) && b == is_relayer(
            st,
            relayer@,
        ),
        QueryMsg::GetRef { symbol } => match r {
            Ok(QueryResponse::Ref(data)) => get_ref(st.refs, symbol@) == Ok::<RefData, ErrorView>(data),
            Err(e) => get_ref(st.refs, symbol@) == Err::<RefData, ErrorView>(e@),
            _ => false,
        },
        QueryMsg::GetReferenceData { base_symbol, quote_symbol } => match r {
            Ok(QueryResponse::ReferenceData(data)) => get_reference_data(
                st.refs,
                base_symbol@,
                quote_symbol@,
            ) == Ok::<ReferenceData, ErrorView>(data),
            Err(e) => get_reference_data(st.refs, base_symbol@, quote_symbol@) == Err::<
                ReferenceData,
                ErrorView,
            >(e@),
            _ => false,
        },
        QueryMsg::GetReferenceDataBulk { base_symbols, quote_symbols } => match r {
            Ok(QueryResponse::ReferenceDataBulk(rates)) => bulk_answer(
                st.refs,
                texts(base_symbols@),
                texts(quote_symbols@),
                Ok(rates@),
            ),
            Err(e) => bulk_answer(st.refs, texts(base_symbols@), texts(quote_symbols@), Err(e@)),
            _ => false,
        },
    }
}

} // verus!
