//! Laws of the ledger, proved of the model that its operations promise.
use vstd::prelude::*;
use crate::error::{ErrorView, Role};
use crate::model::{
    accepts, add_relayers, all_accepted, bulk_answer, execute_state, first_index, force_relay, forced,
    get_reference_data, is_owner, is_relayer, last_index, lemma_first_index, lemma_last_index,
    observation, owner_gate, relay, relay_gate, relay_gate_under, relay_under, relayed, remove_relayers,
    set_up, update_config, usd_observation,
};
use crate::msg::{ExecuteMsg, StalePolicy};
use crate::rate::{E18, E9};
use crate::state::State;
use crate::struct_types::{RefData, ReferenceData};
use crate::symbols::lemma_sorted_names_unique;

verus! {

/// One relay call of a sequence of calls on one symbol.
pub struct Call {
    pub rate: u128,
    pub resolve_time: u64,
    pub request_id: u64,
}

/// The ledger after `caller` relayed `calls`, one after the other, each for
/// `symbol` alone.
pub open spec fn relay_each(st: State, caller: Seq<char>, symbol: Seq<char>, calls: Seq<Call>) -> State
    decreases calls.len(),
{
    if calls.len() == 0 {
        st
    } else {
        relay(
            relay_each(st, caller, symbol, calls.drop_last()),
            caller,
            seq![symbol],
            seq![calls.last().rate],
            calls.last().resolve_time,
            calls.last().request_id,
        )
    }
}

/// A symbol that the ledger knows nothing of gets the same observation from
/// a relay and from a forced relay of the same batch, if the batch names it
/// once: the rate of its entry, where the batch is taken in, and none, where
/// it is refused. Forcing the batch after relaying it leaves that
/// observation as it is.
pub proof fn law_first_relay_equals_forced_relay(
    st: State,
    caller: Seq<char>,
    symbols: Seq<Seq<char>>,
    rates: Seq<u128>,
    time: u64,
    request: u64,
    i: int,
)
    requires
        0 <= i < symbols.len(),
        forall|j: int| 0 <= j < symbols.len() && j != i ==> symbols[j] != symbols[i],
        observation(st.refs, symbols[i]) is None,
    ensures
        relay(st, caller, symbols, rates, time, request).refs.dom().contains(symbols[i]) == force_relay(
            st,
            caller,
            symbols,
            rates,
            time,
            request,
        ).refs.dom().contains(symbols[i]),
        relay(st, caller, symbols, rates, time, request).refs[symbols[i]] == force_relay(
            st,
            caller,
            symbols,
            rates,
            time,
            request,
        ).refs[symbols[i]],
        force_relay(
            relay(st, caller, symbols, rates, time, request),
            caller,
            symbols,
            rates,
            time,
            request,
        ).refs[symbols[i]] == relay(st, caller, symbols, rates, time, request).refs[symbols[i]],
        relay_gate(st, caller, symbols.len(), rates) is Ok ==> relay(
            st,
            caller,
            symbols,
            rates,
            time,
            request,
        ).refs.dom().contains(symbols[i]) && relay(st, caller, symbols, rates, time, request).refs[symbols[i]]
            == (RefData { rate: rates[i], resolve_time: time, request_id: request }),
{
    lemma_first_index(symbols, symbols[i]);
    lemma_last_index(symbols, symbols[i]);
    assert(symbols.contains(symbols[i]));
}

/// Where the ledger holds nothing of a symbol, one observation relayed for
/// it alone leaves the same ledger as the same observation forced.
pub proof fn law_first_relay_of_one_symbol(
    st: State,
    caller: Seq<char>,
    symbol: Seq<char>,
    rate: u128,
    time: u64,
    request: u64,
)
    requires
        observation(st.refs, symbol) is None,
    ensures
        relay(st, caller, seq![symbol], seq![rate], time, request) == force_relay(
            st,
            caller,
            seq![symbol],
            seq![rate],
            time,
            request,
        ),
        relay_gate(st, caller, 1, seq![rate]) is Ok ==> relay(
            st,
            caller,
            seq![symbol],
            seq![rate],
            time,
            request,
        ).refs == st.refs.insert(symbol, RefData { rate, resolve_time: time, request_id: request }),
{
    let symbols = seq![symbol];
    let rates = seq![rate];
    assert forall|k: Seq<char>| symbols.contains(k) <==> k == symbol by {
        assert(symbols[0] == symbol);
    }
    lemma_first_index(symbols, symbol);
    lemma_last_index(symbols, symbol);
    let data = RefData { rate, resolve_time: time, request_id: request };
    assert(relayed(st.refs, symbols, rates, time, request) =~= st.refs.insert(symbol, data));
    assert(forced(st.refs, symbols, rates, time, request) =~= st.refs.insert(symbol, data));
}

/// After relay calls of a relayer on one symbol, with rates other than zero
/// and strictly increasing resolve times, the ledger holds the observation
/// of the last call, provided that it held nothing as late as that call
/// before.
pub proof fn law_latest_relay_wins(st: State, caller: Seq<char>, symbol: Seq<char>, calls: Seq<Call>)
    requires
        is_relayer(st, caller),
        calls.len() > 0,
        forall|i: int| 0 <= i < calls.len() ==> calls[i].rate != 0,
        forall|i: int, j: int|
            0 <= i < j < calls.len() ==> calls[i].resolve_time < calls[j].resolve_time,
        accepts(st.refs, symbol, calls.last().resolve_time),
    ensures
        relay_each(st, caller, symbol, calls).refs.dom().contains(symbol),
        relay_each(st, caller, symbol, calls).refs[symbol] == (RefData {
            rate: calls.last().rate,
            resolve_time: calls.last().resolve_time,
            request_id: calls.last().request_id,
        }),
{
    lemma_relay_each_bound(st, caller, symbol, calls.drop_last(), calls.last().resolve_time);
    let mid = relay_each(st, caller, symbol, calls.drop_last());
    let symbols = seq![symbol];
    let rates = seq![calls.last().rate];
    assert(symbols[0] == symbol);
    assert(symbols.contains(symbol));
    lemma_first_index(symbols, symbol);
    assert(is_relayer(mid, caller));
    assert(!rates.contains(0u128)) by {
        if rates.contains(0u128) {
            let j = choose|j: int| 0 <= j < rates.len() && rates[j] == 0u128;
            assert(rates[j] == calls.last().rate);
        }
    }
}

/// Relay calls on one symbol that are all resolved before `bound` leave the
/// relayers as they were and the symbol open to an observation resolved at
/// `bound`, if it was so before.
proof fn lemma_relay_each_bound(st: State, caller: Seq<char>, symbol: Seq<char>, calls: Seq<Call>, bound: u64)
    requires
        forall|i: int| 0 <= i < calls.len() ==> calls[i].resolve_time < bound,
        accepts(st.refs, symbol, bound),
    ensures
        relay_each(st, caller, symbol, calls).relayers == st.relayers,
        accepts(relay_each(st, caller, symbol, calls).refs, symbol, bound),
    decreases calls.len(),
{
    if calls.len() > 0 {
        lemma_relay_each_bound(st, caller, symbol, calls.drop_last(), bound);
        let symbols = seq![symbol];
        assert(symbols[0] == symbol);
        lemma_first_index(symbols, symbol);
    }
}

/// In one relay, an entry that is no fresher than what the ledger holds is
/// passed over, and every other symbol of the batch is still taken in: with
/// the rate of its first entry, if the ledger accepts it, and unchanged if
/// not. A failed relay changes nothing.
pub proof fn law_relay_skips_stale_entries(
    st: State,
    caller: Seq<char>,
    symbols: Seq<Seq<char>>,
    rates: Seq<u128>,
    time: u64,
    request: u64,
)
    ensures
        forall|k: Seq<char>|
            st.refs.dom().contains(k) && st.refs[k].resolve_time >= time ==> relay(
                st,
                caller,
                symbols,
                rates,
                time,
                request,
            ).refs.dom().contains(k) && #[trigger] relay(st, caller, symbols, rates, time, request).refs[k]
                == st.refs[k],
        relay_gate(st, caller, symbols.len(), rates) is Ok ==> forall|i: int|
            0 <= i < symbols.len() && accepts(st.refs, #[trigger] symbols[i], time) && (forall|j: int|
                0 <= j < i ==> symbols[j] != symbols[i]) ==> relay(
                st,
                caller,
                symbols,
                rates,
                time,
                request,
            ).refs.dom().contains(symbols[i]) && relay(st, caller, symbols, rates, time, request).refs[symbols[i]]
                == (RefData { rate: rates[i], resolve_time: time, request_id: request }),
        relay_gate(st, caller, symbols.len(), rates) is Err ==> relay(
            st,
            caller,
            symbols,
            rates,
            time,
            request,
        ) == st,
{
    if relay_gate(st, caller, symbols.len(), rates) is Ok {
        assert forall|i: int|
            0 <= i < symbols.len() && accepts(st.refs, #[trigger] symbols[i], time) && (forall|j: int|
                0 <= j < i ==> symbols[j] != symbols[i]) implies relay(
            st,
            caller,
            symbols,
            rates,
            time,
            request,
        ).refs.dom().contains(symbols[i]) && relay(st, caller, symbols, rates, time, request).refs[symbols[i]]
            == (RefData { rate: rates[i], resolve_time: time, request_id: request }) by {
            lemma_first_index(symbols, symbols[i]);
            assert(symbols.contains(symbols[i]));
        }
    }
}

/// A batch may be relayed again without harm: the second relay changes
/// nothing.
pub proof fn law_relay_again_changes_nothing(
    st: State,
    caller: Seq<char>,
    symbols: Seq<Seq<char>>,
    rates: Seq<u128>,
    time: u64,
    request: u64,
)
    ensures
        relay(relay(st, caller, symbols, rates, time, request), caller, symbols, rates, time, request)
            == relay(st, caller, symbols, rates, time, request),
{
    let once = relay(st, caller, symbols, rates, time, request);
    let twice = relay(once, caller, symbols, rates, time, request);
    if relay_gate(st, caller, symbols.len(), rates) is Ok {
        assert forall|k: Seq<char>| symbols.contains(k) implies !accepts(once.refs, k, time) by {
            if k != "USD"@ {
                assert(once.refs.dom().contains(k));
            }
        }
        assert(twice.refs =~= once.refs);
    }
}

/// The two policies differ only where some entry is no fresher than the
/// ledger: a batch that the strict policy lets through is written whole, as
/// by any relay, forced or not; one that it refuses changes nothing; and the
/// lenient policy is `relay`.
pub proof fn law_policies_agree_on_fresh_batches(
    st: State,
    caller: Seq<char>,
    symbols: Seq<Seq<char>>,
    rates: Seq<u128>,
    time: u64,
    request: u64,
)
    ensures
        relay_under(st, caller, symbols, rates, time, request, StalePolicy::Skip) == relay(
            st,
            caller,
            symbols,
            rates,
            time,
            request,
        ),
        relay_gate_under(st, caller, symbols, rates, time, StalePolicy::Skip) == relay_gate(
            st,
            caller,
            symbols.len(),
            rates,
        ),
        all_accepted(st.refs, symbols, time) ==> relay_under(
            st,
            caller,
            symbols,
            rates,
            time,
            request,
            StalePolicy::Reject,
        ) == force_relay(st, caller, symbols, rates, time, request) && relay(
            st,
            caller,
            symbols,
            rates,
            time,
            request,
        ) == force_relay(st, caller, symbols, rates, time, request),
        !all_accepted(st.refs, symbols, time) ==> relay_under(
            st,
            caller,
            symbols,
            rates,
            time,
            request,
            StalePolicy::Reject,
        ) == st,
{
    if all_accepted(st.refs, symbols, time) {
        let a = relayed(st.refs, symbols, rates, time, request);
        let b = forced(st.refs, symbols, rates, time, request);
        assert forall|k: Seq<char>| a.dom().contains(k) implies a[k] == b[k] by {
            lemma_first_index(symbols, k);
            lemma_last_index(symbols, k);
        }
        assert(a =~= b);
    }
}

/// Whether every observation holds a rate other than zero.
pub open spec fn rates_positive(refs: Map<Seq<char>, RefData>) -> bool {
    forall|k: Seq<char>| refs.dom().contains(k) ==> (#[trigger] refs[k]).rate > 0
}

/// No relay, forced or not, brings a rate of zero into the ledger.
pub proof fn law_no_zero_rate_is_stored(
    st: State,
    caller: Seq<char>,
    symbols: Seq<Seq<char>>,
    rates: Seq<u128>,
    time: u64,
    request: u64,
)
    requires
        rates_positive(st.refs),
    ensures
        rates_positive(relay(st, caller, symbols, rates, time, request).refs),
        rates_positive(force_relay(st, caller, symbols, rates, time, request).refs),
{
    if relay_gate(st, caller, symbols.len(), rates) is Ok {
        let a = relay(st, caller, symbols, rates, time, request).refs;
        let b = force_relay(st, caller, symbols, rates, time, request).refs;
        assert forall|k: Seq<char>| a.dom().contains(k) implies (#[trigger] a[k]).rate > 0 by {
            lemma_first_index(symbols, k);
            if symbols.contains(k) && accepts(st.refs, k, time) {
                assert(rates[first_index(symbols, k)] != 0u128);
            }
        }
        assert forall|k: Seq<char>| b.dom().contains(k) implies (#[trigger] b[k]).rate > 0 by {
            lemma_last_index(symbols, k);
            if symbols.contains(k) {
                assert(rates[last_index(symbols, k)] != 0u128);
            }
        }
    }
}

/// In a ledger without a rate of zero, a cross rate of two known symbols
/// fails only where it does not fit in 128 bits.
pub proof fn law_arithmetic_failure_is_overflow(
    refs: Map<Seq<char>, RefData>,
    base: Seq<char>,
    quote: Seq<char>,
)
    requires
        rates_positive(refs),
        get_reference_data(refs, base, quote) == Err::<ReferenceData, ErrorView>(ErrorView::Arithmetic),
    ensures
        observation(refs, base) is Some,
        observation(refs, quote) is Some,
        observation(refs, base)->0.rate * E18 / (observation(refs, quote)->0.rate as int) > u128::MAX,
{
    assert(usd_observation().rate > 0);
}

/// No relay, forced or not, stores anything for `USD`.
pub proof fn law_usd_is_never_stored(
    st: State,
    caller: Seq<char>,
    symbols: Seq<Seq<char>>,
    rates: Seq<u128>,
    time: u64,
    request: u64,
)
    requires
        !st.refs.dom().contains("USD"@),
    ensures
        !relay(st, caller, symbols, rates, time, request).refs.dom().contains("USD"@),
        !force_relay(st, caller, symbols, rates, time, request).refs.dom().contains("USD"@),
{
}

/// A relay, forced or not, forgets no symbol, and a relay that is not forced
/// never replaces an observation by one resolved earlier or at the same
/// time.
pub proof fn law_observations_stay(
    st: State,
    caller: Seq<char>,
    symbols: Seq<Seq<char>>,
    rates: Seq<u128>,
    time: u64,
    request: u64,
    k: Seq<char>,
)
    requires
        st.refs.dom().contains(k),
    ensures
        relay(st, caller, symbols, rates, time, request).refs.dom().contains(k),
        force_relay(st, caller, symbols, rates, time, request).refs.dom().contains(k),
        relay(st, caller, symbols, rates, time, request).refs[k] == st.refs[k] || relay(
            st,
            caller,
            symbols,
            rates,
            time,
            request,
        ).refs[k].resolve_time > st.refs[k].resolve_time,
{
}

/// The rate of a symbol in units of itself is `10^18`, the unit rate at the
/// scale of cross rates, whatever its own rate, as long as that is not zero.
pub proof fn law_cross_rate_with_itself(refs: Map<Seq<char>, RefData>, symbol: Seq<char>)
    requires
        observation(refs, symbol) matches Some(data) && data.rate > 0,
    ensures
        get_reference_data(refs, symbol, symbol) == Ok::<ReferenceData, ErrorView>(
            ReferenceData {
                rate: E18,
                last_updated_base: observation(refs, symbol)->0.resolve_time,
                last_updated_quote: observation(refs, symbol)->0.resolve_time,
            },
        ),
{
    let rate = observation(refs, symbol)->0.rate as int;
    let unit = E18 as int;
    assert(rate * unit / rate == unit) by (nonlinear_arith)
        requires
            rate > 0,
    ;
}

/// The rate of `USD` in `USD` is the scale times the scale, in every ledger,
/// and it is as fresh as can be on both sides.
pub proof fn law_usd_in_usd(refs: Map<Seq<char>, RefData>)
    ensures
        get_reference_data(refs, "USD"@, "USD"@) == Ok::<ReferenceData, ErrorView>(
            ReferenceData { rate: E18, last_updated_base: u64::MAX, last_updated_quote: u64::MAX },
        ),
        E18 == E9 * E9,
{
    assert(observation(refs, "USD"@) == Some(usd_observation()));
    law_cross_rate_with_itself(refs, "USD"@);
    assert(E9 * E9 == E18) by (nonlinear_arith)
        requires
            E9 == 1_000_000_000,
            E18 == 1_000_000_000_000_000_000,
    ;
}

/// Once the owner has dismissed a relayer, that identity can relay no more,
/// forced or not, and its attempts change nothing; the dismissal itself
/// leaves every observation as it was.
pub proof fn law_dismissed_relayer_is_refused(
    st: State,
    owner: Seq<char>,
    ids: Seq<Seq<char>>,
    relayer: Seq<char>,
    symbols: Seq<Seq<char>>,
    rates: Seq<u128>,
    time: u64,
    request: u64,
)
    requires
        is_owner(st, owner),
        ids.contains(relayer),
    ensures
        remove_relayers(st, owner, ids).refs == st.refs,
        !is_relayer(remove_relayers(st, owner, ids), relayer),
        relay_gate(remove_relayers(st, owner, ids), relayer, symbols.len(), rates) == Err::<
            (),
            ErrorView,
        >(ErrorView::Unauthorized(Role::Relayer)),
        relay(remove_relayers(st, owner, ids), relayer, symbols, rates, time, request) == remove_relayers(
            st,
            owner,
            ids,
        ),
        force_relay(remove_relayers(st, owner, ids), relayer, symbols, rates, time, request)
            == remove_relayers(st, owner, ids),
{
}

/// Once the owner has admitted a relayer, that identity is heard: a relay of
/// its own, forced or not, fails only for what it submits.
pub proof fn law_admitted_relayer_is_heard(
    st: State,
    owner: Seq<char>,
    ids: Seq<Seq<char>>,
    relayer: Seq<char>,
    symbols: Seq<Seq<char>>,
    rates: Seq<u128>,
)
    requires
        is_owner(st, owner),
        ids.contains(relayer),
    ensures
        is_relayer(add_relayers(st, owner, ids), relayer),
        add_relayers(st, owner, ids).refs == st.refs,
        symbols.len() == rates.len() && !rates.contains(0u128) ==> relay_gate(
            add_relayers(st, owner, ids),
            relayer,
            symbols.len(),
            rates,
        ) is Ok,
{
}

/// Whoever is not the owner can neither admit nor dismiss relayers, nor hand
/// the ledger on: the attempt is refused and changes nothing.
pub proof fn law_only_the_owner_manages(
    st: State,
    caller: Seq<char>,
    ids: Seq<Seq<char>>,
    new_owner: Seq<char>,
)
    requires
        !is_owner(st, caller),
    ensures
        owner_gate(st, caller) == Err::<(), ErrorView>(ErrorView::Unauthorized(Role::Owner)),
        add_relayers(st, caller, ids) == st,
        remove_relayers(st, caller, ids) == st,
        update_config(st, caller, new_owner) == st,
{
}

/// The owner of a ledger that has one changes in one way only: the owner
/// hands the ledger on. No other request changes it, whoever makes it, and
/// setting the ledger up again does not either.
pub proof fn law_owner_changes_by_handover_only(st: State, caller: Seq<char>, msg: ExecuteMsg)
    requires
        st.owner is Some,
    ensures
        set_up(st, caller).owner == st.owner,
        execute_state(st, caller, msg).owner != st.owner ==> is_owner(st, caller)
            && msg is UpdateConfig,
        execute_state(st, caller, msg).owner is Some,
{
}

/// Admitting and dismissing relayers is idempotent, and neither touches the
/// owner or the observations.
pub proof fn law_relayer_management_is_idempotent(st: State, caller: Seq<char>, ids: Seq<Seq<char>>)
    ensures
        add_relayers(add_relayers(st, caller, ids), caller, ids) == add_relayers(st, caller, ids),
        remove_relayers(remove_relayers(st, caller, ids), caller, ids) == remove_relayers(st, caller, ids),
        add_relayers(st, caller, ids).owner == st.owner,
        add_relayers(st, caller, ids).refs == st.refs,
        remove_relayers(st, caller, ids).owner == st.owner,
        remove_relayers(st, caller, ids).refs == st.refs,
{
    let once = add_relayers(st, caller, ids);
    assert(add_relayers(once, caller, ids).relayers =~= once.relayers);
    let gone = remove_relayers(st, caller, ids);
    assert(remove_relayers(gone, caller, ids).relayers =~= gone.relayers);
}

/// A bulk query has one answer: `bulk_answer` holds of no two.
pub proof fn law_bulk_answer_is_unique(
    refs: Map<Seq<char>, RefData>,
    bases: Seq<Seq<char>>,
    quotes: Seq<Seq<char>>,
    first: Result<Seq<ReferenceData>, ErrorView>,
    second: Result<Seq<ReferenceData>, ErrorView>,
)
    requires
        bulk_answer(refs, bases, quotes, first),
        bulk_answer(refs, bases, quotes, second),
    ensures
        first == second,
{
    match (first, second) {
        (Err(ErrorView::NotFound(a)), Err(ErrorView::NotFound(b))) => {
            lemma_sorted_names_unique(a, b);
        },
        (Ok(a), Ok(b)) => {
            assert(a =~= b);
        },
        _ => {},
    }
}

} // verus!
