//! The handle on the key-value storage that holds a ledger, and what the
//! storage is taken to do.
//!
//! Nothing in this file is proved. The storage is a `cosmwasm_std::Storage`
//! and is reached through `cw_storage_plus`, under three keys: the item
//! `config`, and the maps `relayers` and `refdata`. Each function below makes
//! one call into `cw_storage_plus`, and its contract says what that call does
//! to what the storage holds. The rest of the library is proved from these
//! contracts alone.
//!
//! The contracts are those of a storage that gives back under a key what was
//! last set under it, until the key is removed, and that takes any value but
//! the empty one: what `cosmwasm_std::MemoryStorage` does. The values written
//! here are JSON texts and never empty. Writing a string, a `bool` or a list
//! of a decimal string and two numbers as JSON has no way to fail, so the
//! result of a `save` is unwrapped.
//!
//! The keys are built by `cw_storage_plus`. The item stands under the bytes
//! of `config`. An entry of a map stands under two bytes that give the length
//! of the map's name, the name, and the bytes of the entry's key. So the keys
//! of `relayers` begin with `0, 8`, those of `refdata` with `0, 7`, and
//! `config` with neither; and two keys of one map are equal only where the
//! texts they were made from are.
use vstd::prelude::*;
use crate::struct_types::RefData;

verus! {

/// `cosmwasm_std::StdError`, which the loading calls of `cw_storage_plus`
/// return. The library reads nothing from it.
#[verifier::external_type_specification]
#[verifier::external_body]
pub struct ExStdError(cosmwasm_std::StdError);

/// A handle on the storage that holds one ledger.
///
/// Verus cannot be told of `dyn Storage`, so the reference is kept out of its
/// sight; what the storage holds is spoken of through `stored_owner`,
/// `stored_relayers` and `stored_refs`.
#[verifier::external_body]
pub struct Store<'a> {
    inner: &'a mut dyn cosmwasm_std::Storage,
}

/// The owner that the item `config` holds: `None` where the key is vacant or
/// its bytes are no JSON string.
pub uninterp spec fn stored_owner(s: Store) -> Option<Seq<char>>;

/// The identities that have an entry in the map `relayers`.
pub uninterp spec fn stored_relayers(s: Store) -> Set<Seq<char>>;

/// The observations in the map `refdata`, by symbol. A symbol whose bytes are
/// no JSON triple of a decimal string and two numbers has no observation.
pub uninterp spec fn stored_refs(s: Store) -> Map<Seq<char>, RefData>;

/// What a ledger is, as far as its operations can tell.
pub struct State {
    pub owner: Option<Seq<char>>,
    pub relayers: Set<Seq<char>>,
    pub refs: Map<Seq<char>, RefData>,
}

impl<'a> View for Store<'a> {
    type V = State;

    open spec fn view(&self) -> State {
        State {
            owner: stored_owner(*self),
            relayers: stored_relayers(*self),
            refs: stored_refs(*self),
        }
    }
}

impl<'a> Store<'a> {
    /// Wraps a storage, with whatever it holds: a ledger that was written
    /// there before is met again.
    #[verifier::external_body]
    pub fn new<S: cosmwasm_std::Storage>(storage: &'a mut S) -> (s: Store<'a>) {
        Store { inner: storage }
    }

    /// `cw_storage_plus::Item::may_load` on `config`, for a `String`.
    ///
    /// It gets the bytes under the key and parses them: `Ok(Some(..))` with
    /// the string they spell, `Ok(None)` where the key is vacant, an error
    /// where the bytes do not parse.
    #[verifier::external_body]
    pub(crate) fn load_owner(&self) -> (r: Result<Option<String>, cosmwasm_std::StdError>)
        ensures
            r matches Ok(Some(o)) ==> stored_owner(*self) == Some(o@),
            !(r matches Ok(Some(_))) ==> stored_owner(*self) is None,
    {
        cw_storage_plus::Item::<String>::new("config").may_load(&*self.inner)
    }

    /// `cw_storage_plus::Item::save` on `config`, for a `String`.
    ///
    /// It writes the JSON string of `owner` under the key `config`; the
    /// string parses back to `owner`. No key of the two maps is `config`.
    /// Writing a string as JSON cannot fail.
    #[verifier::external_body]
    pub(crate) fn save_owner(&mut self, owner: &str)
        ensures
            stored_owner(*final(self)) == Some(owner@),
            stored_relayers(*final(self)) == stored_relayers(*old(self)),
            stored_refs(*final(self)) == stored_refs(*old(self)),
    {
        cw_storage_plus::Item::<String>::new("config").save(self.inner, &owner.to_string()).unwrap()
    }

    /// `cw_storage_plus::Map::has` on `relayers`.
    ///
    /// It says whether any bytes stand under the key of `address`, without
    /// reading them.
    #[verifier::external_body]
    pub(crate) fn has_relayer(&self, address: &str) -> (r: bool)
        ensures
            r == stored_relayers(*self).contains(address@),
    {
        cw_storage_plus::Map::<&str, bool>::new("relayers").has(&*self.inner, address)
    }

    /// `cw_storage_plus::Map::save` on `relayers`, for a `bool`.
    ///
    /// It writes `true` under the key of `address`, which is no key of
    /// `refdata` and is not `config`. Writing a `bool` as JSON cannot fail.
    #[verifier::external_body]
    pub(crate) fn save_relayer(&mut self, address: &str)
        ensures
            stored_relayers(*final(self)) == stored_relayers(*old(self)).insert(address@),
            stored_owner(*final(self)) == stored_owner(*old(self)),
            stored_refs(*final(self)) == stored_refs(*old(self)),
    {
        cw_storage_plus::Map::<&str, bool>::new("relayers").save(self.inner, address, &true).unwrap()
    }

    /// `cw_storage_plus::Map::remove` on `relayers`.
    ///
    /// It removes what stands under the key of `address`, if anything.
    #[verifier::external_body]
    pub(crate) fn remove_relayer(&mut self, address: &str)
        ensures
            stored_relayers(*final(self)) == stored_relayers(*old(self)).remove(address@),
            stored_owner(*final(self)) == stored_owner(*old(self)),
            stored_refs(*final(self)) == stored_refs(*old(self)),
    {
        cw_storage_plus::Map::<&str, bool>::new("relayers").remove(self.inner, address);
    }

    /// `cw_storage_plus::Map::may_load` on `refdata`, for a triple of a
    /// `Uint128` and two `u64`.
    ///
    /// It gets the bytes under the key of `symbol` and parses them:
    /// `Ok(Some(..))` with the observation they spell, `Ok(None)` where the
    /// key is vacant, an error where the bytes do not parse.
    #[verifier::external_body]
    pub(crate) fn load_ref(&self, symbol: &str) -> (r: Result<Option<RefData>, cosmwasm_std::StdError>)
        ensures
            r matches Ok(Some(d)) ==> stored_refs(*self).dom().contains(symbol@) && stored_refs(*self)[symbol@] == d,
            !(r matches Ok(Some(_))) ==> !stored_refs(*self).dom().contains(symbol@),
    {
        cw_storage_plus::Map::<&str, (cosmwasm_std::Uint128, u64, u64)>::new("refdata")
            .may_load(&*self.inner, symbol)
            .map(|found| found.map(|(rate, resolve_time, request_id)| RefData {
                rate: rate.u128(),
                resolve_time,
                request_id,
            }))
    }

    /// `cw_storage_plus::Map::save` on `refdata`, for a triple of a `Uint128`
    /// and two `u64`.
    ///
    /// It writes the observation under the key of `symbol`, as a JSON list of
    /// the rate in decimal digits, as a string, and the two numbers; the list
    /// parses back to the same observation. The key is no key of `relayers`
    /// and is not `config`. Writing such a list as JSON cannot fail.
    #[verifier::external_body]
    pub(crate) fn save_ref(&mut self, symbol: &str, data: RefData)
        ensures
            stored_refs(*final(self)) == stored_refs(*old(self)).insert(symbol@, data),
            stored_owner(*final(self)) == stored_owner(*old(self)),
            stored_relayers(*final(self)) == stored_relayers(*old(self)),
    {
        cw_storage_plus::Map::<&str, (cosmwasm_std::Uint128, u64, u64)>::new("refdata")
            .save(
                self.inner,
                symbol,
                &(cosmwasm_std::Uint128::new(data.rate), data.resolve_time, data.request_id),
            )
            .unwrap()
    }
}

} // verus!
