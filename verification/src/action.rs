//! Parameters of the bot's HTTP actions.
use core::num::TryFromIntError;
use twilight_model::id::marker::GuildMarker;
use twilight_model::id::Id;
use vstd::prelude::*;

verus! {

#[verifier::external_type_specification]
#[verifier::external_body]
#[verifier::reject_recursive_types(T)]
pub struct ExId<T>(Id<T>);

#[verifier::external_type_specification]
#[verifier::external_body]
pub struct ExGuildMarker(GuildMarker);

/// The number inside a guild id, as `Id::get` returns it.
pub uninterp spec fn guild_id_value(id: Id<GuildMarker>) -> u64;

/// `Id::<GuildMarker>::try_from(n)`: twilight-model ids are non-zero, so this
/// fails exactly for zero; otherwise it is the id whose value is `n`.
#[verifier::external_body]
fn guild_id_try_from(n: u64) -> (id: Result<Id<GuildMarker>, TryFromIntError>)
    ensures
        id is Err <==> n == 0,
        id matches Ok(i) ==> guild_id_value(i) == n,
{
    Id::<GuildMarker>::try_from(n)
}

/// Why an action's parameters were refused.
#[derive(Debug, Clone, Copy, PartialEq, Eq, Structural)]
pub enum ParamsError {
    /// Discord ids are never zero.
    ZeroId,
}

/// The parameters of the `get-guild` action.
#[derive(Debug, Clone, Copy)]
pub struct GetGuildParams {
    pub id: u64,
}

impl GetGuildParams {
    /// The id of the guild to fetch; zero is not an id.
    pub fn guild_id(&self) -> (id: Result<Id<GuildMarker>, ParamsError>)
        ensures
            self.id == 0 ==> id == Err::<Id<GuildMarker>, ParamsError>(ParamsError::ZeroId),
            self.id != 0 ==> (id matches Ok(i) && guild_id_value(i) == self.id),
    {
        match guild_id_try_from(self.id) {
            Ok(id) => Ok(id),
            Err(_) => Err(ParamsError::ZeroId),
        }
    }
}

} // verus!
