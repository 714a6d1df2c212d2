use beet_discord::action::{GetGuildParams, ParamsError};

#[test]
fn guild_id_from_params() {
    let id = GetGuildParams { id: 81384788765712384 }.guild_id().unwrap();
    assert_eq!(id.get(), 81384788765712384);
    assert_eq!(GetGuildParams { id: 1 }.guild_id().unwrap().get(), 1);
}

#[test]
fn zero_guild_id_is_refused() {
    assert_eq!(GetGuildParams { id: 0 }.guild_id(), Err(ParamsError::ZeroId));
}
