//! The bot entity's own settings.
use vstd::prelude::*;

verus! {

/// A Discord bot, with the token it connects with.
#[derive(Clone)]
pub struct DiscordBot {
    /// The bot's token, usually loaded from the environment at startup.
    token: String,
}

impl DiscordBot {
    pub fn new(token: String) -> (bot: Self)
        ensures
            bot.spec_token() == token@,
    {
        DiscordBot { token }
    }

    /// The token as plain characters.
    pub closed spec fn spec_token(&self) -> Seq<char> {
        self.token@
    }

    pub fn token(&self) -> (token: &str)
        ensures
            token@ == self.spec_token(),
    {
        self.token.as_str()
    }
}

} // verus!
