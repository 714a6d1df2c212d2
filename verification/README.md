# beet_discord

The verified core of a Discord bot built on twilight-model.

- `src/` is the library, checked by Verus:
  - `text`: line splitting as `str::lines` does it, and chunking of long
    replies into Discord-sized messages, with proofs that chunking keeps the
    text and the size limit;
  - `channel`: the channels a bot knows of, the rule that makes a channel the
    bot's own, and the handling of guilds announced by the gateway;
  - `query`: when the bot answers a message and when it opens a thread;
  - `sync`: the decisions that keep the bot's threads and Discord in step;
  - `meta`: the Discord bookkeeping kept on posts, threads and actors;
  - `gateway`: the gateway intents and what the event loop does per event;
  - `action`, `bot`: action parameters and the bot's token.
- `app/` converts twilight-model values into the library's plain values,
  stores the metadata as JSON with serde, and reads the token from the
  environment.
- `tests/` runs the library on concrete values.
