# voidleo

The logic of a small Discord bot, verified with Verus.

- `src/` is the verified library: the argument parsers of the `event` and
  `purge_channel_messages` commands, the lurker purge's member selection,
  grace period and result announcement, emoji pings, welcome messages,
  command permissions, and the embeds that the bot posts.
- `tests/` runs the library on concrete messages.
- `app/` is the bot itself: it talks to Discord through serenity, reads
  `config.ron`, and hands plain values to the library.
