# pacemanbot

The logic of a Discord bot that follows the runs that paceman.gg streams and
pings the pace-roles of a guild when a runner reaches a split fast enough.

- `src/` is the library, verified with Verus: the reading of role names and
  runner configuration messages, which roles a split pings, the texts the
  bot sends, the leaderboard, the slash commands' option parsing and plans,
  and the decisions of the stream loop. Each public function states its
  result in its `ensures`; the public `lemma_*` proof functions state the
  properties that tie several functions together (a configuration message
  reads back as the runners it was written from, a finish never worsens a
  runner's best time on the leaderboard, and so on).
- `tests/` runs the library on concrete values.
- `app/` is the bot itself: Discord (serenity), the websocket stream
  (tokio-tungstenite), JSON records (serde), and the settings from the
  environment (dotenv).
