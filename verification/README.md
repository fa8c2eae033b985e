# rustlab

Verified building blocks of four small programs, written in Verus.

- `src/fast_vec.rs`: `FastVec`, a growable vector with an explicit capacity
  that doubles when a push finds it full.
- `src/dataset.rs`, `src/query.rs`, `src/analytics.rs`: tabular data, queries
  over it (filter, group by a column, count / sum / average), and their
  evaluation.
- `src/query_parser.rs`: the parser of textual queries such as
  `FILTER city == "Boston" GROUP BY name COUNT id`.
- `src/chat.rs`: the bookkeeping of per-user chat sessions: a store with one
  session per user and a least-recently-used cache of sessions.
- `src/tic_tac_toe.rs`: the evaluation of tic-tac-toe positions and the
  decisions of a minimax search with alpha-beta pruning.

Every function in `src/` carries a contract proved by Verus; the laws of the
library (such as what a cache lookup returns after an insertion, or that
filtering with a condition and with its negation splits the rows) are proof
functions beside the code they speak of.

`app/` holds what Verus does not check: the query client's input loop, the
chatbots' calls to the language model and to files, the agents' play on the
game framework's board, and printing.

`tests/` runs the library on concrete values.
