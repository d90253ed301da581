# deqs

The verified core of a decentralized exchange quote service (DEQS) for signed contingent
inputs (SCIs), and of a liquidity bot that keeps its wallet's outputs listed on it.

## Layout

- `src/` — the library, proved with Verus:
  - `range`, `types`, `sci`, `error`: plain values, ranges, the SCI as the book reads it.
  - `quote`: quotes built from SCIs, their order and the cost of a fill.
  - `quote_book`, `seq_filter`, `tombstone`: the in-memory quote book, free of duplicate key
    images, and in the quote order while its quotes offer positive amounts.
  - `synchronized`: the quote book kept in step with the ledger (spent key images, tombstones).
  - `vec_u64`, `storage`: the database encodings of quotes.
  - `api`: conversions to and from the API's messages.
  - `bot`: the liquidity bot's decisions (what to ask for an output, what a reply lists, what
    to resubmit).
  - `wallet`: the mini wallet's bookkeeping of owned outputs across scanned blocks.
  - `p2p`: the p2p node's RPC protocol and event decisions.
- `tests/` — tests of the library on concrete values.
- `app/` — the liquidity bot program: configuration, ledger scanning, SCI signing, gRPC and
  metrics, around the library.
