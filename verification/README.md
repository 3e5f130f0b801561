# stake-radar

Competitive intelligence for Solana validators: who is gaining on your stake, which validators
are bleeding stake you could capture, where you stand in stake pool queues, which validators
look like they game delegation programs, and how stake moves between validator cohorts.

## Layout

- `src/` — the library, written in Verus. Its functions carry contracts and are verified,
  except a few small trusted wrappers around outside calls (`String::push`, the home
  directory, a random UUID, the current time), whose contracts state what those calls do.
  - `models` — snapshots, deltas, threat profiles, opportunities, cohorts, pools, labels.
  - `analysis` — grouping into histories; threat, decay, queue, cohort and gaming analyses.
  - `snapshot` — epoch-over-epoch deltas and history windows.
  - `rpc` — vote accounts to snapshots, stake amounts, reply classification, request pacing.
  - `config`, `commands`, `alert`, `output`, `text`, `pools` — configuration, command checks
    and filters, alert rules and bodies, report labels, exact text helpers, and fields read
    from pool APIs.
  - `laws` — properties that hold across operations (ordering of reports, partitions,
    pacing bounds, alert coverage, round trips).
- `tests/` — tests of the library on concrete values.
- `app/` — the command-line program and HTTP API around the library: SQLite storage, RPC and
  pool API calls, stake regressions and pool scoring in floating point, tables, CSV and JSON.

Stake is held in lamports and rates in parts per million inside the library; reports show SOL
and fractions.
