# mathmux

mathmux lets several agents work on one Lean project: each has a workspace of its own, checks
and submits its changes, and asks what the project, its dependencies and its checks hold. This
crate decides and computes; `src/` is verified with Verus.

- `text/`: strings as sequences of characters: finding, cutting, trimming, laying out, numbers,
  character classes, JSON strings, and how many bytes a text takes (`utf8`).
- `order`, `path`, `reference`, `failure`: rankings, paths, typed references, and refusals.
- `search/`: requests (`request`, `regex_request`, `fragment`, `plan`, `api`), Lean sources
  (`source`, `declarations`, `fields`, `constructors`, `spans`, `modules`, `tree`), queries on
  them (`tokens`, `names`, `occurrences`, `lines`, `locations`, `groups`, `excerpt`,
  `fallback`), ranking (`score`, `rank`, `promote`, `bridge`, `exact`, `keeping`), what a
  declaration asks and gives (`contract`, `conversion`, `evidence`, `dossier`), probes (`probe`,
  `refine`, `focus`, `triage`, `warning`, `diagnostics`, `goal`), the type search service
  (`type_worker`), and what is shown (`display`).
- `state/`: the record of workspaces, checks, submissions and searches, whether it is sound
  (`validity`), which outputs of builds it keeps (`build_logs`, `retention`), and how it is
  shown.
- `status`, `activity`, `agents`: the state of a project, its publication, and who works on it.
- `storage/`: what a collection removes, and how much it frees.

A contract speaks of the views of its arguments, over spec functions that say what is meant.
What holds of several functions together stands beside them as a public proof function.

The crate trusts a few functions of `std`, `regex` and `serde_json`: `text/make.rs`,
`text/class.rs`, `text/json.rs` and `search/patterns.rs` hold them, each with what is taken of it.

`app/` holds what reads and writes: the database, files, git, and the Lean service. It hands
the library plain values and carries out what the library decides.
