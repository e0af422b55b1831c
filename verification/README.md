# etu_schedule

The schedule and attendance logic of the etu-schedule server, verified with
Verus.

- `src/` is the library: week days and their codes, lesson positions in the
  two-week grid, the plan of the merge of a freshly fetched schedule into the
  stored one, note grouping, and the requests to and the decisions on the
  replies of the ETU attendance service. Every function there carries a
  contract that Verus proves; the laws of the merge and of the day codes are
  proof functions beside them. `merge_effect.rs` models the current lessons
  of a subject once the planned writes are applied, and proves what a merge
  leaves behind and that merging the same lessons again changes none.
- `app/` sends the HTTP requests, runs the Postgres queries and carries the
  serde and sqlx derives on copies of the library's types.
- `tests/` runs the library on concrete values.
