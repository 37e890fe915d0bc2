# tallyweb

The logic of a tally counter for shiny hunting, written in Verus and proved
against its contracts: counters group phases, phases hold a count and the
time spent, and a hunt type turns a count into rolls and odds.

## Layout

- `src/` is the verified library.
  - `nodes`, `store`, `v2`: the elements of the tree and the store that holds
    them, with reads, writes, archiving, merging and filtering;
    `store_laws` proves what the operations promise together, such as a
    count that is set being the count that is read back.
  - `legacy`, `legacy_counter`, `counter_list`: the first model of counters
    and phases, and the list that sorts and searches them.
  - `sort`, `sorting`, `sort_search`: the orders of the list, a stable sort,
    and the keys of the sort and search bar.
  - `time_delta`, `numtext`, `infobox`: time spans, numbers as text, and what
    the info box shows.
  - `color`, `icon`, `page`, `screen`, `forms`, `context_menu`, `confirm`,
    `history`, `message`, `account`: the decisions behind the interface.
  - `clock`: the fresh ids and the current time that new elements take.
- `tests/` runs the library on concrete values.
- `app/` holds what stays unverified: conversions to the `uuid`, `chrono`
  and `serde` types, and the chance of a hunt, which is computed in
  floating point.
