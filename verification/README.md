# code-mcp

Filesystem search and read tools for LLM clients, served over streamable HTTP. The rules that the
tools and the server follow are a library verified with Verus; the program around it walks
directories, reads files and speaks the protocol.

## Layout

- `src/` is the library.
  - `tools/`: `grep`, `find` and `cat`, with their options, responses, output caps and tallies.
  - `server`, `args`, `scope`: calls of clients, checked and turned into jobs. No job leaves the
    project root, and no file that a walk meets is read unless it resolves to a place within it.
  - `memory`: persisted memories.
  - `gate`, `limiter`, `reaper`: who may begin a session, how often, and when a session is closed.
  - `error`: what goes wrong, and how clients hear of it.
  - `text`, `paths`, `ordering`: the ground the rest stands on.
  - `engines`: the `regex`, `grep-regex`, `grep-searcher` and `ignore` crates, and a few functions
    of the standard library, with what is taken for granted about them.
- `app/` is the program.
- `tests/` runs the library, with the real engines where it needs them.

## What is proved

Contracts say exactly what each function returns. Besides, public proof functions state what holds
of the library as a whole, for instance:

- `grep` and `find` never put out more results than asked for, however many walkers share the work
  (`tools::common::shared_counter_caps`);
- the byte cap is hard, and what it cuts is marked (`tools::grep::streamed_text_is_capped`,
  `tools::grep::byte_stops_are_marked`, `tools::counts::count_text_is_capped`,
  `tools::cat::page_is_capped`);
- the pages of a file, joined, are the file (`tools::cat::pages_make_the_file`);
- nothing outside the project root shows, even where symlinks are followed
  (`tools::grep::outside_files_reveal_nothing`, `tools::find::outside_files_reveal_nothing`);
- no request reaches outside the memory directory (`memory::targets_stay_inside`);
- a peer is let through no more often than its rate allows, whatever other peers do
  (`limiter::admissions_are_bounded`), and letting go of stale buckets makes no difference
  (`limiter::eviction_is_unobservable`);
- a silent session is closed, an active one is not (`reaper::silent_sessions_are_closed`,
  `reaper::active_sessions_are_kept`).
