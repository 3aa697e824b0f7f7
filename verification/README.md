# funzzy

A file watcher that runs configured tasks when files change. The library
under `src/` is written in Verus and proved against its contracts; the
binary under `app/` performs the filesystem, process and terminal work and
drives the library's decision machines with what it observes.

## Layout

- `src/` — the verified library.
  - `text` — the character-sequence model of strings shared by the rest.
  - `rules`, `template`, `plan` — tasks and their glob matching, command
    templates, and run plans built from rules (stages, parallel group
    occurrences, filtering, working-directory resolution, outcomes).
  - `identity`, `watcher`, `watch_loop`, `reload`, `reload_session` — event
    batches, the polling scanner, the content-change filter and the
    keyboard-shortcut run machine, root-set diffs, config-file event
    selection and the validate-then-commit reload machine.
  - `task_machine` — running one task (spawn order, fail-fast, deadlines,
    bounded service restarts, recovery decisions) and the stage queue of a
    generation (barriers, concurrency limits, cancellation records).
  - `output`, `duration_store` — retained-output selection, page plans,
    cursor validation and the budgeted page walk; the run-duration state
    file's load decision.
  - `executor`, `task_result`, `watcher_state`, `event_stream` — the run
    event vocabulary, the watcher state projected from events, and the
    NDJSON event record.
  - `service_lifecycle`, `shutdown`, `shortcut`, `process_owner` — decision
    state machines for readiness arbitration, shutdown, the keyboard trigger
    and process-group ownership.
  - `option_catalog`, `errors`, `stdout`, `logging`, `environment` — the
    configuration catalog and the texts shown to users.
- `tests/` — tests of the library on concrete values.
- `app/` — the `funzzy` binary: command line, filesystem watching, process
  spawning, terminal and file output.

Every `law_*` proof function states a property that holds for all inputs;
the trusted items are the `#[verifier::external_body]` functions and types,
each documented with the outside function it calls.
