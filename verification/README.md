# restui core

The logic of a terminal HTTP client with vim-style editing, written in Verus
and proved against its contracts.

- `src/` — the verified library: text motions and edits on request fields
  (`field_edit`) and bodies (`body_edit`, `vim_buffer`), undo history
  (`history`), the mode keys (`mode`) and counted line yanks and deletes
  (`clip_ops`), completion of `{{variables}}` and `{{@request}}` names
  (`autocomplete`) and completing the fields of a `{{@request.field}}` path
  from the shape of a response (`json_fields`), dialogs (`overlay`), request chaining
  decisions and their messages (`chain`), the resolution of a value's references as a
  step function (`chain_run`) and the response cache (`cache`),
  application-level commands as a step function with the response history
  of each request, search-hit stepping, adding and renaming requests in
  collections
  (`app_state`), scrolling, search and screen
  layout (`viewport`), the collections tree and query parameters
  (`collections`), request-panel focus (`navigation`), JSON line colouring
  (`highlight`), request planning, body preparation, curl export and error
  diagnosis (`http_client`), configuration defaults (`config`), the command palette
  (`command`) and the leader menu (`leader_menu`). Properties that span
  several calls are proved in `laws`.
- `app/` — plain Rust around it: terminal setup, key events, clipboard,
  the configuration file and the network.
- `tests/` — tests on concrete values.
