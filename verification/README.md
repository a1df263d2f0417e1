# internet-downloader-backend

The back end of a download manager. It is told over HTTP which URLs to fetch,
has plugins say which files are behind them, fetches the files in ranges from
several servers at once, keeps to speed limits, checks what is on disk against
digests, and stores all it knows in a database, so that downloads go on after
a restart.

## Layout

- `src/` is the library: what is decided and computed. Each function has a
  contract, and Verus proves it. Nothing here reads or writes: a component
  takes in what happened and says what is to be done.
  - `download/` holds downloads and their files and folders, their states, the
    supervisor of the work on one download, and the comparison with the disk.
  - `download/hosts/` is the work with one server: which job is next, how a
    range is fetched and hashed, what is done about a failure.
  - `db/` turns downloads and settings into rows, and rows into these.
  - `app/` is the program as a whole: commands, limits, settings, snapshots.
  - `plugin_registry` and `plugin_patterns` find the plugin for a URL.
  - `utils/` holds names, paths, URLs, bit vectors, hashing and bandwidth.
  - `app_manager`, `host_manager`, `download_task`, `verification_tracker` and
    `download/download_manager` are the queue of downloads with a limited
    number at work at once.
- `app/` is the program around it: the HTTP server, the database, the network,
  the disk and the JavaScript runtimes.
- `tests/` runs the library on chosen values.

What the library takes from other crates (`bitvec`, `blake3`, `indexmap`,
`os_str_bytes`, `url`, `regex`, `chrono`, `rand`) it calls through small
functions whose contracts say what is relied on.

Properties that span several functions are stated as public proof functions
whose names begin with `law_`.
