# fastdown

The verified core of a Python binding for the `fast_down_ffi` downloader.

- `src/` is the library, proved with Verus:
  - `config.rs`: download options, each optional, and the settings they
    stand for once every missing option takes its default;
  - `event.rs`: the downloader's progress events as flat records, and their
    text form;
  - `pusher.rs` with its model `chunk_map.rs`: the cache behind a
    user-supplied push callback, which keeps the longest piece per offset,
    merges pieces that follow one another and, when a hand-over fails, keeps
    every byte that was not handed over;
  - `session.rs`, `error.rs`, `target.rs`, `text.rs`: the decisions of a
    running download, the wording of failures, URL parsing and text helpers.
- `app/` is the Python module built on the library with pyo3: the Python
  classes, the async runtime, the event channel and the calls into Python.
- `tests/` runs the library on concrete inputs.
