# reporocket

A launcher that finds apps on GitHub, GitLab and the Internet Archive, downloads them into
`applications/<app>/<app>`, and launches them, with per-app cloud save folders,
SteamGridDB artwork and colour themes.

The decisions are a library verified with Verus (`src/`); the disk and network work around
them is ordinary Rust (`app/`).

- `src/text.rs`: character sequences, trimming, decimal text, ASCII case, ordering.
- `src/calendar.rs`: RFC 3339 time stamps from Unix seconds.
- `src/sorting.rs`: a stable sort by keys.
- `src/state.rs`: providers, settings, per-app configuration (a map with unique names),
  the folder layout and path containment.
- `src/ops.rs`: folder names for downloads, executables, the library listing, artwork
  files and the error log.
- `src/net.rs`: the requests sent to each service, what is made of the replies, file names
  from URLs, download progress and artwork pages.
- `src/theme.rs`: colours, the built-in palettes and `theme.yaml`.
- `src/session.rs`: how the launcher's state changes on each user action.

`url` and `percent_encoding` are called from the library through a few trusted wrappers,
each with a doc comment saying what its contract claims.
