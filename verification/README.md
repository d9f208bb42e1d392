# topcoat static export, verified

The static export of a Topcoat application: which URLs a router's pages
expand to, how those URLs become files, and the checks an export makes on
the way, written in Verus with their contracts proved.

- `src/router/path.rs`: route patterns (`/blog/{year}/{slug}`, groups,
  catch-alls) and matching a URL against one.
- `src/router/static_export.rs`: a router's pages expanded into concrete URLs
  (module-derived pages segment by segment, explicitly pathed pages from
  complete parameter sets, fixed pages as they stand), sorted and checked for
  duplicates.
- `src/router/static_export/`: the parameter sets, errors and route listing
  the development tooling serves to `topcoat export`.
- `src/router/grammar.rs`: what the `#[page]`, `#[path_param]` and `segment!`
  attributes accept.
- `src/cli/export/`: the `topcoat export` command's decisions: the file each
  URL is written to, collisions between them, the answers it accepts, and
  (`swap.rs`) the steps that put a finished export in place of the previous
  one, proved to leave the previous output alone when an export fails.
- `src/export.rs`: the in-process export: its configuration, and where every
  page and static file is written.
- `src/percent.rs`, `src/text.rs`: URL escaping and string helpers.
- `app/`: the I/O around the library: the command line, the application
  process, HTTP requests and the filesystem.
