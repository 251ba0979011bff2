# bckt

bckt is a static site generator for blogs: Markdown or HTML posts with YAML
front matter go in, a site with tag pages, archives, feeds, a sitemap and a
client-side search index comes out.

## Layout

- `src/` is the library, written and proved with Verus. It holds the rules
  that decide what a site looks like: slugs and tags, front matter (writing it
  and reading it back), dates and offsets, permalinks and output paths,
  pagination, tag and archive grouping, feed and sitemap text, the search
  index plan, the strftime patterns of the templates, record keys,
  theme lookup and archive paths, the development server's request handling,
  the Farcaster import (cast ids, mentions, embeds, the post file), and
  Markdown rendering: comrak writes a post's HTML and parses its document,
  whose walk the library reads for the excerpt.
  Calls into `comrak`, `blake3`, `time`, `url`, `isolang`, `percent-encoding`
  and `mime_guess` go through small trusted wrappers whose contracts say what
  each call returns. Questions to the disk (does a path exist, is it a file
  or a directory) go through three probes in `src/disk.rs` that promise
  nothing about the answer; the lookups that use them list the questions
  they ask (`root_probes`, `theme_probes`, `demo_probes`, `request_candidate`,
  `ignore_probes`) and decide from the answers in verified code (`pick_root`,
  `pick_theme`, `pick_demo`, `choose_target`, `searched_dirs`).
- `app/` is the program around it: argument parsing, the file system, the
  template engine, the cache database, the HTTP server,
  the file watcher and the network. It hands the library plain values and
  acts on what comes back.
- `tests/` exercises the library through its public interface.
