# autodoc

A library, verified with Verus, for crawling a directory tree, summing and
rendering it, and running the steps of a documentation plan; and a small
command line program around it.

- `src/paths.rs`: the final component of a `/`-separated path and the hidden-name rule.
- `src/units.rs`, `src/text.rs`: byte counts as text, string helpers.
- `src/crawl.rs`: a crawl as a state machine. It decides what to ask the file
  system next; the caller performs the action and hands back the answer.
- `src/crawl_model.rs`: what a crawl gives against a model of the file system.
- `src/crawler.rs`, `src/file_crawler.rs`: the two tree shapes (files and
  subdirectories apart, or entries in listing order), their builders, totals
  and crawlers.
- `src/tree_renderer.rs`: the indented text rendering of a tree.
- `src/autodoc.rs`: settings, execution steps and their stages, sessions.
- `src/plan.rs`: one pass over a plan's steps, and recording summaries.
- `app/main.rs`: the program: argument handling, file system access and the
  asynchronous plan runner.
