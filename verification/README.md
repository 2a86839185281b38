# Rust Digger

Analyzes the crates of crates.io and generates static pages about them: which
hosts keep their repositories, which have CI, `rustfmt` settings, editions and Rust
versions, the crates of each user, the largest crates.

## Layout

* `src/` is the library, verified with Verus. Each module holds the records it works
  on, the specifications of what its functions compute, their proofs, and the laws
  that relate them:
  * `crates`, `cargo_toml`: the records of the database dump and of the released
    manifests, how manifests and owners join the crates;
  * `pages`, `people`, `top`, `msrv`, `rustfmt`: the lists, statistics and tables
    that the pages show;
  * `scan`, `downloads`: the decisions of the tools that clone repositories,
    collect data from them and download the crates;
  * `order`, `text_map`, `text`, `paths`, `common`, `repository`, `timer`: stable
    sorting, maps keyed by text, text and path helpers, and the calls into `regex`,
    `git-digger`, `chrono` and `thousands` (`rustfmt` calls `toml` to read the
    settings files of the repositories).
* `app/` is the command line around the library: reading the CSV and JSON files,
  rendering the Liquid templates, running `git`, `docker` and HTTP requests.
* `tests/` runs the library on concrete values.

## Tools

```
app html --limit 10
app clone --recent 10 --limit 15
app vcs --limit 10
app download-crates --limit 10
app download-db-dump
app manifests
```
