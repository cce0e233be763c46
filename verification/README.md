# nono

**No, no, I'll do it myself.** A static site generator that compiles a directory
of `.nono` files and Markdown content into static HTML and ships nothing to the
browser. Its language core and its router are written in Verus and proved
against their specifications.

## Layout

- `src/` — the verified library.
  - `grammar.rs` specifies the `.nono` grammar; `parser.rs` is proved to parse
    exactly what it says, tree or first error.
  - `semantics.rs` specifies evaluation (constants, components, slots, `for`,
    `if`, `match`, functions, the builtins); `eval.rs` is proved against it.
  - `html.rs` serialises and escapes the HTML tree and lifts `head { }` content.
  - `sources.rs` and `markdown.rs` are the data sources (`glob`, `markdown`,
    `env`, `http_get`) over a snapshot of the project; markdown rendering is
    pulldown-cmark's.
  - `site.rs` is the build: routes, layouts, drafts, stylesheets, documents.
  - `serve.rs` holds the dev server's decisions; `config.rs` the build steps.
- `app/` — the `nono` command: reading the project from disk, YAML, JSON and
  TOML, running build steps, fetching network responses, the dev server.
- `tests/` — the language, the router and the laws on concrete values.

## Usage

```sh
nono new   --path path/to/new-site
nono build path/to/your-site --out path/to/output
nono dev   path/to/your-site        # http://127.0.0.1:6969
nono parse path/to/file.nono
```

## Numbers and limits

- Numbers are whole: a value is a 64-bit signed integer. A literal with a
  fractional part is refused by the parser; `+`, `-` and `*` fail on overflow,
  and `/` fails on division by zero and on a division that does not come out
  whole. YAML and JSON numbers that are not whole arrive as strings.
- Components, slots and functions may nest at most 200 levels deep; deeper
  evaluation stops with the error "components, slots or functions nest too
  deeply" rather than exhausting the stack.
