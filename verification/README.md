# hex_ls

A language server for the dependency lists of Elixir `mix.exs` files, and the
logic of the editor extension that installs it. All of the logic is verified
with Verus.

- Package names are completed after `{:`, the most downloaded ones first.
- Versions are completed inside the version string, as `~> X.Y` (one for each
  minor series), `>= X.Y.Z` and `X.Y.Z`.
- Hovering over a package name shows its description, version, licences and
  links, hovering over a version the available ones.
- Answers of the registry are good for five minutes.
- Files not named `mix.exs` are left alone.

## Layout

| Path                | What it holds                                                  |
|---------------------|----------------------------------------------------------------|
| `src/text.rs`       | characters, lines, cursor columns                              |
| `src/lists.rs`      | lists of strings                                               |
| `src/json.rs`       | JSON values                                                    |
| `src/pattern.rs`    | the patterns of dependency tuples, searched for with `regex`   |
| `src/deps.rs`       | what is being typed, what the cursor points at, what to fetch  |
| `src/version.rs`    | versions and minor series                                      |
| `src/completion.rs` | completion items                                               |
| `src/hover.rs`      | the texts shown for packages and versions                      |
| `src/state.rs`      | open documents and cached answers                              |
| `src/server.rs`     | what requests and notifications lead to                        |
| `src/release.rs`    | which file of a release belongs to which platform              |
| `src/install.rs`    | finding and installing the binary                              |
| `app/`              | reading and sending messages, fetching, the editor's interface |

The proof functions whose names begin with `law_` state what holds of the
library as a whole. The two functions of `src/pattern.rs` that call `regex` are
the only ones whose contracts are taken on trust.
