# lucio

Create new Vivaldi profiles based on existing ones, as isolated
settings/extensions templates: a clone carries over the source's Vivaldi
settings, installed extensions and their options, and none of its personal
data (cookies, passwords, history, autofill, sessions, bookmarks, site
storage, mail).

## Layout

- `src/` is the library, verified with Verus. Each module states its
  behaviour in `requires`/`ensures` contracts over mathematical models, and
  the properties that span several functions as proof functions (`lemma_*`).
  - `manifest`: the catalogue of carry-over categories and the entries each
    copies; the default set is proved free of personal-data entries.
  - `profile`: profiles and name-or-directory resolution.
  - `json`: an ordered JSON document model and its edits.
  - `local_state`: the `Local State` registry: listing, the next profile
    directory and metrics bucket, registration.
  - `clone`: the copy plan (allowlisted entries only, volatile LevelDB files
    skipped, `CURRENT` files last), the copy report, and the sanitizing of
    `Preferences`.
  - `staging`: clone options, staged clones and their registration.
  - `flow`: the decisions of a clone run (dry run, live registration in a
    running Vivaldi, waiting for it to quit) as a state machine.
  - `selection`: the interactive category selector as a state machine.
  - `paths`, `summary`, `text`: paths, command-line output helpers, strings.
- `app/` is the `lucio` command line around it: argument parsing, the file
  system, JSON parsing and serialization, launching Vivaldi, the terminal UI.
- `tests/` runs the library on concrete values.

## Usage

```sh
lucio list
lucio clone "Privat" "Work"            # preview (dry run)
lucio clone "Privat" "Work" --execute  # create it
lucio completions bash
```
