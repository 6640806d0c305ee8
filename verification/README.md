# PuppyFind

PuppyFind is a local server that finds images by what they show. An index holds a
vector for each image; a search embeds a text and ranks the images by how near they
are to it.

`src/` is a library verified with Verus. It holds what the application decides and
computes. `app/` is the program around it: files, the database, the model, the server.
`tests/` runs the library, and the statements of `db` against SQLite in memory.

| Module       | What it holds                                                           |
|--------------|-------------------------------------------------------------------------|
| `text`       | characters: trimming, lines, decimal numbers                            |
| `paths`      | paths as text: components, lexical normalization, parents, order        |
| `env`        | assignments `KEY=value` and quoting                                     |
| `config`     | the settings, their checks and defaults, places in the workspace        |
| `env_file`   | the environment file: rendering it for settings, reading settings back  |
| `round_trip` | what is saved is what is loaded; saving leaves foreign lines alone      |
| `order`      | stable sorting                                                          |
| `db`         | the index: its changes as statements, vectors as bytes, model signature |
| `indexer`    | which files are images, and how a run goes                              |
| `trace`      | what the steps of a run come to                                         |
| `search`     | ranking                                                                 |
| `model`      | directories of models and images, which model is loaded                 |
| `app_state`  | settings, index status and model, together                              |
| `web`        | the checks on requests, the changes they make, the replies              |
| `flow`       | how requests for a run and for other settings go, step by step          |
| `server`     | the address shown, and which logs are old                               |
| `outside`    | calls into other crates, with what is claimed of them                   |

Vectors and scores are held by the bits of their IEEE 754 singles. Paths are those of
Unix: they use `/` and start at one root.
