# Harbor migration

Moves the images of projects from one Harbor registry to another. The decisions
are a library that is verified with Verus; the program around it talks to the
registries and to docker.

## Layout

- `src/` is the library.
  - `text`: the string operations that everything else is written in.
  - `config`, `image`: registries, projects, images and their names.
  - `client`: how a registry is signed in to.
  - `listing`: the listings of a registry, page by page.
  - `discovery`: the search for the images of a migration.
  - `registry`: what a discovery finds in a registry.
  - `transfer`: the transfer of one image, action by action.
  - `state`: which images are done and which failed.
  - `report`: the summary at the end.
  - `migrator`: a migration as a whole.
  - `run`: what a run comes to, however its transfers are interleaved.
- `app/` is the program: the command line, HTTP, docker, files and progress
  bars.
- `tests/` runs the library on concrete values.

## Getting started

Write a `config.json`:

```json
{
  "source": {
    "url": "https://harbor-a.example.com",
    "username": "robot$migration",
    "password": "source-password"
  },
  "destination": {
    "url": "https://harbor-b.example.com",
    "username": "robot$migration",
    "password": "dest-password"
  },
  "projects": [
    { "source": "project1", "destination": "project1-migrated" },
    { "source": "project2", "destination": "project2" }
  ]
}
```

and run the program with `--config config.json`. With `--dry-run` it shows what
would be migrated; with `--resume` it goes on from the saved state.
