# grove

Manage a grove of git/jj repositories with per-project environment variables
and centralized worktree management.

The library in `src/` is verified with Verus:

- `text`, `path`: string and Unix-path handling (splitting, replacing,
  trimming, path components, joining, parents, prefixes) specified over the
  characters of the strings.
- `omap`: a string-keyed map that keeps its entries in key order.
- `config`: project references, database and hook settings, repository
  defaults, the project registry, and the upward search for a repository's
  `.grove/config.toml`.
- `env`: environment-variable files, the layering of repository, project and
  worktree values, and export to a shell or as JSON.
- `vcs`: choosing git or jj and reading their worktree listings.
- `commands`: the decisions and output layout of the command-line front end.
- `laws`: properties that span operations, such as the precedence of the
  environment layers and that shell quoting reads back as the original value.

`app/` holds the `grove` command itself: argument parsing, reading and writing
the TOML files, running git, jj, database and hook commands, and printing.
