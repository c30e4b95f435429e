# main_tourney_manager_gg

The verified core of a desktop tool for running a start.gg tournament on
stream: it turns the operator's pasted slug into the slugs start.gg knows,
reads start.gg's GraphQL answers into tabs of sets (one per bracket or pool,
in bracket-then-pool order), decides which requests to make and in what
order (pagination that shrinks its page size when start.gg refuses a page,
several query shapes tried in turn, an event first and its tournament as a
fallback, several mutation shapes when reporting a winner), and builds the
scoreboard file a stream layout reads.

Layout:

- `src/` is the library, verified with Verus. Every public function states
  what it returns; the laws the library keeps are public proof functions
  whose names start with `law_`.
- `tests/` runs the library on concrete values.
- `app/` is the desktop shell around it: the commands the front end calls,
  HTTP, files, the configuration, and the webview setup.
