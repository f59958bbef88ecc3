# botkit

Building blocks of a chat bot that runs for months.

- `control_flow`, `task`, `manager`: daemons. A daemon sleeps for an interval, runs, and starts over,
  until it is cancelled or asks to stop. The manager numbers the daemons, reaches them through
  channels, and forgets those that are gone.
- `cron`: daemons that run every day at the same time.
- `file_key`, `multifile_db`: a database that keeps one file per key in a directory.
- `pubsub`: an event bus whose subscribers leave by breaking off.
- `outside`: what is believed of tokio's channels and of type identifiers.

`src/` is verified with Verus. It never waits for anything: where a clock, a channel, a file or a
callback is involved, it holds the decisions as state machines, which are told what happened and say
what to do next. `app/` does the waiting with tokio, and has the asynchronous interface that a bot
uses. Contracts say what each function returns and changes, given what the clock showed, which
channels were closed and what callers' own code answered. The public proof functions named `law_..`
say what holds across functions.
