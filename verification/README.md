# whisrs

The front end of the whisrs dictation tool, with its decisions verified by Verus.

* `src/` is the verified library.
  * `text`: white space, words, trimming, joining, lower case, decimal numbers.
  * `config::glossary`: the personal glossary, which replaces spoken phrases by exact text.
  * `cli`: what the `whisrs` command decides and says. `cli::glossary` holds the conversation
    behind `whisrs glossary`, `cli::command` what each subcommand sets going, `cli::daemon` and
    `cli::restart` what the user is told of the daemon.
  * `man_page`: whether the man page documents every subcommand.
* `app/` is the program around it: arguments, prompts, the glossary file, the daemon's socket.
* `tests/` are the library's tests.

The one thing that the proofs take on trust is stated at `text::lowercase`: what
`str::to_lowercase` returns.
