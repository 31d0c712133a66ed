# kuku

A PowerShell helper: when a command fails, the shell hook sends it to an
OpenAI-compatible chat-completions service and offers the corrected command.

- `src/` is the verified library: text handling (`text`), the managed block
  in the PowerShell profile (`profile`, `init`, `reset`), the assistant
  settings and request/reply handling (`api`), fix suggestions and free
  questions (`assist`, `ask`), MCP tool names and results (`mcp`), the
  environment check (`doctor`), the settings screen as a state machine
  (`ai_config`), and the command line (`cli`, `config_cmd`).
- `app/` is the program around it: argument parsing, files, the terminal
  screen, HTTP and child processes.
- `tests/` exercise the library on concrete values.

`init` appends the managed block after a newline, or replaces the block
already there (the rest of the profile without trailing newlines, a blank
line, the block); `reset` takes out exactly that block. After a first
`init`, `reset` gives the profile back byte for byte, line endings
included; from its second run on, `init` changes nothing. These laws stand
as proof functions in `src/profile.rs`.
