# airun

A one-shot agent runner: a prompt goes in, a streaming response comes out. Agents and skills
are markdown files with a YAML header. They are looked for in `.opencode/` and `.agents/`, from
the current directory up to the root of the git worktree, and then below the home directory.

No other directory name is built in. One further name, for definitions that are shared with
another tool, can be given in `AIRUN_DEFINITIONS_DIR`: a directory of that name is then looked at
between the two, in the project and below the home directory. Without it, definitions in other
directories are not found.

- `src/` is the library, verified with Verus: permissions and glob patterns, settings, document
  headers, the search for files, prompts, the plan of a run, tool calls and the rendering of the
  stream.
- `app/` is the program around it: arguments, files, the terminal and the network.
- `tests/` run the library on concrete values.

Functions named `law_` state what holds of the library as a whole.
