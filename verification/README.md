# posix_tools

Command-line text tools (`find`, `grep`, `ls`, `join`, `patch`, `groff`,
`fold`, `head`, `paste`, `kill`, `less`, `mv`) whose logic is a Verus-verified
library.

- `src/` is the library. Each module holds a tool's parsing of its arguments,
  its rules and its algorithms, with contracts over spec functions; the laws
  that relate several calls are public proof functions beside them.
  `src/groff/` holds the text side of the formatter: escapes and words
  (`render`), justification, line setting, tab stops and word placement
  (`fill`), man page indentation (`indent`), the words of the man macros
  (`macros`), the page text (`page`), and the formatter's state with its
  strings, registers and macros, its conditions and what each request and
  man macro does to it and asks to be done (`roff`).
- `app/` is the program around it: reading files and the terminal, signals,
  and the parts of the formatter that evaluate lengths and numeric
  expressions in floating point, then carry out what the library's requests
  and macros ask for (reading lines, sourcing files, emitting text).
- `tests/` runs the library on concrete inputs.
