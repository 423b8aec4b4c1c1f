# ingest-parser

Reads the functions, classes, imports and calls out of source files, with
tree-sitter grammars. `src/` is the library, verified with Verus; `app/` is the
program around it, which reads paths on stdin, parses the files in parallel and
writes the results as JSON.

```bash
find /path/to/repo -name "*.ts" -o -name "*.go" | ingest-parser > results.json
```

## Languages

| Language | Extensions | Entities |
|----------|------------|----------|
| TypeScript | .ts | functions, classes, imports, calls |
| TSX | .tsx | functions, classes, imports, calls |
| JavaScript | .js, .jsx, .mjs, .cjs | functions, classes, imports, calls |
| Kotlin | .kt, .kts | functions, classes, imports, calls |
| Go | .go | functions, imports, calls |
| Rust | .rs | functions, classes, imports, calls |
| Vue | .vue | those of its first script |
| HTML | .html, .htm | none |
| CSS | .css, .scss | none |

## Modules

| Module | What it holds |
|--------|---------------|
| `text` | searching, splitting and trimming of text |
| `language` | languages, and their detection by extension |
| `vue` | script blocks of Vue components |
| `tree` | syntax trees as plain values |
| `query` | query matches as plain values |
| `functions`, `classes`, `imports`, `calls` | entities, read from a tree and the matches in it |
| `engine` | what is relied on of tree-sitter, and the walk that copies its trees |
| `grammar` | the queries of each language, and the loading of grammars |
| `parse` | what is reported of one text |
| `pipeline` | the way of a file from its path to its text |
| `report` | results and totals |

What the library relies on without proof stands in `engine` (tree-sitter and its
grammars), `tree` (decoding of UTF-8), `language` (lower case) and `text`
(appending to a string); each item says what is claimed of the function it calls.
