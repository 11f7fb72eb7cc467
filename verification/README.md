# Peep

Peep reads EPUB, Markdown and plain text books in a terminal. Its core is a library whose
behaviour is stated in contracts and proved with Verus; around it stands a thin program that
talks to the terminal and to the disk.

## The library, `src/`

| Module | What it holds |
| --- | --- |
| `text`, `strings`, `buffer`, `encoding`, `unicode` | characters, byte offsets, and what is taken from the tables of Unicode |
| `matching`, `loose_match`, `search` | exact, loose and regular expression search |
| `wrap`, `viewport` | rows of a given width, and the part of the document that is on the screen |
| `order`, `natural` | sorting, and the natural order of names |
| `document` | the formats: detection, decoding, archives, chapters, tables of contents |
| `state`, `history`, `filter`, `input`, `command`, `file_picker` | what is kept, typed and chosen |
| `theme`, `terminal_palette`, `terminal`, `ui`, `cli` | colours, events and the layout of the screen |
| `app` | the application as a state machine of keys, outcomes and actions |

Contracts speak of mathematical models: the view of each type, and spec functions over texts,
offsets and lists. What relates several functions is stated as a law, in a public proof function
whose name begins with `law_`.

What comes from other crates (regular expressions, ZIP, XML, HTML, Markdown events, encodings,
fingerprints, grapheme clusters and widths) is called through small functions marked
`external_body`. Their contracts are not proved; each says in its comment which function it calls
and what it claims of it.

## The program, `app/`

`main.rs` starts the program, `driver.rs` does what the application asks for, `session.rs` and
`screen.rs` run the terminal, and `store.rs` with `records.rs` keep the state as JSON files. It
holds no rules of its own, but for what is computed in floating point: percentages and the mixing
of colours.
