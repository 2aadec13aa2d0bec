# scriptor_crdt

A word-processing document as a replicated data type: the paragraphs, those of table cells among
them, and their formatting live in a [loro](https://crates.io/crates/loro) document; the rows,
columns and cells of a table are kept beside it. All of it is read from and written to the XML parts
of a `.docx` package. The library is written in Verus; each function states what it returns or
changes, and the proof that it does is checked with the code.

## Layout

| where | what |
| --- | --- |
| `strs`, `search`, `strmap`, `keys` | text and maps |
| `types` | runs, paragraphs, tables and their views |
| `events`, `xml` | the tokens of an XML part, escaping |
| `spans`, `paragraph`, `drawing`, `para`, `tables`, `headers`, `export` | writing a body |
| `import_text`, `import_table`, `import`, `intake`, `ranges` | reading a body |
| `styles`, `style_parse`, `style_xml`, `numbering`, `comments`, `rels`, `sections`, `package` | the other parts of a package |
| `drawings`, `textboxes`, `passthrough` | pictures, text boxes and what is carried over verbatim |
| `store`, `doc`, `json` | the replicated document and the values that it keeps |
| `runs`, `props`, `read`, `writing`, `containers`, `grid`, `host` | what stands for a document in it |
| `edits`, `anchors`, `formatting`, `structure`, `revisions`, `places` | editing |
| `readback`, `runback`, `styleback`, `commentback`, `gridback`, `walkback`, `sequence`, `splitting`, `resolving`, `reverting`, `moving`, `settling`, `alike` | laws that span several functions |

`store`, `json` and `events` hold the calls into loro, serde_json and quick-xml. Their contracts are
taken on trust; each says in its comment which function it stands for. `app/` measures the lengths
of VML shapes, which takes floating-point numbers.

A mathematical value ends in `V` (`RunV` is the value of a `Run`), and a specification function ends
in `_s`. Laws are the public proof functions whose names begin with `law_`.
