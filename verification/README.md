# Paper2Voice

Paper2Voice turns the text of a PDF into an audiobook. The library in `src/` holds
what decides how the audiobook comes out, written in Verus and proved against its
contracts:

- `clean`, `chunk`, `book`, `prepare`: the text of the pages is cleaned and split
  into chunks, each of which knows its page;
- `mode`, `queue`, `progress`: how fast a paper is converted, in which order its
  chunks are spoken, and what happens when one cannot be spoken;
- `wav`, `audio`: the audio of the chunks is merged and exported;
- `output`, `search`, `tts`, `session`, `errors`: where files are kept and programs
  are found, how programs are called, what is kept between two runs, and what the
  user is told when something fails;
- `text`, `numbers`, `paths`: texts, numbers and paths.

What holds of every paper is stated in the proof functions whose names start with
`law_`:

- cleaning keeps the words of all lines that are not page numbers, once words that
  are broken at a line end are joined, and chunking keeps every word;
- no chunk is longer than its limit unless it is a single word, and a chunk that is
  chunked again stays as it is;
- paragraphs that all fit the limit, and words, take no more chunks than any other
  way to fill chunks in order;
- every chunk is spoken once;
- the merged audio is the audio of all chunks;
- an audiobook never leaves its folder.

The library calls `regex` to clean text, `hound` to read and write WAV files and
`serde_json` to read and write the saved session. The functions that make these
calls are marked `external_body`; their contracts are believed, not proved, and so
is the contract that `text` gives to `String::push`.

`app/` is the desktop application around the library: the window, files, processes,
threads and everything that is measured in floating-point numbers.
