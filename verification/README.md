# ttml_processor

Verified core of the tools around a TTML lyric database: reading and
writing TTML lyric files, checking submitted lyrics, writing them in other
lyric formats, and the texts and decisions of the submission bot.

- `src/` is the library, written in Verus and verified: `text` and `time`
  (text helpers, TTML clock values), `types`, `model` and `metadata` (the
  lyric model and its metadata store), `parser` and `generator` (TTML in
  and out, through `xml`), `tokenize` (automatic syllable splitting),
  `validator` and `checker` (publication checks), `lys`, `yrc` and `lrc`
  (line-based formats), `snippet` (rendering parse errors), `issue_text` and
  `bot` (the submission bot), `rebuild` (the database folders).
- `tests/` runs the library on concrete inputs.
- `app/` is the command-line program (`process`, `rebuild`, `bot`) that
  does the file, network and git work around the library, and the
  syllable smoothing, which computes in floating point.
