# claurst

Two services of a coding assistant, as a verified library:

- `auto_review`: the background review of what a conversation turn has done to files. It picks the
  changes worth a review, excerpts them, writes the prompts of the review agents, and decides what
  becomes of their reports.
- `freellmapi`: the use of a local FreeLLMAPI server as the default provider. It decides whether the
  server is needed, leads it step by step to being ready, and sets it up in the settings.

`text`, `order` and `path` are the vocabulary of both: texts as sequences of characters, their
order, and file paths as text, by the rules of Unix or of Windows.

The public functions named `law_..` state what holds of the library as a whole.

`app/` holds what is around the library: HTTP, files, processes and background tasks. `tests/` runs
the library, and holds its text and path functions against those of the standard library.
