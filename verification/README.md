# simple-english

Writing rules for agent prose, verified with Verus.

The library enforces ASD-STE100 Simplified Technical English rules on prose
files, on the comments of source files, on git commit messages and on
assistant replies.

## Layout

| Path                  | Content                                                    |
|-----------------------|------------------------------------------------------------|
| `src/text.rs`         | Characters, byte offsets, trimming, searching              |
| `src/lines.rs`        | Splitting into lines and joining                           |
| `src/types.rs`        | Severities, violations, reports, configuration             |
| `src/prose.rs`        | Extraction of prose: fences, spans, tables, comments       |
| `src/sentences.rs`    | Sentence and paragraph segmentation                        |
| `src/segments.rs`     | Laws of sentences and paragraphs                           |
| `src/dictionaries.rs` | Phrase lists                                               |
| `src/vocabulary.rs`   | Laws of the phrase lists                                   |
| `src/rules.rs`        | The rules on prose lines                                   |
| `src/engine.rs`       | `lint`: length rules, suppression, order, the report       |
| `src/laws.rs`         | Laws of reports                                            |
| `src/diff.rs`         | Edits, changed lines, diff-aware linting                   |
| `src/commit.rs`       | Commit messages in shell commands                          |
| `src/feedback.rs`     | Feedback texts and the rule summary                        |
| `src/reply.rs`        | Reply identity, gate state, the last reply of an event log |
| `src/hook.rs`         | Payloads, and decisions for `tool.before`, `model.before`, `run.idle` |
| `src/status.rs`       | The status row                                             |
| `src/foreign.rs`      | Calls into other crates, with the contracts they are trusted for |
| `app/`                | The binary: stdin and stdout, files, environment           |

## Rules

| Rule ID                        | Default | Checks                                    |
|--------------------------------|---------|-------------------------------------------|
| `contraction`                  | hard    | `'re`, `'ve`, `'ll`, `'d`, `'m`, `'t`, `'s` contractions |
| `semicolon`                    | hard    | Any `;` in prose. Source comments are exempt. |
| `sentence-length`              | hard    | Sentences over 25 words                   |
| `paragraph-length`             | hard    | Paragraphs over 6 sentences. Off for source comments. |
| `phrasal-verb`                 | hard    | "carry out", "spin up", and so on         |
| `dictionary-not-approved-word` | hard    | Words that ASD-STE100 does not approve    |
| `invalid-suppression`          | hard    | Bad `ste-disable-next-line` directives    |
| `hedging`                      | soft    | "it is important to note", and so on      |
| `marketing`                    | soft    | "seamless", "robust", and so on           |

`verb-progressive`, `verb-passive` and `verb-perfect` can be configured and
suppressed, but find nothing.

## Configuration

`.simple-english.json` in the working directory, or the file that
`$SIMPLE_ENGLISH_CONFIG` names:

```json
{
  "rules": { "semicolon": "soft" },
  "max_sentence_words": 20,
  "max_paragraph_sentences": 8,
  "exempt_block_quotes": true
}
```

A paragraph cap of 0 turns the rule off.
