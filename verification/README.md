# pulldown-cmark-to-cmark

Renders the events of a Markdown document back to Markdown, verified with Verus.

- `src/` is the library. `model.rs` says which text each event adds to a document and which state it
  leaves, `laws.rs` and `laws/` what follows from that for every document, and the other modules hold
  the code that is proved to write this text and no other.
- `app/` connects the library to the events of `pulldown_cmark` and to any `std::fmt::Write`.
- `tests/` runs the library on single events, on documents, and on sinks that refuse text.

```rust
let mut buffer = String::new();
let state = cmark(&[Event::Start(Tag::Emphasis), Event::Text("hi"), Event::End(Tag::Emphasis)], &mut buffer)?;
assert_eq!(buffer, "*hi*");
```
