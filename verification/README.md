# better_tokio_select

`#[tokio_select]` is `tokio::select!` written as a `match` that `rustfmt` can
format:

```txt
(biased,)? match .. {
    .. if let <pattern> = <future> (&& <condition>)? => <handler>,
    _ => <handler>,
}
```

becomes

```txt
::tokio::select! {
    (biased;)?
    <pattern> = <future> (, if <condition>)? => <handler>,
    else => <handler>
}
```

Layout:

- `src/` is the verified library. `read` takes the macro's raw input tokens:
  it reads a leading `biased,`, has syn parse the `match` and reads it into
  the model (`input`); what is read (arm count, pattern shapes, guard
  tokens, scrutinee shape, attributes) is stated against named facts of
  syn's parse of those tokens. `guard` splits each guard at its first top-level `&&`;
  `expand` checks the input and builds the branches or the errors, each
  branch carrying the binding syn parsed from its own guard; `errors` holds
  the messages; `laws` states and proves the rewrite's laws. The calls into
  `syn` and `proc_macro2` are in `syntax`.
- `app/` renders the expansion into tokens with `quote`.
- `tests/` runs the library on concrete inputs.
