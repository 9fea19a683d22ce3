# termmd

A Markdown viewer for terminals that can do more than plain text. The part of it that
decides and computes is a library whose behaviour is stated in contracts and proved
with [Verus](https://github.com/verus-lang/verus).

## Layout

- `src/` is the verified library.
  - `markdown/`: the document tree, built from `pulldown-cmark`'s events; HTML in
    Markdown, heading slugs, and links rebased onto where a document came from.
  - `render/`: the tree laid out into styled lines; line breaking, tables, lists, code
    blocks, mathematics, and images as the lines reserve room for them.
  - `term/`: colours, styles and their escape sequences; what a terminal can do, from
    its environment and from what it answers; the clipboard.
  - `images/`: pictures, and the kitty, iTerm2, sixel and half-block encodings of them.
  - `pager/`: the interactive pager as a state that keys and clicks act on; search,
    panels, links, and the frames it draws.
  - `source.rs`, `config.rs`, `cli.rs`, `theme.rs`, `report.rs`: where documents come
    from, settings, themes, and what is printed.
- `tests/` runs the library on concrete values.
- `app/` is the program: arguments, config files, file and network access, the terminal.

## What is proved

Every function says what it returns or changes, over sequences of characters and plain
values. Laws that hold across functions are public proof functions beside them: that
no slug is given out twice, that wrapped lines do not run over and keep their words,
that highlighting keeps the text up to the first line that a grammar fails on, that
sixel data is legal, that no key moves the pager out of its document.

## What is not

Calls into other crates stand behind small functions marked `external_body`, each with
a comment that names the call and says what is believed of it. Where a result takes
pages to describe, such as the events of a Markdown parser, it has a name and no
definition, and contracts speak of it by that name.

Paths are POSIX paths: parts between slashes, absolute where they start with one. What
is said of them, and of `std::path::absolute` in `markdown/rebase.rs`, holds on POSIX
systems. `hyperlink_uri_on` writes links to Windows paths too.

Pictures are scaled and sent in eight or in sixteen bits, as they came. Samples in
floating point are taken over in eight bits; a picture that has them is drawn in sixels
and in half blocks alone, as no PNG file can hold it.
