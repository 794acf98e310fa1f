# turbo_html2pdf

The verified core of a paged HTML/CSS engine: from final HTML and styled trees to
box trees, galleys of positioned fragments, pages, and the objects that a stamp adds
to a finished document.

- `src/` is the library. Every function states what it returns, and Verus proves it.
  - `scan`, `number`: text and numbers. All lengths are whole millionths.
  - `markup`, `node`, `style`, `cascade`, `html_layout`, `data_uri`, `page_html`: reading
    a page.
  - `image`: image formats, sizes and samples.
  - `text`: font faces and how one is chosen.
  - `layout`: style values, box generation, tables, flex and grid styles, and the
    engine (`engine` says what is laid where, `flow` does it, `flowlaws` and `boxlaws`
    say what always holds).
  - `paginate`, `render`, `emit`: pages, running regions, and paint order.
  - `tags`, `switch`, `template`: the tags of a template source, the `switch` statement
    written out, compiled templates, and what is made of the engine's answers.
  - `pdf`, `stamp`, `stamp_font`: objects, watermark overlays, and font transplants.
- `app/` is ordinary Rust around it: running templates, the flex and grid solver,
  painting, fonts of the system, and files.
- `tests/` runs the library.

Layout asks for three things from outside: paragraphs broken into lines, the places of
flex and grid items, and the functions of a transform's angle. It stops with a request
where the next one is missing, and is run again with the answer added.
