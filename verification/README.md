# packetsmith

The core of PacketSmith, a local-first API client, as a library whose
behaviour is stated in `requires`/`ensures` contracts and proved with Verus.

Layout:

- `src/` — the verified library: template variables and their resolution
  (`template`, `resolver`, `annotations`, `dynamic`), the text buffer
  (`buffer`), commands and key bindings (`command`), settings (`settings`),
  environments and their editor (`environments`, `env_editor`), the
  workbench layout (`workbench`), HTTP models, URL/parameter synchronization
  and response formatting (`http`, `url_sync`, `response`, `json`), what the
  request editor sends (`desktop`), vault policies (`vault`), cache rules
  (`storage`), UI tokens and notifications (`ui`, `shell`), workspace rules
  (`workspace`), how collections are named, scanned, searched and shown as
  breadcrumbs, and what moving, duplicating and reordering them decides
  (`collection`), the steps of an HTTP execution (`executor`)
  and shared text helpers (`text`).
- `tests/` — tests run against the compiled library.
- `app/` — the desktop shell: window state, file and keychain I/O, the
  collections directory walk and the file operations on collection
  resources, the SQLite cache and network transfers, each
  handing plain values to the library and acting on what it returns.

Text buffer columns are byte offsets into a line's UTF-8 text, as with
`String`; bracket matching and JSON tokens count characters.
