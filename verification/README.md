# lit_html

Rust support for the [lit-html](https://lit-html.polymer-project.org/) template
library, with its logic specified and proved.

- `src/data.rs` — `TemplateData`, the properties a template is rendered with,
  modelled as the JavaScript object it becomes (assignment replaces in place,
  new names go last), with the read-after-write laws proved.
- `src/events.rs` — key and mouse events, their handlers, input elements.
- `src/codegen.rs` — the expansion of the `template` attribute: the struct is
  parsed with `syn`, and the builder and `Template` impl are generated; the
  generated text is specified exactly.
- `src/text.rs` — decimal numerals and joined lists used by the generator.
- `app/lib.rs` — the JavaScript side: building the object from `TemplateData`,
  registering callbacks, reading DOM properties, rendering, and the entry point
  of the attribute.
