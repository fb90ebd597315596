# embassy_boards

Board support data structures for Embassy firmware, verified with Verus.

- `memory`: constant memory layouts (regions, sections placed one after the
  other at aligned offsets, aliases) and lookups by name.
- `linker`: the `memory.x` linker script of a layout.
- `config`: board memory definitions as a board file gives them (numbers or
  size expressions such as `"2MiB - 256B"`), their validation, section
  resolution, and the generated `memory.x` and Rust source.
- `mpu`: Cortex-M7 MPU register values for the regions and sections that
  carry MPU attributes.
- `shared_queue`, `mailbox`: the inter-core message queue, whose slots are
  held inline so that a queue placed in a shared section carries its
  messages, and where its two instances live in a dual-core layout.
- `texture`, `fonts`, `terminal`, `color`, `log_widget`: the text terminal's
  texture atlas, glyph cache, geometry, colors and log history.
- `touch`, `led`, `panel`, `wifi`, `board`: touch reports, LED pin levels, the
  ILI9341 start-up, the Wi-Fi connection loop and the SDRAM buffer plan.

`app/` holds the command-line tool that reads a memory definition file and
prints what is generated from it, and the glue that moves the library's
decisions onto hardware.
