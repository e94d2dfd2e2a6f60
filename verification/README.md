# fbc_host

Host-side library and command-line tool for the FBC burn-in system: the
`.fbc` compressed vector format with its compiler and decompiler, the `.fvec`
text format, the raw-Ethernet packet protocol spoken with the boards, the
`.fbd` binary datalog, pin-table extraction from CSV, Excel and PDF files, and
the parsers behind the host tools and the desktop front end.

The library in `src/` is written in Verus: every function carries a contract
and is proved against it. The main laws it states and proves:

- compiling an `.fvec` program and decompiling the `.fbc` file gives back
  every vector of the program, repeats expanded (`vector::roundtrip`);
- a written `.fbc` file reads back with the same header, stored CRC, pin
  configuration and data (`vector::format::lemma_file_roundtrip`);
- the bytes a datalog writer hands out, with its footer, read back as the
  records written, with a body CRC that verifies (`datalog`);
- vectors and MAC addresses printed as text parse back to themselves;
- upload chunks, one after another, carry the whole image (`client`);
- a vector's pin list and hex text give the vector back
  (`vector::pin_lists`).

Calls into outside crates (CRC-32, UUIDs, the clock, the CSV reader,
Unicode case mapping) sit behind small trusted wrappers whose doc comments
say what each one is believed to do. Workbooks and PDF files are read in
`app/`, which hands the library the cells or the text it found.

## Layout

- `src/codec.rs`, `src/crc.rs`, `src/text.rs`: byte order, CRC-32 and text
  helpers with their specifications.
- `src/vector/`: `.fbc` format, `.fvec` parser, compiler, decompiler,
  statistics and the round-trip proofs.
- `src/fbc_protocol/`, `src/client.rs`: packet framing and the payloads of
  each board command and reply.
- `src/datalog.rs`: the `.fbd` writer and reader.
- `src/cli.rs`, `src/cli_args.rs`: argument parsing of the host tool.
- `src/sonoma*.rs`, `src/pip_db.rs`: Sonoma controller registers, command
  output parsing and the part-information database.
- `src/gui/`: the desktop front end's logic (rack layout, realtime
  decoding, exports, terminal commands, pin-table extraction).
- `app/`: the command-line tool: argument handling, the raw socket, SSH to
  Sonoma controllers, reading pin-table files, and printing.
- `tests/`: tests of the library, run against the real outside crates.
