# lnms_invoice

Monthly traffic invoices for customers whose ports are measured by LibreNMS.

A billing run asks LibreNMS for the samples of every customer's bills, takes the 95th percentile,
applies the rate that holds at the beginning of the month, fills a spreadsheet template, puts the
traffic chart into it, converts it into a PDF preview, and records every step. A preview is then
confirmed or rejected.

## Layout

- `src/` is the library, verified with Verus.
  - `store/` holds the tables and every operation on them: servers, customers, ports, rates, users,
    invoices, actions, runs, settings, sequences, templates, and the changes to their layout.
  - `billing/` holds percentiles, amounts, schedules and the billing run.
  - `runner.rs` holds the life of an invoice, `recall.rs` reads back what one was made from.
  - `render/` holds what is written into a template, the picture in it, and the call of LibreOffice.
  - `template/` holds what is found in a template: cells, drawings, pictures, digests, and what a
    filled one must not hold.
  - `archive.rs` reads and writes ZIP packages.
  - `librenms.rs` holds addresses and what to do with each reply.
  - `dates.rs`, `text.rs`, `chart.rs`, `config.rs`, `cli.rs`, `domain.rs` and `error.rs` hold the rest.
- `tests/` runs the library.
- `app/` is the program: the command line, the database, HTTP, files, charts and LibreOffice.

Amounts are whole cents. Days are texts such as `2026-08-01`. Rates of traffic are compared by
integers that order as they do; floating point stays in `app/`.
