# calendar_pdf

The verified core of a printable calendar (a year overview page and month
pages, drawn on screen with egui or exported to PDF with printpdf).

- `src/calendar.rs`: dates as chrono knows them (trusted calls into chrono for
  construction, weekday, previous and next day), the Gregorian day count that
  states them, and the six-week, Monday-first grid of a month.
- `src/page.rs`: the ordered drawing commands of a page, each in a named region.
- `src/pdf_ops.rs`: a PDF content stream with a colour and width cache that
  writes a style only when it changes.
- `src/style.rs`: colours, widths and fonts.
- `app/`: the eframe application, the floating-point geometry of regions, and
  the conversion of commands to egui and printpdf calls.
