# wrkflw_ui

The logic behind wrkflw's terminal views and its microVM runtime, written in
Verus and proved against its contracts.

- `src/` — the verified library:
  - `gantt` — the Gantt tab: time domain of a run, rows, bar placement,
    ruler, header and the cursor/viewport.
  - `job_detail` — the step inspector: parsing a step's captured output back
    into command/stdout/stderr, the Output/Env/Files panes, wrapping and
    scrolling, the steps list and tab strip.
  - `matrix_view` — the Matrix pane: axes, strategy chips, the combination
    grid and its column order.
  - `timing` — the per-job timing chart and the step timeline rows.
  - `models` — the workflow, job and step models and the log filter.
  - `progress` — live progress events.
  - `microsandbox` — what the `msb` command line is asked and what its
    answers mean.
  - `text`, `style` — character helpers and style roles.
- `app/` — ratatui drawing, `msb` processes, the progress sink and the
  conversions from clocks and YAML values.
- `tests/` — tests of the library.
