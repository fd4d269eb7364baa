# mosty

mosty ("MOu Seiseki Teisei ha Yadayo") detects misaligned cross-sheet references in
grade workbooks: a formula in the row of one student that refers to the row of
another student in another sheet.

It works in two passes:

1. `mosty init` estimates, for each sheet, the column of the student ids, the
   column of the names, and the rows of the students, and writes them to a config
   file in JSON5 (`mosty.<EXCEL_FILE>.json5`) with the evidences as comments.
2. `mosty check` reads the config, and reports the references from student rows to
   rows of other students, ranges that span several students, duplicated ids, ids
   outside the tables, and sheets that are only in the workbook or only in the config.

## Layout

- `src/` is the library, verified with Verus: cell addresses (`cell`), the formula
  scanner (`formula`), student ids (`student`), the values of the workbook and
  their resolution (`workbook`), student tables (`table`), the config (`config`),
  the checker (`checker`), the estimator and its config file (`estimator`), the
  problems (`problem`), and the text outputs (`output`). Each public function states
  its result in its contract, and the laws of the library (round trips of
  addresses and strings, what the checker reports, what the estimator chooses) are
  proof functions.
- `app/` is the command: arguments, logging, reading Excel files, reading the
  config file, and writing the results (JSON among them).
- `tests/` runs the library on concrete values.
