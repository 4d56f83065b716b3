# property_photos

The verified core of a desktop tool that manages real-estate photo shoots on
disk. Each property lives in a folder `{status folder}/{city}/{name}` (with
` ({code})` appended once it has a listing code), holds its original photos,
and gets `INTERNET`, `WATERMARK` and `AGGELIA` subfolders as it is worked on.

`src/` is a Verus library: every function there carries a contract that
Verus proves. It covers

- path safety (`paths`, `components`): joining untrusted segments onto a
  root without escaping it, under Unix or Windows path conventions, and
  comparing paths component by component (under Unix conventions);
- the folder layout (`folders`, `naming`): status folders, full paths built
  as `PathBuf::join` builds them on Unix or Windows, folder names with
  codes and reading them back;
- planning edits and repairs (`edits`, `repair`, `scan`, `sets`): moving,
  renaming, importing and archiving property folders;
- file listings and batches (`files`, `listing`, `thumbnails`, `gallery`,
  `viewer`, `batch`, `aggelia`);
- the integer parts of image processing (`grayscale`, `clahe`, `tonal`,
  `scaling`, `perspective`);
- errors and their JSON form, and base64 text of images (`errors`,
  `encoding`).

`app/` is a thin unverified command-line shell: it reads the configuration
and the folders on disk, hands the library plain values, and performs some
of the plans it gets back (folder setup, copies, clears, renames, status
moves, launching viewers and editors). Thumbnail generation and the AGGELIA
fill it only plans and prints, and it has no command for completing a set,
importing scanned folders or storing repairs: those need image decoding,
ZIP writing or the database, which the shell does not carry. It also holds
the floating-point CLAHE and histogram analysis. `tests/` runs the library
on concrete values.
