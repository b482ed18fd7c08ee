# chainvet_web

The logic behind the Chainvet web UI server, verified with Verus: reading
analyzer reports into findings and ordering them, cutting the analyzer's error
stream into warnings and classifying them, the summary cards, the directory
listing, the one-job-at-a-time analysis state with its progress, status and
cancellation, and the report that sums up a directory analysed file by file.

- `src/` is the verified library (one module per concern: `text` and `order`
  hold the character-level model and the stable sort that the rest build on).
- `app/` is the HTTP server around it (axum and tokio, reading the file
  system into the tree the library works on, the analyzer process, and
  printing JSON).
- `tests/` runs the library on concrete inputs.

The UI's static files (`index.html`, `app.js`, `styles.css`) are served from an
`assets` directory in the working directory.
