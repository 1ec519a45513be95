# robinne

The text and filter logic of a local task and note taking application, with
its behaviour stated in contracts and proved with Verus.

- `parsing`: the quick-input syntax (`!!` / `!` priorities, `#tag` and
  `@person` words), tag and person lists, and writing tags and people back
  into a text.
- `metadata_autocomplete`: finding the tag or person word under the cursor,
  ranking catalog entries for it, inserting the chosen one, and the menu state.
- `search`, `search_text`, `search_requests`: the filters of the search
  panel and which chips show as picked, the order of its results, the store
  query a change asks for and which replies are still current, highlighted
  match ranges and result previews.
- `import_review`: when an archive import may be applied, and the conflict
  resolutions that go with it.
- `summary_guard`: the checks before a summary is requested (date range,
  a context with records, an API key).
- `task_filters`: the task panel's priority and tag filters and its
  urgency–importance matrix.
- `name_set`, `metadata_filters`: sets of selected names and the summary
  panel's filters.
- `text_preview`, `record_display`, `number_format`, `dates`, `attachment`:
  how titles, previews, sizes, times and attachments are shown.
- `quick_add`: the quick-input window's mode, session and Escape/submit
  decisions.
- `strings`, `unicode`, `ordering`, `models`: character sequences, UTF-8
  byte offsets, name order, and the shared data types.

Rendering, windows, the data store and the system clock and time zone stay
with the application around this library; it receives their results as plain
values. Instants are nanoseconds since the Unix epoch.
