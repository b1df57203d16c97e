# Sift

Safe, local-first filesystem organization: `sift` previews how a folder
would be organized by file type (or by date), applies a plan only with
`--apply`, records every run in a history journal so moves can be undone,
and can keep a folder organized continuously with `sift watch`.

## Layout

- `src/` is the verified library. The decisions the tool makes are here,
  with a contract proved by Verus:
  - `classifier`, `config`, `planner`, `explain`: classification, policy
    resolution (`.sift.toml`), and the organize/clean plans, including the
    recursive walk; `meta_template` and `meta_plan`: the `audio`, `video`,
    `photos` and `documents` strategies (templates such as
    `{artist}/{album}` rendered from a file's own metadata). Planning never touches the filesystem itself: it asks
    questions (`Query`) and is called again with the answers
    (`FsSnapshot`), so a plan is a function of what was observed.
  - `executor`, `recovery`, `history`: the write-ahead execution machine,
    reconciliation of interrupted runs, and undo selection.
  - `folders`, `scanner`, `metadata`, `content`, `box_tree`, `update_check`, `utils`:
    folder moves, scanning and `doctor`, content metadata (EXIF, audio
    tags, PDF and Office properties, MP4 headers) and date parsing,
    release checks.
  - `watch::*`: stability windows, candidate eligibility, the watch
    registry state machine and the daemon's reconcile decisions.
  - `render`, `preview`, `report`, `folders_view`, `watch::status`: the
    exact text of every human-readable view, as lines.
- `app/` is the command-line program around the library: argument
  parsing, filesystem and process I/O (including the last-moment checks
  made on the filesystem right before each rename), JSON output, the
  watch daemon loop, the optional `ffprobe` video backend, and the few
  renderings that need floating point (sizes, percentages, frame rates).
- `tests/` exercises the library on concrete inputs.
