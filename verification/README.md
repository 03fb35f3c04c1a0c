# courseforge

The core of Courseforge, a desktop tool for recording and editing video
courses, as a Verus-verified library.

- `src/` is the library. Every function in it carries a `requires` /
  `ensures` contract that Verus proves: the Course skeleton and its
  operations (with the workflow and structure invariants each one keeps),
  Scenes, capture requests and sidecars, the recording state machine and
  the registry of open sessions, the edit log's undo/redo replay, the
  transcription queue and export jobs, SubRip captions, the ffmpeg filter
  graph and progress stream, the naming of every file in a Course Folder,
  the orderings the folder scans report, window labels, model downloads,
  and the UTC timestamp format. Laws that relate several operations are
  public proof functions next to the code they are about.
- `app/` is the ordinary Rust around it: reading and writing the JSON files
  of a Course Folder, walking folders, the clock, downloads, the export
  worker with its ffmpeg backend, the recording and transcription workers
  (driven here by stand-in backends: the macOS capture frameworks and the
  Whisper runtime are not part of this build), and the floating-point
  timeline maths of cuts.
- `tests/` runs the library on concrete values.

`std::path` queries, `String::push`/`pop` and UUID generation are reached
through small trusted wrappers; everything else in `src/` is proved.
Device enumeration answers as a machine without the macOS capture
frameworks does: no devices for any role.
