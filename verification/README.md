# soundar_video

Canonical video projects for a speech and video studio, as a verified library.

A project is one document, the manifest. It holds the source media, the timeline that places them,
the captions, the cast and what they say, and the history of how it came to be. The library holds the
rules that a project obeys and the pure functions that read and change it. What each function returns,
and when it refuses, is stated in its contract and proved.

## Layout

`src/` is the library.

- `error`, `text`, `bytes`, `words`, `order`, `model`, `doubles`, `decimals`, `digest`: what everything else
  is written with.
- `time`, `timeline`, `rules`, `manifest`, `validate`, `manifest_rules`: the document and its rules.
- `edit_shared`, `ownership`, `split`, `trim`, `merge`, `round_trip`, `reorder`, `operations`, `score`,
  `stages`, `editor`: edits of the timeline, and what they make stale.
- `cast`, `dialogue`, `lexicon`, `listening`, `format`, `cover`: scripts, voices, shows and what an episode
  turned out to be.
- `evidence`, `transcript`, `candidates`, `scene_plan`: from transcription evidence to a reviewed timeline.
- `notation`, `caption_presets`, `captions`, `caption_pages`, `canvas`, `caption_layout`, `subtitles`,
  `style_lines`, `preview`: captions.
- `spans`, `filters`, `layers`, `inputs`, `assembly`: the plan that renders a timeline.
- `cache`: content addresses of work, and what a change makes stale.

`tests/` runs the library. `app/` is the studio around it: stored documents, files and the programs that
render.

## What is trusted

Digests come from `sha2`, quoted JSON text from `serde_json`, and the reading of timestamps from
`chrono`. A few functions of the standard library on characters and strings carry a contract of
their own in `text`. Everything else is proved.
