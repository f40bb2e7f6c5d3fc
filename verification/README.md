# gpui

The logic of a GPU-accelerated UI framework, verified with Verus: what every
function does is stated in its contract and proved.

- Scenes: `scene`, `scene_model`, `presentable`, `primitives`, `path`, `transform`, `color`,
  `geometry`, `bounds_tree`, `stable_sort`; their batches: `batches`; what moves with
  time: `animation`; what is dropped: `glyph_drops`.
- Text: `line_layout`, `line`, `line_cursor`, `line_paint`, `line_background`,
  `text_paint`, and text whose memory is admitted first: `text_allocation`.
- The texture atlas: `metal_atlas`, `texture_list`, `atlas_page` (packed by `etagere`),
  `tile_table`, `key_table`, `atlas_key`, `atlas_tile`.
- Around them: `gestures`, `capacity`, `render_memory`, `thread_park`, `deferred`,
  `util`, `window_appearance`, `manifest_resource`.
- Laws that relate several functions are public proof functions named `law_..`; the
  longer ones stand in `batch_laws`, `present_laws`, `motion_laws`, `scene_laws`,
  `replay_laws`, `finish_laws`, `line_laws`, `hit_laws`, `retire_laws` and `number_laws`.

Numbers go through the `Scalar` trait of `scalar`. `fixed` is a verified instance;
`app/pixels.rs` is the one that windows use. `app/` holds what touches the machine:
clocks, process-wide state, settings, the GPU and the window.
