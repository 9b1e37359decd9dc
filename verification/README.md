# floptle_editor

The decisions of a game editor, as a library whose every function is proved
against its contract: what is selected and what a drag acts on, what the Scene and
Game views show, how shaders are compiled, bound and drawn as graphs, which lights
and sprites a frame is made of, how bodies on rails change from frame to frame, how
a second run of a match follows its log, and how a picture is taken or a build is
shipped.

- `src/` is the library. Positions, colours and other numbers with a fraction come
  in as their order, as their bits, or as the answer to the question that was asked
  of them; the library does not compute with them.
- `tests/` holds examples of what each function does.
- `app/` is what stands round the library: files, pipes, the device, the screen, and
  arithmetic on floating-point numbers. The engine is handed in through traits.

| modules | what they decide |
| --- | --- |
| `selection`, `scene_tab`, `viewport_marks` | selecting, dragging, and what is painted over the views |
| `settings_ui`, `settings_retro` | the settings of a project |
| `shader_graph`, `shader_graph_acts`, `shader_graph_view`, `shader_palette`, `shader_preview`, `shaders`, `lanes` | shaders: graphs, previews, compiled files, slots and lanes |
| `shading`, `sprite2d` | lights, fog, water, skies; tiles, sprites and their stacking |
| `space`, `space_tick`, `system_gen`, `script_actions`, `script_meta` | orbits, generated systems, scripts and their parameters |
| `shadow`, `shot`, `shot_run`, `ship`, `ship_run`, `steam_boot` | second runs of matches, pictures, shipments, Steam |
| `text`, `number_words`, `paths`, `lists`, `key_sets`, `order`, `table`, `json` | what the others are built from |
