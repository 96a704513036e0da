# dashcam-hud

Renders a videogame-style telemetry HUD (speedometer, G-force radar, compass
bar, GPS tag, mini-map) from the GPS and accelerometer data that ExifTool
reads out of Vantrue dashcam footage, and hands the frames to ffmpeg or
writes them as PNG files.

The library under `src/` is verified with Verus:

| module | what it states and proves |
|---|---|
| `elements` | widget presets and the per-widget switches |
| `text`, `fields` | `str` operations (trim, split, parse) and the grammar of DMS coordinates, date-times, speed units and `Doc` names |
| `calendar` | days since 1970-01-01, with the calendar laws |
| `plan` | grouping ExifTool's flat JSON keys into `Doc` blocks in play order |
| `canvas`, `font`, `draw`, `panel` | pixel writes, alpha blending, the bitmap font, lines and circles, the glass panel |
| `compass`, `gauges`, `gps_tag`, `widgets` | the widgets' integer geometry and their fixed decorations |
| `pipeline`, `reorder` | frame count and sample pairs, G-force history, writing frames in index order |
| `ffmpeg` | the encoder settings and the full ffmpeg command lines |
| `fit` | run-time tests of the drawing functions' coordinate bounds |

`app/` holds the command line, ExifTool and ffmpeg processes, the thread
pool, and everything computed on floating-point values (interpolation,
dial angles, map projection, number formatting).  `tests/` exercises the
library on concrete values.
