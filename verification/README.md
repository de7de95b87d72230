# dockman

A dock for wlroots-based Wayland compositors: one icon per pinned app and per open
window, a window-list popup on hover, a context menu on right click, and a set of
companion tools (a demo panel and window monitors).

The decisions the dock makes are in `src/`, verified with Verus:

- `dock` – the pointer state machine: hover popup, context menu, clicks, and the
  actions handed to the caller.
- `layout`, `render`, `canvas`, `glyphs` – where icons, indicators, menus and glyphs
  go on the shared-memory canvas.
- `windows`, `panel`, `tracker` – the tables of toplevel windows and how compositor
  events change them.
- `desktop`, `icons`, `raster`, `paths`, `text`, `strmap` – desktop files, icon
  lookup, image decoding, path and string helpers.
- `persistence` – pinned apps and cached icons.

`app/` holds the Wayland plumbing, file access, font rasterization and the
floating-point blending that draws icons and text.
