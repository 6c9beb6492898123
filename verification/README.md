# Chrome Hub

A macOS menu-bar app switcher with a window-level drill-down. `⌘ Tab` shows
every open app with a thumbnail of its front window; stepping into an app shows
its *sub-dock*, all of its windows. For Google Chrome the sub-dock also shows a
colour-coded profile per window.

What the hub decides is a library, verified with Verus. What only macOS can do
(listing apps and windows, asking Accessibility, capturing thumbnails, drawing)
is ordinary Rust around it.

## Shortcuts

| Keys | What it does |
| --- | --- |
| `⌘ Tab` | App switcher: hold `⌘`, tap `Tab` to cycle apps (most recently used first), release `⌘` to switch. A quick tap jumps to the previous app. |
| `` ⌘ ` `` / `Space` (hub open) | Steps into the selected app's windows. Further presses cycle through them. |
| `⌥ Tab` | The Chrome sub-dock as a switcher: release `⌥` to switch. |
| `` ⌥ ` `` | The Chrome sub-dock to browse: stays open. |
| `← → ↑ ↓` / `Tab` | Move the selection. |
| `1` – `9` | Jump straight to that app or window. |
| `⏎` / click | Activate the selected app, or focus the selected window. |
| `⌫` / `Esc` | Delete a search character / clear the search / back up to the apps / close. |

## The library (`src/`)

- `sequences` – facts about filtering sequences.
- `text` – searching, splitting, trimming and ordering texts.
- `chrome` – Chrome's window titles: tab title and profile.
- `windows`, `windows_laws` – the lists of apps and windows: which windows are
  real, what Accessibility adds to them, and the order of the apps.
- `hub`, `hub_laws` – the hub's state: its two levels, search, selection.
- `events` – what each key, click and system event does to the hub, and what
  has to happen outside of it in turn (`Effect`).
- `cards`, `layout` – what cards and header say, and the grid.
- `summary` – the diagnostics of `CHROMEHUB_DEBUG`; never titles.
- `focus`, `capture`, `tap`, `hotkey`, `modifiers`, `mru` – the rules around
  Accessibility, thumbnails, the event tap, hotkeys, modifier keys and the
  activation history.

Lengths that macOS gives in points are thousandths of a point here.

## The app (`app/`)

AppKit, Accessibility, ScreenCaptureKit, Carbon and the event tap, through
`objc2`. It builds on macOS only.
