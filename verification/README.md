# Desktop Organizer

Sorts the icons of a Windows desktop onto cards: by kind, in grids or lists, on translucent cards with
rounded corners that can be moved, resized, scrolled, hidden and stored.

The library under `src/` is verified with [Verus](https://github.com/verus-lang/verus). Every function
states what it returns or changes, and the laws that hold over several functions are proof functions
whose names begin with `law_`.

| Module | What it holds |
| --- | --- |
| `scanner` | kinds of items, displayed names, the order of the list |
| `layout`, `layout_laws` | the cards, their places, what a point hits |
| `geometry`, `scroll` | lengths that grow with a card, lines and scroll offsets |
| `saved`, `settings` | what is stored, and how it comes back |
| `paint`, `paint_laws` | what is drawn for a card, step by step |
| `color`, `pixels` | brightness, rounded corners, opacity |
| `renderer`, `renderer_laws` | frames, for the whole screen or for damaged parts |
| `desktop`, `desktop_laws` | the events of the desktop as a state machine |
| `hook` | clicks beside the cards |
| `panel` | the settings panel |
| `launch` | arguments, messages, the report of a scan |
| `single`, `text` | single-precision rounding on integers, texts |

Lengths, colours and coverages are computed in single precision, as a graphics system would. The library
does this on integers, in multiples of a power of two, so that every rounding is part of the contracts.

The program under `app/` holds what needs the system: windows, drawing, files, the registry, the shell.
It takes over the desktop on Windows, and stores its files in `%LOCALAPPDATA%\DesktopOrganizer`.
