# fulgur_core

The decision logic of the Fulgur text editor for everything that reaches it from
outside, written and proved in Verus.

- `open_request`: `file://` URLs and bare paths, resolved to files
- `external_sources`: files from the command line, and files dropped onto a window
- `ipc`: the messages between two processes, and the queues that they fill
- `pending`: what a window does about those queues
- `focus`: which window handles them, and which minimized windows come back
- `dock`: tabs activated from the dock or task bar menu
- `menu`: the snapshot of a window's tabs from which the menus are built
- `startup`: arguments, a running instance, and the windows to open
- `window_activation`: bringing back minimized windows
- `assets`: the files that the program carries
- `fulgur`, `file_path`, `search`, `text`: windows, paths and shared helpers

The functions take what was read from outside (whether a path is a file, which
window was focused last) as arguments and return what is to be done. Laws that
relate several functions are the proof functions named `law_*`.

Two functions are trusted: `urlencoding::decode` and `std::path::Path::is_absolute`,
both in `open_request`.

`app/` is a console front end on top of the library.
