# Apex

The logic of a keyboard launcher for Windows, verified with Verus: type a few
letters, get a ranked list of applications, quicklinks and commands, and open
one.

`src/` is the library. Every function in it has a contract, and what the
library promises as a whole is stated in proof functions named `law_...`.

| Module | |
|---|---|
| `fuzzy`, `order`, `frecency` | how a query scores a name, how rows are ranked, the launch history and its file |
| `plugin`, `plugins` | what a plugin is; the application search, quicklinks, and the launcher's own commands |
| `app`, `window`, `messages` | the state of the launcher, what a key does, what a window message asks for |
| `editor`, `offsets` | text fields, and carets counted in bytes and in UTF-16 units |
| `render`, `scene`, `backdrop` | the layout, what a frame consists of, the blurred picture behind it |
| `config`, `rewrite` | reading the configuration, and changing single sections of it |
| `appindex`, `indexfile`, `icon` | the index of installed applications and its file, and icons |
| `launch`, `setup` | what is handed to Explorer, and what is registered at start |
| `text`, `pieces`, `numbers` | texts, lists of texts, and numbers in decimal |
| `alias_laws`, `app_laws`, `rewrite_laws` | laws that span several modules |

The library performs nothing. An operation that has an effect answers with a
description of it, and is told afterwards how it went; `app/` is the program
around the library that carries the effects out. What needs the Win32 API is
compiled on Windows only. Floating-point work (fading of past launches, text
measurement, colours, the summon animation) is done in `app/` too.

`tests/` runs the library on concrete values.
