# balance-overlay

A small always-on-top overlay that keeps API credit balances and machine load
on screen. This crate holds its logic, written and proved in Verus; the program
around it, in `app/`, talks to the network, the disk and the window system.

| Module | What it decides |
| --- | --- |
| `text` | Decimal digits, padding, trimming, searching, UTF-16 |
| `color` | Reading colors from text, dimming them |
| `layout` | Logical pixels to physical ones |
| `config` | Defaults, and what becomes of the settings file |
| `balance` | Judging a provider's answer, writing a balance |
| `system` | From raw readings to load histories |
| `draw` | Outlines, bars, grids and charts as drawing commands |
| `render` | Rows, the size of the window, the whole picture |
| `surface` | Which pixels are opaque |
| `state` | What is on screen, and the reaction to each message |

Contracts are stated over plain models: texts as sequences of characters, rows
as `RowModel`, pictures as sequences of `Op`. Properties that span several
functions are the public proof functions named `law_*`.

Functions whose arithmetic could leave the machine's range say so in a
`requires`. For those that the program calls, a `can_*` function tests the same
condition at run time.
