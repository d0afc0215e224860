# mstat

A machine report for Linux: operating system, network, processor, disk, memory and login in one
box-drawn table, once or live.

```sh
mstat              # one report to stdout
mstat --live       # live report, refreshed every 2 seconds (Ctrl-C to exit)
mstat --live=5     # live report, refreshed every 5 seconds
```

The logic of the report is a library that is verified with Verus; the program around it reads the
system and writes to the terminal.

```
src/
├── text.rs     Byte strings and the UTF-8 text in them
├── scan.rs     Lines, fields and numbers in byte strings
├── buf.rs      Buf<N>, a fixed-size string buffer
├── frame.rs    A frame buffer of character cells, with box drawing and serialization
├── sys.rs      The sections of a report, and how each is collected from what was read
├── login.rs    Login records, session files, timestamps and uptime
├── collect.rs  All of a report, collected at the start
├── render.rs   The layout of a report, and how it is drawn
└── live.rs     Live mode: arguments, events, and what is collected again
app/
├── main.rs     Entry point
├── raw.rs      Files, the terminal and the C library
├── gather.rs   Reads what a report is collected from
├── figures.rs  Figures that are computed in floating point
└── live.rs     The event loop, on epoll, timerfd and signalfd
```

Every function of `src/` has a contract over byte sequences, character sequences and the grid of
characters that a frame shows. Public lemmas state what holds across functions: that a report takes
all of the frame that was made for it, that what is serialized of it is the UTF-8 text of its lines,
that numbers read back as they were written, and which login and which session is the latest.
Arithmetic on numbers that come from outside wraps at 2 to the 64. Data is collected and
drawn in fixed-size buffers, without heap allocation. That is not proved but rests on the types:
of those that the collectors and the drawing use, none owns heap memory.
