# aw-man

A viewer for manga and other images. It shows the pages of directories, of sets of files and of
compressed archives, alone, side by side or in strips. In manga mode it goes on to the next chapter
by itself.

## Layout

* `src/` is the library, whose functions carry contracts that Verus proves.
  * `com` holds what the window and the page manager share: resolutions, modes, images, animations
    and the state that is shown.
  * `manager` decides which archives are open, which page is the current one, and which piece of
    work is done next for which page. `manager/page` holds the states that a page goes through.
  * `pools` holds the decisions of the threads that extract, read, scale and upscale pages.
  * `gui` holds the layout and scrolling of pages, what is drawn and uploaded, commands, shortcuts,
    menus and dialogs.
  * `natsort`, `names`, `filenames`, `path`, `pattern`, `number`, `decimal`, `double`, `bignum` and
    `text` are the parts that order and find names and read numbers and paths.
  * `closing`, `config`, `logging`, `socket` and `unrar` are what their names say.
* `tests/` runs the library.
* `app/` is the program around it: threads, files, processes, sockets, GTK and OpenGL. It also holds
  all that is computed with floating point numbers.

The library changes state and says what is to be done. The program does that, and tells the library
what came of it.

## Limits

* Positions are counted in 32 bits. The functions that lay pages out require that the sizes of the
  fitted pages, added up along a strip, can be counted so.
* Paths are text with `/` between their parts. Bytes that are no text are held in them as marks, and
  come back unchanged. On systems that write paths otherwise, the program converts them.
* What regular expressions match, how image files are decoded and how text becomes JSON is taken from
  the crates that do it. The places where the library relies on them say what is taken for granted.
