# narabi

Buffer line and tab line for Neovim, written as a Verus-verified library.

- `src/` is the verified library: how a buffer name becomes the short name of
  its tab (`path`, `buffers`), which buffers are listed (`buffers`), how the
  `'tabline'` string is assembled (`render`, `decimal`, `text`), and which
  highlight groups the plugin defines (`theme`). File icons come from the
  `kamon` crate.
- Buffer paths are read with Unix path syntax (`/` separates components)
  on every platform, as `std::path::Path` reads them on Unix hosts; on a
  Windows host `\` and drive prefixes are not treated specially.
- `app/` is the Neovim side: the plugin entry point, reading buffers through
  `nvim-oxi`, and registering highlight groups through `tane`.
- `tests/` runs the library on concrete inputs.
