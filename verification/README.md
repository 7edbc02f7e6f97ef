# fits_viewer

A viewer for FITS images. The library in `src/` holds the parts of the viewer
that decide something about the file or the display and proves them with Verus:

- `header`: reading header cards from their 80 bytes, looking values up by
  keyword, the HDU layout (BITPIX, axes, data size), the block-by-block scan
  of a header, and searching raw blocks for cards.
- `numeric`, `text`: the decimal integers and the text handling (trimming,
  substring search, ordering) that header parsing relies on.
- `gui`: the header table (filters, sort state, the rows it shows) and the
  names under which colour maps, scalings and HDUs are offered.
- `image`: decoding of integer pixel data, the transfer-curve selector, and
  the shader source built around a user colour function.

`app/` is the program around it: argument handling, file reading and memory
mapping, the floating-point pixel pipeline, and the egui/wgpu interface.
