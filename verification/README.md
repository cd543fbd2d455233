# dng_export

Writes 16-bit RGB images as DNG files: linear, or with one color for each pixel as a Bayer or an
X-Trans filter would let it through.

- `src/` is the library, verified with Verus. `export::encode_dng` gives the bytes of a file; its
  contract says which bytes, and which images are refused. The proof functions named `law_*` say
  what a reader of the file gets back.
- `app/` writes the files and rounds floating-point colors to fractions.
- `tests/` runs the library on concrete images.

Pixels come from the `image` crate. What is believed of it, and of two functions on strings of the
standard library, is stated in `src/raster.rs` and `src/text.rs` and not proved.
