# rs-xorriso (verified library)

Writes flat ISO 9660 Level 1 images. `src/` is the library, verified with Verus:
the exact byte layout of every image (`image::iso_image`), 8.3 file names
(`name`), directory order (`entries`), and the `mkisofs`-style command line
(`cli`). `src/image_laws.rs` proves what every image satisfies: whole sectors,
volume descriptors at sectors 16 and 17, the volume label in place, every way to
the root directory leading to sector 20, and every file readable from the sector
its directory record names.

`app/main.rs` is the program: it reads the arguments and the source directory,
prints warnings and errors, and writes the image file.
