# vera

Vera protects the privacy of photographs: it shows the EXIF metadata of an
image (GPS position, device, camera settings, dates, software), lets the user
edit single tags, and strips all metadata from one image or from a batch of
images. The metadata is read and written by the `exiv2` command-line utility.

## Layout

- `src/` is the verified library (Verus):
  - `text.rs`: whitespace, trimming, line splitting, bounded whitespace
    splitting and decimal numbers, each stated over sequences of characters;
  - `tag_map.rs`: the ordered map of extracted tags (`indexmap::IndexMap`)
    and its model;
  - `exiv2_backend.rs`: the printouts of `exiv2 -pe`/`-pt`, the command file
    of an edit, and what the runs of exiv2 mean for extraction, editing and
    deletion;
  - `path_search.rs`: path components and the search of a program on `PATH`;
  - `dialogs.rs`: the choice and arguments of the file dialog and the reading
    of its answer;
  - `batch_operations.rs`: what a batch does to each file and reports;
  - `controller.rs`: the tag table, pending edits, the search filter, the batch
    list and the status messages of the main window;
  - `geo_utils.rs`: GPS fields, raw GPS tokens, hemisphere letters and the
    geohash encoding.
- `app/` is the program around it: the Slint user interface, the runs of
  exiv2 and of the dialog programs, file copies, the browser, and the
  floating-point coordinate formats.
- `tests/` exercises the library.
