# radish

A reader for weather-radar volumes, verified with [Verus](https://github.com/verus-lang/verus).

* `src/` is the verified library. It decodes NEXRAD Level II (Archive II) byte
  streams into sweeps of rays and gates, pulls single moments out of records as
  raw words, and turns the variables of CfRadial1 files into metadata, sweeps
  and moments. IEEE-754 quantities travel through it as bit patterns and scaled
  quantities as the integers that were transmitted.
* `app/` reads files, turns raw words into floating-point arrays, and holds the
  Python bindings.
* `tests/` holds the tests of the library.

## Layout of the library

| Module                     | What it is for                                          |
|----------------------------|---------------------------------------------------------|
| `wire`, `float32`, `text`, `time` | integers on the wire, bit patterns, texts, instants |
| `types`, `errors`          | the common data model and the errors                    |
| `backends`                 | the formats and how a file finds its format             |
| `backends::common`         | sorting, arrays, coordinates, metadata, sniffing, fan-out |
| `backends::cfradial1`      | CfRadial1 variables and attributes                      |
| `backends::nexrad::decode` | records, messages, radials and sweeps                   |
| `backends::nexrad::demux`  | one moment out of a record or a span of records         |
| `backends::nexrad::adapter`, `attrs`, `mapping` | a scan in the common data model      |

Calls into `byteorder`, `bzip2`, `chrono`, `ndarray` and `rayon`, and into a few
functions of the standard library, stand behind small functions whose contracts
say what is taken on trust.
