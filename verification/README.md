# Asaborake

Automatic commercial detection, cutting and transcoding for Japanese broadcast
recordings, with the decisions verified in [Verus](https://github.com/verus-lang/verus).

The library under `src/` holds everything that is decided or computed; each
function states in its contract exactly what it returns, and Verus proves it.
The program under `app/` drives ffmpeg, the file system, the database and the
network around it.

| Module    | What it holds                                                            |
| --------- | ------------------------------------------------------------------------ |
| `analyze` | finding, learning and scoring station logos; scene changes; silences      |
| `cmcut`   | candidate boundaries, segment scoring, the optimal segmentation, the plan |
| `media`   | what is asked of ffmpeg, and what is made of its answers                  |
| `engine`  | profiles, rules, naming, chapters, parts, the encode, the job pipeline    |
| `server`  | the job store, schedule, disk, recordings, API and worker decisions       |
| `cli`     | what the command line asks for and prints, and the `EPGStation` contract  |

Numbers are exact. Moments are whole microseconds, fractions and confidences are
millionths, brightness is millionths of a level, and loudness is mean power in
trillionths of full scale. A logo's coefficients are single-precision bit
patterns: a fit is carried to forty-four binary places and written as the nearest
of them, and they are read as millionths (`analyze::logo::single`).

What holds of the library as a whole is stated as public proof functions beside
what it speaks of: the segmentation chosen is the best there is and the only one
(`cmcut::laws`), chapters are contiguous after cutting (`engine::chapters`),
a job is claimed once (`server::db`), and so on.

A few calls are trusted rather than proved, each in a small function whose comment
says what is claimed of it: `String::push` and `str::to_lowercase` (`text`), the
postcard encoding of a logo (`analyze::logo::abl`), PNG encoding
(`analyze::logo::preview`), the local hour (`server::schedule`), and RFC 3339
times and random ids (`server::db`).
