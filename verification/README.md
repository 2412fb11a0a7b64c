# music-tagger

Tags music libraries with year, decade, genre and subgenre. Several sources
(MusicBrainz, Discogs, Last.fm, AcoustID, a local AcousticBrainz table, an
audio classifier, Wikipedia song articles) are asked about each track; a
weighted vote picks the values, and a vote that is not confident enough is
left for review instead of being written (unless the run is forced).

## Layout

- `src/` — the library, verified with Verus:
  - `tagger/voter.rs`: the weighted vote, with its laws (winners have the top
    score, confidences stay within 100%, Wikipedia confirms without counting as
    a source, identifiers cast no vote, a track without a genre or whose
    winning genre score falls short of the threshold share needs review).
  - `tagger/genre_map.rs`: the genre synonym map, built from the mapping files
    and the built-in synonyms.
  - `tagger/writer.rs`, `tagger/correction.rs`, `tagger/decade.rs`: the tag
    changes to write, the dry-run report, DJ categories and artist corrections.
  - `sources/`: how each source's reply is read into a vote.
  - `track_run.rs`: the processing of one track as steps; the caller does the
    outside work each step asks for and hands back what it brought.
  - `pipeline.rs`, `paths.rs`, `text.rs`: titles, file names and text helpers.
  - `cli.rs`, `config.rs`, `cache.rs`, `report.rs`, `models.rs`: commands,
    settings, cache freshness and the run's report.
- `tests/` — tests of the library on concrete values.
- `app/` — the command-line program: environment, HTTP requests, SQLite,
  reading and writing tags, decoding audio, and the loop that drives each
  track through the library's steps.

A source's confidence is counted in billionths (0.85 is 850000000); the
confidence threshold in thousandths (0.65 is 650). The vote reports each
confidence as an exact fraction, which the dry-run report rounds to a whole
percentage.
