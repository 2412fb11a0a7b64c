//! The commands of the command line, and what they ask of each track.

use vstd::prelude::*;
use crate::track_run::RunOptions;

verus! {

/// What the user asked for.
#[derive(Debug)]
pub enum Commands {
    /// Report missing fields without writing anything.
    Audit { path: String },
    /// Tag audio files.
    Tag {
        path: String,
        dry_run: bool,
        write: bool,
        force: bool,
        skip_existing: bool,
        correct_artist: bool,
        map_genre: bool,
    },
    /// Process again the files marked for review.
    Retry { path: String, write: bool },
    /// Measure audio features (vocal presence, brightness) of each file.
    AudioFeatures { path: String, json: bool },
}

/// Tagging only reports unless `--write` is given, and `--dry-run` always wins.
pub fn tag_is_dry_run(dry_run: bool, write: bool) -> (b: bool)
    ensures
        b == (!write || dry_run),
{
    !write || dry_run
}

/// What a tagging command asks of each track: `tag` with its flags (a dry
/// run unless `--write`), `retry` with nothing but `--write`. AcoustID is
/// asked when its key is set; the classifier and the AcousticBrainz table
/// when they are there. Other commands tag nothing.
pub fn run_options(
    command: &Commands,
    confidence_threshold: u32,
    has_acoustid_key: bool,
    has_essentia: bool,
    has_acousticbrainz: bool,
) -> (r: Option<RunOptions>)
    ensures
        match *command {
            Commands::Tag { dry_run, write, force, skip_existing, correct_artist, map_genre, .. } => r
                == Some(
                RunOptions {
                    dry_run: !write || dry_run,
                    force,
                    skip_existing,
                    correct_artist,
                    map_genre,
                    use_acoustid: has_acoustid_key,
                    use_acousticbrainz: has_acousticbrainz,
                    use_essentia: has_essentia,
                    confidence_threshold,
                },
            ),
            Commands::Retry { write, .. } => r == Some(
                RunOptions {
                    dry_run: !write,
                    force: false,
                    skip_existing: false,
                    correct_artist: false,
                    map_genre: false,
                    use_acoustid: has_acoustid_key,
                    use_acousticbrainz: has_acousticbrainz,
                    use_essentia: has_essentia,
                    confidence_threshold,
                },
            ),
            _ => r is None,
        },
{
    match command {
        Commands::Tag { dry_run, write, force, skip_existing, correct_artist, map_genre, .. } => Some(
            RunOptions {
                dry_run: tag_is_dry_run(*dry_run, *write),
                force: *force,
                skip_existing: *skip_existing,
                correct_artist: *correct_artist,
                map_genre: *map_genre,
                use_acoustid: has_acoustid_key,
                use_acousticbrainz: has_acousticbrainz,
                use_essentia: has_essentia,
                confidence_threshold,
            },
        ),
        Commands::Retry { write, .. } => Some(
            RunOptions {
                dry_run: !*write,
                force: false,
                skip_existing: false,
                correct_artist: false,
                map_genre: false,
                use_acoustid: has_acoustid_key,
                use_acousticbrainz: has_acousticbrainz,
                use_essentia: has_essentia,
                confidence_threshold,
            },
        ),
        _ => None,
    }
}

} // verus!
