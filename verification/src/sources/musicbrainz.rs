//! MusicBrainz recordings: picking the best match and reading year, genre
//! and subgenre from it.

use vstd::prelude::*;
use crate::models::{SourceName, SourceResult};
use crate::text::{all_ascii, ascii_lower, ascii_lower_seq, lower_text, is_white_space, lemma_word_end, word_end, words_from, str_eq, opt_chars, before_first, before_first_chars, parse_u32, parse_u32_chars, append_chars, append_str, contains, contains_chars, find, find_chars, lemma_find_from, slice_chars, trim, trim_chars, chars_eq, chars_of, join_space, lowercase, split_whitespace, string_of, to_lowercase, to_uppercase_char, uppercase_char, words};

verus! {

// ---------------------------------------------------------------------------
// Title case for genre names
// ---------------------------------------------------------------------------

pub const KNOWN_GENRE_COUNT: usize = 17;

/// Genre spellings whose title case does not follow the word rule.
pub open spec fn known_genre_at(i: usize) -> (Seq<char>, Seq<char>) {
    match i {
        0 => ("r&b"@, "R&B"@),
        1 => ("hi-nrg"@, "Hi-NRG"@),
        2 => ("hi nrg"@, "Hi-NRG"@),
        3 => ("dj mix"@, "DJ Mix"@),
        4 => ("electro-funk"@, "Electro Funk"@),
        5 => ("electro funk"@, "Electro Funk"@),
        6 => ("hip-house"@, "Hip-House"@),
        7 => ("hip house"@, "Hip-House"@),
        8 => ("old-school hip-hop"@, "Old-School Hip-Hop"@),
        9 => ("old school hip-hop"@, "Old-School Hip-Hop"@),
        10 => ("contemporary r&b"@, "Contemporary R&B"@),
        11 => ("synth-pop"@, "Synth-Pop"@),
        12 => ("synth pop"@, "Synth-Pop"@),
        13 => ("dance-pop"@, "Dance-Pop"@),
        14 => ("reggae-pop"@, "Reggae-Pop"@),
        15 => ("sophisti-pop"@, "Sophisti-Pop"@),
        16 => ("post-disco"@, "Post-Disco"@),
        _ => (Seq::empty(), Seq::empty()),
    }
}

/// Entry `m` of the table: its spelling, lowercased, is its own key, and the
/// first entry with that key.
pub open spec fn known_genre_entry_fixed(m: usize) -> bool {
    &&& all_ascii(known_genre_at(m).1)
    &&& known_genre_at(m).1.len() > 0
    &&& ascii_lower_seq(known_genre_at(m).1) == known_genre_at(m).0
    &&& known_genre_at_from(known_genre_at(m).0, 0) == m as int
}

proof fn lemma_known_entry_0()
    ensures
        known_genre_entry_fixed(0usize),
{
    reveal_strlit("R&B");
    reveal_strlit("r&b");
    assert(ascii_lower_seq(known_genre_at(0usize).1) =~= known_genre_at(0usize).0);

    reveal_with_fuel(known_genre_at_from, 2);
}

proof fn lemma_known_entry_1()
    ensures
        known_genre_entry_fixed(1usize),
{
    reveal_strlit("Hi-NRG");
    reveal_strlit("hi-nrg");
    reveal_strlit("r&b");
    assert(ascii_lower_seq(known_genre_at(1usize).1) =~= known_genre_at(1usize).0);
    assert(known_genre_at(0usize).0 != known_genre_at(1usize).0);
    reveal_with_fuel(known_genre_at_from, 3);
}

proof fn lemma_known_entry_3()
    ensures
        known_genre_entry_fixed(3usize),
{
    reveal_strlit("DJ Mix");
    reveal_strlit("dj mix");
    reveal_strlit("hi nrg");
    reveal_strlit("hi-nrg");
    reveal_strlit("r&b");
    assert(ascii_lower_seq(known_genre_at(3usize).1) =~= known_genre_at(3usize).0);
    assert(known_genre_at(0usize).0 != known_genre_at(3usize).0);
    assert(known_genre_at(1usize).0[0] != known_genre_at(3usize).0[0]);
    assert(known_genre_at(1usize).0 != known_genre_at(3usize).0);
    assert(known_genre_at(2usize).0[0] != known_genre_at(3usize).0[0]);
    assert(known_genre_at(2usize).0 != known_genre_at(3usize).0);
    reveal_with_fuel(known_genre_at_from, 5);
}

proof fn lemma_known_entry_5()
    ensures
        known_genre_entry_fixed(5usize),
{
    reveal_strlit("Electro Funk");
    reveal_strlit("dj mix");
    reveal_strlit("electro funk");
    reveal_strlit("electro-funk");
    reveal_strlit("hi nrg");
    reveal_strlit("hi-nrg");
    reveal_strlit("r&b");
    assert(ascii_lower_seq(known_genre_at(5usize).1) =~= known_genre_at(5usize).0);
    assert(known_genre_at(0usize).0 != known_genre_at(5usize).0);
    assert(known_genre_at(1usize).0 != known_genre_at(5usize).0);
    assert(known_genre_at(2usize).0 != known_genre_at(5usize).0);
    assert(known_genre_at(3usize).0 != known_genre_at(5usize).0);
    assert(known_genre_at(4usize).0[7] != known_genre_at(5usize).0[7]);
    assert(known_genre_at(4usize).0 != known_genre_at(5usize).0);
    reveal_with_fuel(known_genre_at_from, 7);
}

proof fn lemma_known_entry_6()
    ensures
        known_genre_entry_fixed(6usize),
{
    reveal_strlit("Hip-House");
    reveal_strlit("dj mix");
    reveal_strlit("electro funk");
    reveal_strlit("electro-funk");
    reveal_strlit("hi nrg");
    reveal_strlit("hi-nrg");
    reveal_strlit("hip-house");
    reveal_strlit("r&b");
    assert(ascii_lower_seq(known_genre_at(6usize).1) =~= known_genre_at(6usize).0);
    assert(known_genre_at(0usize).0 != known_genre_at(6usize).0);
    assert(known_genre_at(1usize).0 != known_genre_at(6usize).0);
    assert(known_genre_at(2usize).0 != known_genre_at(6usize).0);
    assert(known_genre_at(3usize).0 != known_genre_at(6usize).0);
    assert(known_genre_at(4usize).0 != known_genre_at(6usize).0);
    assert(known_genre_at(5usize).0 != known_genre_at(6usize).0);
    reveal_with_fuel(known_genre_at_from, 8);
}

proof fn lemma_known_entry_8()
    ensures
        known_genre_entry_fixed(8usize),
{
    reveal_strlit("Old-School Hip-Hop");
    reveal_strlit("dj mix");
    reveal_strlit("electro funk");
    reveal_strlit("electro-funk");
    reveal_strlit("hi nrg");
    reveal_strlit("hi-nrg");
    reveal_strlit("hip house");
    reveal_strlit("hip-house");
    reveal_strlit("old-school hip-hop");
    reveal_strlit("r&b");
    assert(ascii_lower_seq(known_genre_at(8usize).1) =~= known_genre_at(8usize).0);
    assert(known_genre_at(0usize).0 != known_genre_at(8usize).0);
    assert(known_genre_at(1usize).0 != known_genre_at(8usize).0);
    assert(known_genre_at(2usize).0 != known_genre_at(8usize).0);
    assert(known_genre_at(3usize).0 != known_genre_at(8usize).0);
    assert(known_genre_at(4usize).0 != known_genre_at(8usize).0);
    assert(known_genre_at(5usize).0 != known_genre_at(8usize).0);
    assert(known_genre_at(6usize).0 != known_genre_at(8usize).0);
    assert(known_genre_at(7usize).0 != known_genre_at(8usize).0);
    reveal_with_fuel(known_genre_at_from, 10);
}

proof fn lemma_known_entry_10()
    ensures
        known_genre_entry_fixed(10usize),
{
    reveal_strlit("Contemporary R&B");
    reveal_strlit("contemporary r&b");
    reveal_strlit("dj mix");
    reveal_strlit("electro funk");
    reveal_strlit("electro-funk");
    reveal_strlit("hi nrg");
    reveal_strlit("hi-nrg");
    reveal_strlit("hip house");
    reveal_strlit("hip-house");
    reveal_strlit("old school hip-hop");
    reveal_strlit("old-school hip-hop");
    reveal_strlit("r&b");
    assert(ascii_lower_seq(known_genre_at(10usize).1) =~= known_genre_at(10usize).0);
    assert(known_genre_at(0usize).0 != known_genre_at(10usize).0);
    assert(known_genre_at(1usize).0 != known_genre_at(10usize).0);
    assert(known_genre_at(2usize).0 != known_genre_at(10usize).0);
    assert(known_genre_at(3usize).0 != known_genre_at(10usize).0);
    assert(known_genre_at(4usize).0 != known_genre_at(10usize).0);
    assert(known_genre_at(5usize).0 != known_genre_at(10usize).0);
    assert(known_genre_at(6usize).0 != known_genre_at(10usize).0);
    assert(known_genre_at(7usize).0 != known_genre_at(10usize).0);
    assert(known_genre_at(8usize).0 != known_genre_at(10usize).0);
    assert(known_genre_at(9usize).0 != known_genre_at(10usize).0);
    reveal_with_fuel(known_genre_at_from, 12);
}

proof fn lemma_known_entry_11()
    ensures
        known_genre_entry_fixed(11usize),
{
    reveal_strlit("Synth-Pop");
    reveal_strlit("contemporary r&b");
    reveal_strlit("dj mix");
    reveal_strlit("electro funk");
    reveal_strlit("electro-funk");
    reveal_strlit("hi nrg");
    reveal_strlit("hi-nrg");
    reveal_strlit("hip house");
    reveal_strlit("hip-house");
    reveal_strlit("old school hip-hop");
    reveal_strlit("old-school hip-hop");
    reveal_strlit("r&b");
    reveal_strlit("synth-pop");
    assert(ascii_lower_seq(known_genre_at(11usize).1) =~= known_genre_at(11usize).0);
    assert(known_genre_at(0usize).0 != known_genre_at(11usize).0);
    assert(known_genre_at(1usize).0 != known_genre_at(11usize).0);
    assert(known_genre_at(2usize).0 != known_genre_at(11usize).0);
    assert(known_genre_at(3usize).0 != known_genre_at(11usize).0);
    assert(known_genre_at(4usize).0 != known_genre_at(11usize).0);
    assert(known_genre_at(5usize).0 != known_genre_at(11usize).0);
    assert(known_genre_at(6usize).0[0] != known_genre_at(11usize).0[0]);
    assert(known_genre_at(6usize).0 != known_genre_at(11usize).0);
    assert(known_genre_at(7usize).0[0] != known_genre_at(11usize).0[0]);
    assert(known_genre_at(7usize).0 != known_genre_at(11usize).0);
    assert(known_genre_at(8usize).0 != known_genre_at(11usize).0);
    assert(known_genre_at(9usize).0 != known_genre_at(11usize).0);
    assert(known_genre_at(10usize).0 != known_genre_at(11usize).0);
    reveal_with_fuel(known_genre_at_from, 13);
}

proof fn lemma_known_entry_13()
    ensures
        known_genre_entry_fixed(13usize),
{
    reveal_strlit("Dance-Pop");
    reveal_strlit("contemporary r&b");
    reveal_strlit("dance-pop");
    reveal_strlit("dj mix");
    reveal_strlit("electro funk");
    reveal_strlit("electro-funk");
    reveal_strlit("hi nrg");
    reveal_strlit("hi-nrg");
    reveal_strlit("hip house");
    reveal_strlit("hip-house");
    reveal_strlit("old school hip-hop");
    reveal_strlit("old-school hip-hop");
    reveal_strlit("r&b");
    reveal_strlit("synth pop");
    reveal_strlit("synth-pop");
    assert(ascii_lower_seq(known_genre_at(13usize).1) =~= known_genre_at(13usize).0);
    assert(known_genre_at(0usize).0 != known_genre_at(13usize).0);
    assert(known_genre_at(1usize).0 != known_genre_at(13usize).0);
    assert(known_genre_at(2usize).0 != known_genre_at(13usize).0);
    assert(known_genre_at(3usize).0 != known_genre_at(13usize).0);
    assert(known_genre_at(4usize).0 != known_genre_at(13usize).0);
    assert(known_genre_at(5usize).0 != known_genre_at(13usize).0);
    assert(known_genre_at(6usize).0[0] != known_genre_at(13usize).0[0]);
    assert(known_genre_at(6usize).0 != known_genre_at(13usize).0);
    assert(known_genre_at(7usize).0[0] != known_genre_at(13usize).0[0]);
    assert(known_genre_at(7usize).0 != known_genre_at(13usize).0);
    assert(known_genre_at(8usize).0 != known_genre_at(13usize).0);
    assert(known_genre_at(9usize).0 != known_genre_at(13usize).0);
    assert(known_genre_at(10usize).0 != known_genre_at(13usize).0);
    assert(known_genre_at(11usize).0[0] != known_genre_at(13usize).0[0]);
    assert(known_genre_at(11usize).0 != known_genre_at(13usize).0);
    assert(known_genre_at(12usize).0[0] != known_genre_at(13usize).0[0]);
    assert(known_genre_at(12usize).0 != known_genre_at(13usize).0);
    reveal_with_fuel(known_genre_at_from, 15);
}

proof fn lemma_known_entry_14()
    ensures
        known_genre_entry_fixed(14usize),
{
    reveal_strlit("Reggae-Pop");
    reveal_strlit("contemporary r&b");
    reveal_strlit("dance-pop");
    reveal_strlit("dj mix");
    reveal_strlit("electro funk");
    reveal_strlit("electro-funk");
    reveal_strlit("hi nrg");
    reveal_strlit("hi-nrg");
    reveal_strlit("hip house");
    reveal_strlit("hip-house");
    reveal_strlit("old school hip-hop");
    reveal_strlit("old-school hip-hop");
    reveal_strlit("r&b");
    reveal_strlit("reggae-pop");
    reveal_strlit("synth pop");
    reveal_strlit("synth-pop");
    assert(ascii_lower_seq(known_genre_at(14usize).1) =~= known_genre_at(14usize).0);
    assert(known_genre_at(0usize).0 != known_genre_at(14usize).0);
    assert(known_genre_at(1usize).0 != known_genre_at(14usize).0);
    assert(known_genre_at(2usize).0 != known_genre_at(14usize).0);
    assert(known_genre_at(3usize).0 != known_genre_at(14usize).0);
    assert(known_genre_at(4usize).0 != known_genre_at(14usize).0);
    assert(known_genre_at(5usize).0 != known_genre_at(14usize).0);
    assert(known_genre_at(6usize).0 != known_genre_at(14usize).0);
    assert(known_genre_at(7usize).0 != known_genre_at(14usize).0);
    assert(known_genre_at(8usize).0 != known_genre_at(14usize).0);
    assert(known_genre_at(9usize).0 != known_genre_at(14usize).0);
    assert(known_genre_at(10usize).0 != known_genre_at(14usize).0);
    assert(known_genre_at(11usize).0 != known_genre_at(14usize).0);
    assert(known_genre_at(12usize).0 != known_genre_at(14usize).0);
    assert(known_genre_at(13usize).0 != known_genre_at(14usize).0);
    reveal_with_fuel(known_genre_at_from, 16);
}

proof fn lemma_known_entry_15()
    ensures
        known_genre_entry_fixed(15usize),
{
    reveal_strlit("Sophisti-Pop");
    reveal_strlit("contemporary r&b");
    reveal_strlit("dance-pop");
    reveal_strlit("dj mix");
    reveal_strlit("electro funk");
    reveal_strlit("electro-funk");
    reveal_strlit("hi nrg");
    reveal_strlit("hi-nrg");
    reveal_strlit("hip house");
    reveal_strlit("hip-house");
    reveal_strlit("old school hip-hop");
    reveal_strlit("old-school hip-hop");
    reveal_strlit("r&b");
    reveal_strlit("reggae-pop");
    reveal_strlit("sophisti-pop");
    reveal_strlit("synth pop");
    reveal_strlit("synth-pop");
    assert(ascii_lower_seq(known_genre_at(15usize).1) =~= known_genre_at(15usize).0);
    assert(known_genre_at(0usize).0 != known_genre_at(15usize).0);
    assert(known_genre_at(1usize).0 != known_genre_at(15usize).0);
    assert(known_genre_at(2usize).0 != known_genre_at(15usize).0);
    assert(known_genre_at(3usize).0 != known_genre_at(15usize).0);
    assert(known_genre_at(4usize).0[0] != known_genre_at(15usize).0[0]);
    assert(known_genre_at(4usize).0 != known_genre_at(15usize).0);
    assert(known_genre_at(5usize).0[0] != known_genre_at(15usize).0[0]);
    assert(known_genre_at(5usize).0 != known_genre_at(15usize).0);
    assert(known_genre_at(6usize).0 != known_genre_at(15usize).0);
    assert(known_genre_at(7usize).0 != known_genre_at(15usize).0);
    assert(known_genre_at(8usize).0 != known_genre_at(15usize).0);
    assert(known_genre_at(9usize).0 != known_genre_at(15usize).0);
    assert(known_genre_at(10usize).0 != known_genre_at(15usize).0);
    assert(known_genre_at(11usize).0 != known_genre_at(15usize).0);
    assert(known_genre_at(12usize).0 != known_genre_at(15usize).0);
    assert(known_genre_at(13usize).0 != known_genre_at(15usize).0);
    assert(known_genre_at(14usize).0 != known_genre_at(15usize).0);
    reveal_with_fuel(known_genre_at_from, 17);
}

proof fn lemma_known_entry_16()
    ensures
        known_genre_entry_fixed(16usize),
{
    reveal_strlit("Post-Disco");
    reveal_strlit("contemporary r&b");
    reveal_strlit("dance-pop");
    reveal_strlit("dj mix");
    reveal_strlit("electro funk");
    reveal_strlit("electro-funk");
    reveal_strlit("hi nrg");
    reveal_strlit("hi-nrg");
    reveal_strlit("hip house");
    reveal_strlit("hip-house");
    reveal_strlit("old school hip-hop");
    reveal_strlit("old-school hip-hop");
    reveal_strlit("post-disco");
    reveal_strlit("r&b");
    reveal_strlit("reggae-pop");
    reveal_strlit("sophisti-pop");
    reveal_strlit("synth pop");
    reveal_strlit("synth-pop");
    assert(ascii_lower_seq(known_genre_at(16usize).1) =~= known_genre_at(16usize).0);
    assert(known_genre_at(0usize).0 != known_genre_at(16usize).0);
    assert(known_genre_at(1usize).0 != known_genre_at(16usize).0);
    assert(known_genre_at(2usize).0 != known_genre_at(16usize).0);
    assert(known_genre_at(3usize).0 != known_genre_at(16usize).0);
    assert(known_genre_at(4usize).0 != known_genre_at(16usize).0);
    assert(known_genre_at(5usize).0 != known_genre_at(16usize).0);
    assert(known_genre_at(6usize).0 != known_genre_at(16usize).0);
    assert(known_genre_at(7usize).0 != known_genre_at(16usize).0);
    assert(known_genre_at(8usize).0 != known_genre_at(16usize).0);
    assert(known_genre_at(9usize).0 != known_genre_at(16usize).0);
    assert(known_genre_at(10usize).0 != known_genre_at(16usize).0);
    assert(known_genre_at(11usize).0 != known_genre_at(16usize).0);
    assert(known_genre_at(12usize).0 != known_genre_at(16usize).0);
    assert(known_genre_at(13usize).0 != known_genre_at(16usize).0);
    assert(known_genre_at(14usize).0[0] != known_genre_at(16usize).0[0]);
    assert(known_genre_at(14usize).0 != known_genre_at(16usize).0);
    assert(known_genre_at(15usize).0 != known_genre_at(16usize).0);
    reveal_with_fuel(known_genre_at_from, 18);
}

proof fn lemma_known_at_from(x: Seq<char>, i: int)
    ensures
        known_genre_at_from(x, i) == -1 || (0 <= known_genre_at_from(x, i) < KNOWN_GENRE_COUNT),
    decreases KNOWN_GENRE_COUNT - i,
{
    if 0 <= i < KNOWN_GENRE_COUNT && known_genre_at(i as usize).0 != x {
        lemma_known_at_from(x, i + 1);
    }
}

/// Each canonical spelling of the table, lowercased, is a key of the table
/// that leads back to the same spelling.
proof fn lemma_known_value_fixed(k: usize)
    requires
        k < KNOWN_GENRE_COUNT,
    ensures
        all_ascii(known_genre_at(k).1),
        known_genre_at(k).1.len() > 0,
        known_genre_at_from(ascii_lower_seq(known_genre_at(k).1), 0) >= 0,
        known_genre_at(known_genre_at_from(ascii_lower_seq(known_genre_at(k).1), 0) as usize).1
            == known_genre_at(k).1,
{
    if k == 0 {
        lemma_known_entry_0();
    } else if k == 1 {
        lemma_known_entry_1();
    } else if k == 2 {
        lemma_known_entry_1();
        reveal_strlit("Hi-NRG");
    } else if k == 3 {
        lemma_known_entry_3();
    } else if k == 4 {
        lemma_known_entry_5();
        reveal_strlit("Electro Funk");
    } else if k == 5 {
        lemma_known_entry_5();
    } else if k == 6 {
        lemma_known_entry_6();
    } else if k == 7 {
        lemma_known_entry_6();
        reveal_strlit("Hip-House");
    } else if k == 8 {
        lemma_known_entry_8();
    } else if k == 9 {
        lemma_known_entry_8();
        reveal_strlit("Old-School Hip-Hop");
    } else if k == 10 {
        lemma_known_entry_10();
    } else if k == 11 {
        lemma_known_entry_11();
    } else if k == 12 {
        lemma_known_entry_11();
        reveal_strlit("Synth-Pop");
    } else if k == 13 {
        lemma_known_entry_13();
    } else if k == 14 {
        lemma_known_entry_14();
    } else if k == 15 {
        lemma_known_entry_15();
    } else if k == 16 {
        lemma_known_entry_16();
    }
}

fn known_genre_entry(i: usize) -> (r: (&'static str, &'static str))
    requires
        i < KNOWN_GENRE_COUNT,
    ensures
        (r.0@, r.1@) == known_genre_at(i),
{
    match i {
        0 => ("r&b", "R&B"),
        1 => ("hi-nrg", "Hi-NRG"),
        2 => ("hi nrg", "Hi-NRG"),
        3 => ("dj mix", "DJ Mix"),
        4 => ("electro-funk", "Electro Funk"),
        5 => ("electro funk", "Electro Funk"),
        6 => ("hip-house", "Hip-House"),
        7 => ("hip house", "Hip-House"),
        8 => ("old-school hip-hop", "Old-School Hip-Hop"),
        9 => ("old school hip-hop", "Old-School Hip-Hop"),
        10 => ("contemporary r&b", "Contemporary R&B"),
        11 => ("synth-pop", "Synth-Pop"),
        12 => ("synth pop", "Synth-Pop"),
        13 => ("dance-pop", "Dance-Pop"),
        14 => ("reggae-pop", "Reggae-Pop"),
        15 => ("sophisti-pop", "Sophisti-Pop"),
        _ => ("post-disco", "Post-Disco"),
    }
}

/// The first entry at or after `i` of the `known_genre_at` table whose key is `k`, or -1.
pub open spec fn known_genre_at_from(k: Seq<char>, i: int) -> int
    decreases KNOWN_GENRE_COUNT - i,
{
    if i < 0 || i >= KNOWN_GENRE_COUNT {
        -1
    } else if known_genre_at(i as usize).0 == k {
        i
    } else {
        known_genre_at_from(k, i + 1)
    }
}

/// Where `k` stands in the `known_genre_at` table.
fn known_genre_entry_find(k: &Vec<char>) -> (r: Option<usize>)
    ensures
        match r {
            Some(i) => i < KNOWN_GENRE_COUNT && i as int == known_genre_at_from(k@, 0),
            None => known_genre_at_from(k@, 0) == -1,
        },
{
    let mut i: usize = 0;
    while i < KNOWN_GENRE_COUNT
        invariant
            i <= KNOWN_GENRE_COUNT,
            known_genre_at_from(k@, 0) == known_genre_at_from(k@, i as int),
        decreases KNOWN_GENRE_COUNT - i,
    {
        let (key, _) = known_genre_entry(i);
        let kv = chars_of(key);
        if chars_eq(&kv, k) {
            return Some(i);
        }
        i = i + 1;
    }
    None
}

/// What `char::to_uppercase` yields for `c`: for ASCII, the capital of a
/// lowercase letter and any other character itself.
pub open spec fn upper_of(c: char) -> Seq<char> {
    if 'a' <= c <= 'z' {
        seq![((c as u32) - 32) as char]
    } else if (c as u32) < 128 {
        seq![c]
    } else {
        uppercase_char(c)
    }
}

/// Title case of one word from position `i` on: the first character of each
/// hyphen-separated segment is uppercased (`first` says whether `w[i]` starts one).
pub open spec fn title_from(w: Seq<char>, i: int, first: bool) -> Seq<char>
    decreases w.len() - i,
{
    if i < 0 || i >= w.len() {
        seq![]
    } else if w[i] == '-' {
        seq!['-'] + title_from(w, i + 1, true)
    } else if first {
        upper_of(w[i]) + title_from(w, i + 1, false)
    } else {
        seq![w[i]] + title_from(w, i + 1, false)
    }
}

pub open spec fn title_word(w: Seq<char>) -> Seq<char> {
    title_from(w, 0, true)
}

/// The title case of a genre name: a known spelling from the table (matched in
/// lowercase), else each whitespace-separated word title-cased and the words
/// joined by single spaces.
pub open spec fn title_case(s: Seq<char>) -> Seq<char> {
    if s.len() == 0 {
        s
    } else {
        let k = known_genre_at_from(lower_text(s), 0);
        if k >= 0 {
            known_genre_at(k as usize).1
        } else {
            join_space(words(s).map_values(|w: Seq<char>| title_word(w)))
        }
    }
}

fn title_word_exec(w: &Vec<char>) -> (r: Vec<char>)
    ensures
        r@ == title_word(w@),
{
    let mut r: Vec<char> = Vec::new();
    let mut first = true;
    for i in 0..w.len()
        invariant
            r@ + title_from(w@, i as int, first) == title_word(w@),
    {
        let c = w[i];
        let ghost before = r@;
        let ghost first0 = first;
        if c == '-' {
            r.push(c);
            first = true;
        } else if first {
            let up = to_uppercase_char(c);
            append_chars(&mut r, &up);
            first = false;
        } else {
            r.push(c);
        }
        assert(before + title_from(w@, i as int, first0) =~= r@ + title_from(w@, i + 1, first));
    }
    assert(title_from(w@, w@.len() as int, first) =~= Seq::<char>::empty());
    assert(r@ + Seq::<char>::empty() =~= r@);
    r
}


/// `"synth-pop"` becomes `"Synth-Pop"`, `"r&b"` becomes `"R&B"`.
pub fn title_case_genre(s: &str) -> (r: String)
    ensures
        r@ == title_case(s@),
{
    let sv = chars_of(s);
    if sv.len() == 0 {
        return string_of(&sv);
    }
    let lower = to_lowercase(s);
    let lv = chars_of(lower.as_str());
    match known_genre_entry_find(&lv) {
        Some(k) => {
            let (_, canonical) = known_genre_entry(k);
            return canonical.to_owned();
        },
        None => {},
    }
    let ws = split_whitespace(&sv);
    let ghost wsv = ws@.map_values(|w: Vec<char>| w@);
    let mut out: Vec<char> = Vec::new();
    for j in 0..ws.len()
        invariant
            wsv == ws@.map_values(|w: Vec<char>| w@),
            out@ == join_space(wsv.take(j as int).map_values(|w: Seq<char>| title_word(w))),
    {
        let t = title_word_exec(&ws[j]);
        let ghost prev = wsv.take(j as int).map_values(|w: Seq<char>| title_word(w));
        assert(wsv[j as int] == ws@[j as int]@);
        assert(wsv.take(j + 1).map_values(|w: Seq<char>| title_word(w)) =~= prev.push(t@));
        assert(prev.push(t@).drop_last() =~= prev);
        if j > 0 {
            out.push(' ');
        }
        append_chars(&mut out, &t);
        assert(out@ =~= join_space(prev.push(t@)));
    }
    assert(wsv.take(ws@.len() as int) =~= wsv);
    string_of(&out)
}


// ---------------------------------------------------------------------------
// Title casing twice
// ---------------------------------------------------------------------------

/// How title casing writes `c`, `first` saying whether it starts a segment.
pub open spec fn title_char(c: char, first: bool) -> char {
    if c == '-' {
        '-'
    } else if first {
        upper_of(c)[0]
    } else {
        c
    }
}

/// Two texts of one length that agree up to ASCII case and whitespace, the
/// first of them ASCII.
pub open spec fn same_but_case(a: Seq<char>, b: Seq<char>) -> bool {
    &&& a.len() == b.len()
    &&& forall|j: int|
        0 <= j < a.len() ==> {
            &&& ascii_lower(#[trigger] a[j]) == ascii_lower(b[j])
            &&& (a[j] as u32) < 128
            &&& is_white_space(a[j]) == is_white_space(b[j])
        }
}

proof fn lemma_upper_of_ascii(c: char)
    requires
        (c as u32) < 128,
    ensures
        upper_of(c).len() == 1,
        (upper_of(c)[0] as u32) < 128,
        ascii_lower(upper_of(c)[0]) == ascii_lower(c),
        is_white_space(upper_of(c)[0]) == is_white_space(c),
        upper_of(upper_of(c)[0]) == upper_of(c),
        (upper_of(c)[0] == '-') == (c == '-'),
{
}

/// Title casing an ASCII word from `i` on, character by character.
proof fn lemma_title_from(w: Seq<char>, i: int, first: bool)
    requires
        all_ascii(w),
        0 <= i <= w.len(),
    ensures
        title_from(w, i, first).len() == w.len() - i,
        forall|j: int|
            0 <= j < w.len() - i ==> #[trigger] title_from(w, i, first)[j] == title_char(
                w[i + j],
                if j == 0 { first } else { w[i + j - 1] == '-' },
            ),
    decreases w.len() - i,
{
    if i < w.len() {
        lemma_upper_of_ascii(w[i]);
        let next = w[i] == '-';
        lemma_title_from(w, i + 1, next);
        let t = title_from(w, i, first);
        let rest = title_from(w, i + 1, next);
        if w[i] == '-' {
            assert(t == seq!['-'] + rest);
        } else if first {
            assert(t == upper_of(w[i]) + rest);
        } else {
            assert(t == seq![w[i]] + rest);
        }
        assert forall|j: int| 0 <= j < w.len() - i implies #[trigger] t[j] == title_char(
            w[i + j],
            if j == 0 { first } else { w[i + j - 1] == '-' },
        ) by {
            if j > 0 {
                assert(t[j] == rest[j - 1]);
            }
        }
    }
}

/// A title-cased ASCII word is the word up to case, and title casing it
/// again changes nothing.
proof fn lemma_title_word(w: Seq<char>)
    requires
        all_ascii(w),
    ensures
        same_but_case(title_word(w), w),
        title_word(title_word(w)) == title_word(w),
{
    let u = title_word(w);
    lemma_title_from(w, 0, true);
    assert forall|j: int| 0 <= j < u.len() implies {
        &&& ascii_lower(#[trigger] u[j]) == ascii_lower(w[j])
        &&& (u[j] as u32) < 128
        &&& is_white_space(u[j]) == is_white_space(w[j])
    } by {
        assert(u[j] == title_char(w[j], if j == 0 { true } else { w[j - 1] == '-' }));
        lemma_upper_of_ascii(w[j]);
    }
    assert(all_ascii(u));
    lemma_title_from(u, 0, true);
    let v = title_word(u);
    assert forall|j: int| 0 <= j < u.len() implies #[trigger] v[j] == u[j] by {
        assert(u[j] == title_char(w[j], if j == 0 { true } else { w[j - 1] == '-' }));
        assert(v[j] == title_char(u[j], if j == 0 { true } else { u[j - 1] == '-' }));
        lemma_upper_of_ascii(w[j]);
        if j > 0 {
            assert(u[j - 1] == title_char(w[j - 1], if j - 1 == 0 { true } else { w[j - 2] == '-' }));
            lemma_upper_of_ascii(w[j - 1]);
        }
        lemma_upper_of_ascii(u[j]);
    }
    assert(v =~= u);
}

/// A word: not empty, without whitespace.
pub open spec fn is_word(w: Seq<char>) -> bool {
    w.len() > 0 && forall|j: int| 0 <= j < w.len() ==> !is_white_space(#[trigger] w[j])
}

/// The words of a text are words, and ASCII where the text is.
proof fn lemma_words_from(s: Seq<char>, i: int)
    requires
        0 <= i <= s.len(),
    ensures
        forall|k: int| 0 <= k < words_from(s, i).len() ==> is_word(#[trigger] words_from(s, i)[k]),
        all_ascii(s) ==> forall|k: int| 0 <= k < words_from(s, i).len() ==> all_ascii(#[trigger] words_from(s, i)[k]),
    decreases s.len() - i,
{
    if i < s.len() {
        if is_white_space(s[i]) {
            lemma_words_from(s, i + 1);
            assert(words_from(s, i) == words_from(s, i + 1));
        } else {
            let e = word_end(s, i);
            lemma_word_end(s, i);
            lemma_word_end(s, i + 1);
            assert(e > i);
            lemma_words_from(s, e);
            let ws = words_from(s, i);
            let w = s.subrange(i, e);
            assert(ws == seq![w] + words_from(s, e));
            assert forall|k: int| 0 <= k < ws.len() implies is_word(#[trigger] ws[k]) by {
                if k > 0 {
                    assert(ws[k] == words_from(s, e)[k - 1]);
                } else {
                    assert(ws[0] == w);
                    assert forall|j: int| 0 <= j < w.len() implies !is_white_space(#[trigger] w[j]) by {
                        assert(w[j] == s[i + j]);
                    }
                }
            }
            assert(forall|k: int| 0 <= k < words_from(s, i).len() ==> is_word(#[trigger] words_from(s, i)[k]));
            if all_ascii(s) {
                assert forall|k: int| 0 <= k < ws.len() implies all_ascii(#[trigger] ws[k]) by {
                    if k > 0 {
                        assert(ws[k] == words_from(s, e)[k - 1]);
                    } else {
                        assert forall|j: int| 0 <= j < w.len() implies (w[j] as u32) < 128 by {
                            assert(w[j] == s[i + j]);
                        }
                    }
                }
            }
        }
    }
}

proof fn lemma_word_end_before_space(x: Seq<char>, w: Seq<char>, i: int)
    requires
        0 <= i <= x.len(),
    ensures
        word_end(x + seq![' '] + w, i) == word_end(x, i),
    decreases x.len() - i,
{
    let y = x + seq![' '] + w;
    if i < x.len() {
        assert(y[i] == x[i]);
        if !is_white_space(x[i]) {
            lemma_word_end_before_space(x, w, i + 1);
        }
    } else {
        assert(y[i] == ' ');
    }
}

proof fn lemma_word_end_of_word(y: Seq<char>, i: int)
    requires
        0 <= i <= y.len(),
        forall|j: int| i <= j < y.len() ==> !is_white_space(#[trigger] y[j]),
    ensures
        word_end(y, i) == y.len(),
    decreases y.len() - i,
{
    if i < y.len() {
        lemma_word_end_of_word(y, i + 1);
    }
}

/// A space and a word after a text add that word to its words.
proof fn lemma_words_from_append(x: Seq<char>, w: Seq<char>, i: int)
    requires
        0 <= i <= x.len(),
        is_word(w),
    ensures
        words_from(x + seq![' '] + w, i) == words_from(x, i) + seq![w],
    decreases x.len() - i,
{
    let y = x + seq![' '] + w;
    if i == x.len() {
        let n: int = x.len() as int + 1;
        assert(y[i] == ' ');
        assert forall|j: int| n <= j < y.len() implies !is_white_space(#[trigger] y[j]) by {
            assert(y[j] == w[j - n]);
        }
        lemma_word_end_of_word(y, n);
        assert(y[n] == w[0]);
        assert(y.subrange(n, y.len() as int) =~= w);
        assert(words_from(y, y.len() as int) == Seq::<Seq<char>>::empty());
        assert(words_from(y, n) =~= seq![w]);
        assert(words_from(x, i) == Seq::<Seq<char>>::empty());
        assert(words_from(y, i) =~= words_from(x, i) + seq![w]);
    } else {
        assert(y[i] == x[i]);
        if is_white_space(x[i]) {
            lemma_words_from_append(x, w, i + 1);
        } else {
            lemma_word_end_before_space(x, w, i);
            lemma_word_end(x, i);
            lemma_word_end(x, i + 1);
            let e = word_end(x, i);
            lemma_words_from_append(x, w, e);
            assert(y.subrange(i, e) =~= x.subrange(i, e));
            assert(words_from(y, i) =~= words_from(x, i) + seq![w]);
        }
    }
}

/// Words joined by single spaces split back into the same words.
proof fn lemma_words_of_join(ws: Seq<Seq<char>>)
    requires
        forall|k: int| 0 <= k < ws.len() ==> is_word(#[trigger] ws[k]),
    ensures
        words(join_space(ws)) == ws,
    decreases ws.len(),
{
    if ws.len() == 0 {
        assert(words(join_space(ws)) =~= ws);
    } else if ws.len() == 1 {
        let w = ws[0];
        assert(is_word(w));
        lemma_word_end_of_word(w, 0);
        assert(w.subrange(0, w.len() as int) =~= w);
        assert(words_from(w, w.len() as int) == Seq::<Seq<char>>::empty());
        assert(words(w) =~= seq![w]);
        assert(ws =~= seq![w]);
    } else {
        let front = ws.drop_last();
        assert forall|k: int| 0 <= k < front.len() implies is_word(#[trigger] front[k]) by {
            assert(front[k] == ws[k]);
        }
        lemma_words_of_join(front);
        assert(is_word(ws.last()));
        lemma_words_from_append(join_space(front), ws.last(), 0);
        assert(ws =~= front + seq![ws.last()]);
    }
}

/// Joining title-cased ASCII words gives the joined words up to case.
proof fn lemma_join_titled(ws: Seq<Seq<char>>)
    requires
        forall|k: int| 0 <= k < ws.len() ==> all_ascii(#[trigger] ws[k]),
    ensures
        same_but_case(join_space(ws.map_values(|w: Seq<char>| title_word(w))), join_space(ws)),
    decreases ws.len(),
{
    let ts = ws.map_values(|w: Seq<char>| title_word(w));
    if ws.len() == 0 {
        assert(join_space(ts) =~= join_space(ws));
    } else if ws.len() == 1 {
        lemma_title_word(ws[0]);
    } else {
        let front = ws.drop_last();
        assert forall|k: int| 0 <= k < front.len() implies all_ascii(#[trigger] front[k]) by {
            assert(front[k] == ws[k]);
        }
        lemma_join_titled(front);
        lemma_title_word(ws.last());
        assert(ts.drop_last() =~= front.map_values(|w: Seq<char>| title_word(w)));
        assert(ts.last() == title_word(ws.last()));
        let a = join_space(ts.drop_last());
        let b = join_space(front);
        let ja = join_space(ts);
        let jb = join_space(ws);
        assert(ja == a + seq![' '] + ts.last());
        assert(jb == b + seq![' '] + ws.last());
        assert forall|j: int| 0 <= j < ja.len() implies {
            &&& ascii_lower(#[trigger] ja[j]) == ascii_lower(jb[j])
            &&& (ja[j] as u32) < 128
            &&& is_white_space(ja[j]) == is_white_space(jb[j])
        } by {
            if j < a.len() {
                assert(ja[j] == a[j] && jb[j] == b[j]);
            } else if j == a.len() {
                assert(ja[j] == ' ' && jb[j] == ' ');
            } else {
                assert(ja[j] == ts.last()[j - a.len() - 1]);
                assert(jb[j] == ws.last()[j - b.len() - 1]);
            }
        }
    }
}

/// Title casing a title-cased name changes nothing, for ASCII names written
/// with single spaces between words (as title casing writes them).
pub proof fn law_title_case_idempotent(s: Seq<char>)
    requires
        all_ascii(s),
        s == join_space(words(s)),
    ensures
        title_case(title_case(s)) == title_case(s),
{
    if s.len() > 0 {
        let k = known_genre_at_from(lower_text(s), 0);
        if k >= 0 {
            lemma_known_at_from(lower_text(s), 0);
            lemma_known_value_fixed(k as usize);
        } else {
            let ws = words(s);
            lemma_words_from(s, 0);
            lemma_join_titled(ws);
            let ts = ws.map_values(|w: Seq<char>| title_word(w));
            let t = join_space(ts);
            assert(t == title_case(s));
            assert(all_ascii(t));
            assert(ascii_lower_seq(t) =~= ascii_lower_seq(s));
            assert(t.len() > 0);
            assert forall|i: int| 0 <= i < ts.len() implies is_word(#[trigger] ts[i]) by {
                lemma_title_word(ws[i]);
                assert(is_word(ws[i]));
                let u = ts[i];
                assert(u == title_word(ws[i]));
                assert forall|j: int| 0 <= j < u.len() implies !is_white_space(#[trigger] u[j]) by {
                    assert(!is_white_space(ws[i][j]));
                }
            }
            lemma_words_of_join(ts);
            assert forall|i: int| 0 <= i < ts.len() implies #[trigger] title_word(ts[i]) == ts[i] by {
                lemma_title_word(ws[i]);
            }
            assert(ts.map_values(|w: Seq<char>| title_word(w)) =~= ts);
        }
    }
}

// ---------------------------------------------------------------------------
// Recordings
// ---------------------------------------------------------------------------

/// A genre as MusicBrainz lists it on a recording, with its vote count.
#[derive(Debug)]
pub struct MbGenre {
    pub name: String,
    pub count: Option<u32>,
}

/// A folksonomy tag on a recording, with its vote count.
#[derive(Debug)]
pub struct MbTag {
    pub name: String,
    pub count: Option<u32>,
}

/// One recording of a MusicBrainz search.
#[derive(Debug)]
pub struct MbRecording {
    pub id: Option<String>,
    pub score: Option<u32>,
    pub title: Option<String>,
    pub first_release_date: Option<String>,
    pub genres: Option<Vec<MbGenre>>,
    pub tags: Option<Vec<MbTag>>,
}

pub const REMIX_SUFFIX_COUNT: usize = 7;

/// Title endings that mark a recording as a remix, edit or rework.
pub open spec fn remix_suffix_at(i: usize) -> Seq<char> {
    match i {
        0 => "remix)"@,
        1 => "mix)"@,
        2 => "rework)"@,
        3 => "edit)"@,
        4 => "bootleg)"@,
        5 => "version)"@,
        6 => "re-edit)"@,
        _ => Seq::empty(),
    }
}

fn remix_suffix_entry(i: usize) -> (r: &'static str)
    requires
        i < REMIX_SUFFIX_COUNT,
    ensures
        r@ == remix_suffix_at(i),
{
    match i {
        0 => "remix)",
        1 => "mix)",
        2 => "rework)",
        3 => "edit)",
        4 => "bootleg)",
        5 => "version)",
        _ => "re-edit)",
    }
}

/// `t` contains one of the `remix_suffix` entries.
pub open spec fn contains_any_remix_suffix(t: Seq<char>) -> bool {
    exists|i: usize| i < REMIX_SUFFIX_COUNT && contains(t, #[trigger] remix_suffix_at(i))
}

fn has_remix_suffix(t: &Vec<char>) -> (b: bool)
    ensures
        b == contains_any_remix_suffix(t@),
{
    for i in 0..REMIX_SUFFIX_COUNT
        invariant
            forall|j: usize| j < i ==> !contains(t@, #[trigger] remix_suffix_at(j)),
    {
        let p = chars_of(remix_suffix_entry(i));
        if contains_chars(t, &p) {
            return true;
        }
    }
    false
}

/// The lowercased title of a recording (empty when it has none).
pub open spec fn lower_title(rec: MbRecording) -> Seq<char> {
    match rec.title {
        Some(t) => lowercase(t@),
        None => lowercase(""@),
    }
}

/// A recording is a remix when its lowercased title holds one of the remix endings.
pub open spec fn is_remix_rec(rec: MbRecording) -> bool {
    contains_any_remix_suffix(lower_title(rec))
}

fn is_remix_recording(rec: &MbRecording) -> (b: bool)
    ensures
        b == is_remix_rec(*rec),
{
    let lower = match &rec.title {
        Some(t) => to_lowercase(t.as_str()),
        None => to_lowercase(""),
    };
    let lv = chars_of(lower.as_str());
    has_remix_suffix(&lv)
}

pub const ARTIST_SEPARATOR_COUNT: usize = 6;

/// What joins a primary artist to a guest, in the order they are tried.
pub open spec fn artist_separator_at(i: usize) -> Seq<char> {
    match i {
        0 => " & "@,
        1 => " feat. "@,
        2 => " ft. "@,
        3 => " featuring "@,
        4 => " vs. "@,
        5 => " vs "@,
        _ => Seq::empty(),
    }
}

fn artist_separator_entry(i: usize) -> (r: &'static str)
    requires
        i < ARTIST_SEPARATOR_COUNT,
    ensures
        r@ == artist_separator_at(i),
{
    match i {
        0 => " & ",
        1 => " feat. ",
        2 => " ft. ",
        3 => " featuring ",
        4 => " vs. ",
        _ => " vs ",
    }
}

/// The primary artist: the text before the first separator found (separators
/// tried in table order), trimmed; the whole name when none occurs.
pub open spec fn primary_from(a: Seq<char>, i: int) -> Seq<char>
    decreases ARTIST_SEPARATOR_COUNT - i,
{
    if i < 0 || i >= ARTIST_SEPARATOR_COUNT {
        a
    } else {
        let f = find(a, artist_separator_at(i as usize));
        if f >= 0 {
            trim(a.subrange(0, f))
        } else {
            primary_from(a, i + 1)
        }
    }
}

pub open spec fn primary(a: Seq<char>) -> Seq<char> {
    primary_from(a, 0)
}

/// `"Michael Jackson & Siedah Garrett"` gives `"Michael Jackson"`.
pub fn primary_artist(artist: &str) -> (r: String)
    ensures
        r@ == primary(artist@),
{
    let a = chars_of(artist);
    let mut i: usize = 0;
    while i < ARTIST_SEPARATOR_COUNT
        invariant
            a@ == artist@,
            i <= ARTIST_SEPARATOR_COUNT,
            primary_from(a@, 0) == primary_from(a@, i as int),
        decreases ARTIST_SEPARATOR_COUNT - i,
    {
        let sep = chars_of(artist_separator_entry(i));
        match find_chars(&a, &sep) {
            Some(idx) => {
                proof {
                    lemma_find_from(a@, sep@, 0);
                }
                let head = slice_chars(&a, 0, idx);
                return string_of(&trim_chars(&head));
            },
            None => {},
        }
        i = i + 1;
    }
    string_of(&a)
}

/// What escaping a character for a Lucene phrase produces.
pub open spec fn escape_char(c: char) -> Seq<char> {
    if c == '"' || c == ':' || c == '(' || c == ')' {
        seq!['\\', c]
    } else {
        seq![c]
    }
}

/// `"`, `:`, `(` and `)` are escaped with a backslash.
pub open spec fn escape(s: Seq<char>) -> Seq<char>
    decreases s.len(),
{
    if s.len() == 0 {
        seq![]
    } else {
        escape(s.drop_last()) + escape_char(s.last())
    }
}

fn push_escaped(v: &mut Vec<char>, s: &str)
    ensures
        final(v)@ == old(v)@ + escape(s@),
{
    let cs = chars_of(s);
    for i in 0..cs.len()
        invariant
            cs@ == s@,
            v@ == old(v)@ + escape(cs@.take(i as int)),
    {
        let c = cs[i];
        assert(cs@.take(i + 1).drop_last() =~= cs@.take(i as int));
        if c == '"' || c == ':' || c == '(' || c == ')' {
            v.push('\\');
        }
        v.push(c);
        assert(v@ =~= old(v)@ + escape(cs@.take(i + 1)));
    }
    assert(cs@.take(cs@.len() as int) =~= cs@);
}

/// Escapes `"`, `:`, `(` and `)` for a Lucene query.
pub fn escape_lucene(s: &str) -> (r: String)
    ensures
        r@ == escape(s@),
{
    let mut v: Vec<char> = Vec::new();
    push_escaped(&mut v, s);
    assert(v@ =~= escape(s@));
    string_of(&v)
}

/// The search query for a recording by an artist.
pub open spec fn query_text(title: Seq<char>, artist: Seq<char>) -> Seq<char> {
    "recording:\""@ + escape(title) + "\" AND artist:\""@ + escape(artist) + "\""@
}

/// `recording:"<title>" AND artist:"<artist>"`, both escaped.
pub fn recording_query(title: &str, artist: &str) -> (r: String)
    ensures
        r@ == query_text(title@, artist@),
{
    let mut v: Vec<char> = Vec::new();
    append_str(&mut v, "recording:\"");
    push_escaped(&mut v, title);
    append_str(&mut v, "\" AND artist:\"");
    push_escaped(&mut v, artist);
    append_str(&mut v, "\"");
    assert(v@ =~= query_text(title@, artist@));
    string_of(&v)
}

/// The search score, 0 when the reply gives none.
pub open spec fn search_score(r: MbRecording) -> u32 {
    match r.score {
        Some(s) => s,
        None => 0,
    }
}

/// The recordings scored 70 or more, in their order.
pub open spec fn well_scored(rs: Seq<MbRecording>) -> Seq<MbRecording>
    decreases rs.len(),
{
    if rs.len() == 0 {
        seq![]
    } else if search_score(rs.last()) >= 70 {
        well_scored(rs.drop_last()).push(rs.last())
    } else {
        well_scored(rs.drop_last())
    }
}

/// Keeps the recordings that the search scored 70 or more.
pub fn keep_candidates(recordings: Vec<MbRecording>) -> (r: Vec<MbRecording>)
    ensures
        r@ == well_scored(recordings@),
{
    let ghost rs = recordings@;
    let mut out: Vec<MbRecording> = Vec::new();
    for rec in it: recordings
        invariant
            it.seq() == rs,
            out@ == well_scored(rs.take(it.index() as int)),
    {
        let ghost i = it.index();
        assert(rs.take(i + 1).drop_last() =~= rs.take(i as int));
        let keep = match rec.score {
            Some(s) => s >= 70,
            None => false,
        };
        if keep {
            out.push(rec);
        }
    }
    assert(rs.take(rs.len() as int) =~= rs);
    out
}


// ---------------------------------------------------------------------------
// Choosing among candidates
// ---------------------------------------------------------------------------

/// The year of a release date: the part before the first `-`, as a number.
pub open spec fn date_year(d: Seq<char>) -> Option<u32> {
    parse_u32(before_first(d, '-'))
}

/// The year of a recording's first release, when its date gives one.
pub open spec fn rec_year(r: MbRecording) -> Option<u32> {
    match r.first_release_date {
        Some(d) => date_year(d@),
        None => None,
    }
}

fn release_year(rec: &MbRecording) -> (r: Option<u32>)
    ensures
        r == rec_year(*rec),
{
    match &rec.first_release_date {
        Some(d) => {
            let dv = chars_of(d.as_str());
            let head = before_first_chars(&dv, '-');
            parse_u32_chars(&head)
        },
        None => None,
    }
}

/// What candidates are ordered by: the first-release year, and `u32::MAX` without one.
pub open spec fn year_key(r: MbRecording) -> int {
    match rec_year(r) {
        Some(y) => y as int,
        None => u32::MAX as int,
    }
}

/// The recording lists at least one genre or tag.
pub open spec fn has_genre_data(r: MbRecording) -> bool {
    (r.genres matches Some(g) && g.len() > 0) || (r.tags matches Some(t) && t.len() > 0)
}

fn genre_data(rec: &MbRecording) -> (b: bool)
    ensures
        b == has_genre_data(*rec),
{
    let g = match &rec.genres {
        Some(g) => g.len() > 0,
        None => false,
    };
    let t = match &rec.tags {
        Some(t) => t.len() > 0,
        None => false,
    };
    g || t
}

/// The first position with the smallest key among the positions the mask admits, or -1.
pub open spec fn first_min(keys: Seq<int>, mask: Seq<bool>) -> int
    decreases keys.len(),
{
    if keys.len() == 0 {
        -1
    } else {
        let b = first_min(keys.drop_last(), mask.take(keys.len() - 1));
        if !mask[keys.len() - 1] {
            b
        } else if b >= 0 && keys[b] <= keys.last() {
            b
        } else {
            keys.len() - 1
        }
    }
}

/// Some candidate is no remix.
pub open spec fn any_original(cs: Seq<MbRecording>) -> bool {
    exists|i: int| 0 <= i < cs.len() && !is_remix_rec(#[trigger] cs[i])
}

/// The candidates searched: the originals when there are any, else the remixes.
pub open spec fn in_pool(cs: Seq<MbRecording>, r: MbRecording) -> bool {
    if any_original(cs) {
        !is_remix_rec(r)
    } else {
        is_remix_rec(r)
    }
}

/// The chosen candidate: among the pool, the earliest release that lists
/// genres or tags; failing that, the earliest release of the pool.
pub open spec fn pick_index(cs: Seq<MbRecording>) -> int {
    let keys = cs.map_values(|r: MbRecording| year_key(r));
    let with_data = first_min(
        keys,
        cs.map_values(|r: MbRecording| in_pool(cs, r) && has_genre_data(r)),
    );
    if with_data >= 0 {
        with_data
    } else {
        first_min(keys, cs.map_values(|r: MbRecording| in_pool(cs, r)))
    }
}

fn first_min_exec(keys: &Vec<u64>, mask: &Vec<bool>) -> (r: Option<usize>)
    requires
        keys@.len() == mask@.len(),
    ensures
        match r {
            Some(i) => i as int == first_min(keys@.map_values(|k: u64| k as int), mask@),
            None => first_min(keys@.map_values(|k: u64| k as int), mask@) == -1,
        },
{
    let ghost ks = keys@.map_values(|k: u64| k as int);
    let mut b: Option<usize> = None;
    for j in 0..keys.len()
        invariant
            keys@.len() == mask@.len(),
            ks == keys@.map_values(|k: u64| k as int),
            match b {
                Some(i) => i < j && i as int == first_min(ks.take(j as int), mask@.take(j as int)),
                None => first_min(ks.take(j as int), mask@.take(j as int)) == -1,
            },
    {
        let ghost k1 = ks.take(j + 1);
        let ghost m1 = mask@.take(j + 1);
        assert(k1.drop_last() =~= ks.take(j as int));
        assert(m1.take(j as int) =~= mask@.take(j as int));
        assert(k1.last() == keys@[j as int] as int);
        assert(m1[j as int] == mask@[j as int]);
        if mask[j] {
            match b {
                Some(i) => {
                    assert(k1[i as int] == keys@[i as int] as int);
                    if keys[j] < keys[i] {
                        b = Some(j);
                    }
                },
                None => {
                    b = Some(j);
                },
            }
        }
    }
    assert(ks.take(keys@.len() as int) =~= ks);
    assert(mask@.take(keys@.len() as int) =~= mask@);
    b
}

/// Prefers original recordings over remixes, then those that list genres or
/// tags, then the earliest first release.
pub fn pick_best(candidates: Vec<MbRecording>) -> (r: Option<MbRecording>)
    ensures
        pick_index(candidates@) == -1 <==> r is None,
        r matches Some(rec) ==> rec == candidates@[pick_index(candidates@)],
{
    let ghost cs = candidates@;
    let n = candidates.len();
    let mut remix: Vec<bool> = Vec::new();
    let mut keys: Vec<u64> = Vec::new();
    let mut data: Vec<bool> = Vec::new();
    let mut any_orig = false;
    for i in 0..n
        invariant
            n == cs.len(),
            cs == candidates@,
            remix@ == cs.take(i as int).map_values(|r: MbRecording| is_remix_rec(r)),
            keys@.len() == i,
            forall|j: int| 0 <= j < i ==> #[trigger] keys@[j] as int == year_key(cs[j]),
            data@ == cs.take(i as int).map_values(|r: MbRecording| has_genre_data(r)),
            any_orig == exists|j: int| 0 <= j < i && !is_remix_rec(#[trigger] cs[j]),
    {
        let rec = &candidates[i];
        let rm = is_remix_recording(rec);
        remix.push(rm);
        let k: u64 = match release_year(rec) {
            Some(y) => y as u64,
            None => 0xFFFF_FFFF,
        };
        keys.push(k);
        data.push(genre_data(rec));
        if !rm {
            any_orig = true;
        }
        assert(remix@ =~= cs.take(i + 1).map_values(|r: MbRecording| is_remix_rec(r)));
        assert(data@ =~= cs.take(i + 1).map_values(|r: MbRecording| has_genre_data(r)));
    }
    assert(cs.take(n as int) =~= cs);
    assert(any_orig == any_original(cs));
    assert(keys@.map_values(|k: u64| k as int) =~= cs.map_values(|r: MbRecording| year_key(r)));
    let mut pool: Vec<bool> = Vec::new();
    let mut pool_data: Vec<bool> = Vec::new();
    for i in 0..n
        invariant
            n == cs.len(),
            remix@ == cs.map_values(|r: MbRecording| is_remix_rec(r)),
            data@ == cs.map_values(|r: MbRecording| has_genre_data(r)),
            keys@.map_values(|k: u64| k as int) == cs.map_values(|r: MbRecording| year_key(r)),
            any_orig == any_original(cs),
            pool@ == cs.take(i as int).map_values(|r: MbRecording| in_pool(cs, r)),
            pool_data@ == cs.take(i as int).map_values(|r: MbRecording| in_pool(cs, r) && has_genre_data(r)),
    {
        let p = if any_orig { !remix[i] } else { remix[i] };
        pool.push(p);
        pool_data.push(p && data[i]);
        assert(pool@ =~= cs.take(i + 1).map_values(|r: MbRecording| in_pool(cs, r)));
        assert(pool_data@ =~= cs.take(i + 1).map_values(|r: MbRecording| in_pool(cs, r) && has_genre_data(r)));
    }
    let chosen = match first_min_exec(&keys, &pool_data) {
        Some(i) => Some(i),
        None => first_min_exec(&keys, &pool),
    };
    match chosen {
        Some(i) => {
            proof {
                let ks = cs.map_values(|r: MbRecording| year_key(r));
                lemma_first_min_range(ks, cs.map_values(|r: MbRecording| in_pool(cs, r) && has_genre_data(r)));
                lemma_first_min_range(ks, cs.map_values(|r: MbRecording| in_pool(cs, r)));
            }
            let mut candidates = candidates;
            Some(candidates.remove(i))
        },
        None => None,
    }
}

proof fn lemma_first_min_range(keys: Seq<int>, mask: Seq<bool>)
    requires
        keys.len() == mask.len(),
    ensures
        -1 <= first_min(keys, mask) < keys.len(),
    decreases keys.len(),
{
    if keys.len() > 0 {
        lemma_first_min_range(keys.drop_last(), mask.take(keys.len() - 1));
    }
}


// ---------------------------------------------------------------------------
// Reading a recording
// ---------------------------------------------------------------------------

/// Names with their vote counts, as listed.
pub open spec fn genre_counts(g: Seq<MbGenre>) -> Seq<(Seq<char>, Option<u32>)> {
    g.map_values(|x: MbGenre| (x.name@, x.count))
}

pub open spec fn tag_counts(t: Seq<MbTag>) -> Seq<(Seq<char>, Option<u32>)> {
    t.map_values(|x: MbTag| (x.name@, x.count))
}

pub open spec fn count0(c: Option<u32>) -> int {
    match c {
        Some(n) => n as int,
        None => 0,
    }
}

/// The position of the highest count, the last one on ties (as
/// `Iterator::max_by_key` chooses), or -1.
pub open spec fn last_max(s: Seq<(Seq<char>, Option<u32>)>) -> int
    decreases s.len(),
{
    if s.len() == 0 {
        -1
    } else {
        let b = last_max(s.drop_last());
        if b >= 0 && count0(s[b].1) > count0(s.last().1) {
            b
        } else {
            s.len() - 1
        }
    }
}

/// The name with the highest count.
pub open spec fn top_name(s: Seq<(Seq<char>, Option<u32>)>) -> Option<Seq<char>> {
    let b = last_max(s);
    if b >= 0 {
        Some(s[b].0)
    } else {
        None
    }
}

/// The genre of a recording: its top genre, else its top tag, in title case.
pub open spec fn mb_genre(r: MbRecording) -> Option<Seq<char>> {
    let from_genres = match r.genres {
        Some(g) => top_name(genre_counts(g@)),
        None => None,
    };
    match from_genres {
        Some(n) => Some(title_case(n)),
        None => match r.tags {
            Some(t) => match top_name(tag_counts(t@)) {
                Some(n) => Some(title_case(n)),
                None => None,
            },
            None => None,
        },
    }
}

proof fn lemma_last_max(s: Seq<(Seq<char>, Option<u32>)>)
    ensures
        s.len() == 0 <==> last_max(s) == -1,
        s.len() > 0 ==> 0 <= last_max(s) < s.len(),
        s.len() > 0 ==> forall|j: int| 0 <= j < s.len() ==> count0(#[trigger] s[j].1) <= count0(s[last_max(s)].1),
    decreases s.len(),
{
    if s.len() > 0 {
        let d = s.drop_last();
        lemma_last_max(d);
        assert forall|j: int| 0 <= j < s.len() implies count0(#[trigger] s[j].1) <= count0(s[last_max(s)].1) by {
            if j < d.len() {
                assert(s[j] == d[j]);
            }
            if d.len() > 0 {
                assert(s[last_max(d)] == d[last_max(d)]);
            }
        }
    }
}

/// The editorial genre list comes first: when a recording lists a genre, its
/// genre is the title case of a listed genre with the highest count, and the
/// tags have no say.
pub proof fn law_mb_genre_from_genre_list(r1: MbRecording, r2: MbRecording)
    requires
        r1.genres matches Some(g) && g@.len() > 0,
        r2.genres == r1.genres,
    ensures
        mb_genre(r1) == mb_genre(r2),
        exists|b: int| {
            &&& 0 <= b < (r1.genres->0)@.len()
            &&& mb_genre(r1) == Some(title_case((#[trigger] (r1.genres->0)@[b]).name@))
            &&& forall|j: int| 0 <= j < (r1.genres->0)@.len() ==> count0((#[trigger] (r1.genres->0)@[j]).count)
                <= count0((r1.genres->0)@[b].count)
        },
{
    let g = (r1.genres->0)@;
    let s = genre_counts(g);
    lemma_last_max(s);
    let b = last_max(s);
    assert(s[b] == (g[b].name@, g[b].count));
    assert forall|j: int| 0 <= j < g.len() implies count0((#[trigger] g[j]).count) <= count0(g[b].count) by {
        assert(s[j] == (g[j].name@, g[j].count));
        assert(count0(s[j].1) <= count0(s[b].1));
    }
    assert(mb_genre(r1) == Some(title_case(g[b].name@)));
}

/// The names whose count is positive, in order.
pub open spec fn positive_names(s: Seq<(Seq<char>, Option<u32>)>) -> Seq<Seq<char>>
    decreases s.len(),
{
    if s.len() == 0 {
        seq![]
    } else if count0(s.last().1) > 0 {
        positive_names(s.drop_last()).push(s.last().0)
    } else {
        positive_names(s.drop_last())
    }
}

/// The subgenre of a recording: when it lists several genres, the second one
/// with a positive count, in title case.
pub open spec fn mb_subgenre(r: MbRecording) -> Option<Seq<char>> {
    match r.genres {
        Some(g) => if g.len() > 1 && positive_names(genre_counts(g@)).len() > 1 {
            Some(title_case(positive_names(genre_counts(g@))[1]))
        } else {
            None
        },
        None => None,
    }
}

/// The counts that are given, in order.
pub open spec fn present_counts(s: Seq<(Seq<char>, Option<u32>)>) -> Seq<int>
    decreases s.len(),
{
    if s.len() == 0 {
        seq![]
    } else if s.last().1 is Some {
        present_counts(s.drop_last()).push(s.last().1->0 as int)
    } else {
        present_counts(s.drop_last())
    }
}

/// The vote counts of the genres, or of the tags when there is no genre list.
pub open spec fn all_counts(r: MbRecording) -> Seq<int> {
    match r.genres {
        Some(g) => present_counts(genre_counts(g@)),
        None => match r.tags {
            Some(t) => present_counts(tag_counts(t@)),
            None => seq![],
        },
    }
}

pub open spec fn sum(s: Seq<int>) -> int
    decreases s.len(),
{
    if s.len() == 0 {
        0
    } else {
        sum(s.drop_last()) + s.last()
    }
}

pub open spec fn max0(s: Seq<int>) -> int
    decreases s.len(),
{
    if s.len() == 0 {
        0
    } else if max0(s.drop_last()) >= s.last() {
        max0(s.drop_last())
    } else {
        s.last()
    }
}

pub open spec fn clamp(x: int, lo: int, hi: int) -> int {
    if x < lo {
        lo
    } else if x > hi {
        hi
    } else {
        x
    }
}

/// How much the top count dominates, as a fraction (numerator, denominator):
/// its share of all counts kept within 0.5..=1, or 0.7 when there are no counts.
pub open spec fn dominance(counts: Seq<int>) -> (int, int) {
    let (top, total) = (max0(counts), sum(counts));
    if total > 0 {
        if top * 2 < total {
            (1, 2)
        } else if top > total {
            (1, 1)
        } else {
            (top, total)
        }
    } else {
        (7, 10)
    }
}

/// The confidence of a MusicBrainz result in billionths (rounded down): the
/// search score (70 when absent) as a fraction of 100, times the dominance,
/// times 0.7 when a genre rests on three votes or fewer.
pub open spec fn mb_confidence(r: MbRecording) -> int {
    let score = match r.score {
        Some(s) => s as int,
        None => 70,
    };
    let counts = all_counts(r);
    let penalty = if mb_genre(r) is Some && sum(counts) <= 3 {
        7int
    } else {
        10int
    };
    let (dn, dd) = dominance(counts);
    (score * dn * penalty * 1_000_000_000) / (100 * dd * 10)
}

/// Copies names and counts out of a genre list.
fn genre_pairs(g: &Vec<MbGenre>) -> (r: Vec<(String, Option<u32>)>)
    ensures
        r@.map_values(|p: (String, Option<u32>)| (p.0@, p.1)) == genre_counts(g@),
{
    let mut r: Vec<(String, Option<u32>)> = Vec::new();
    for i in 0..g.len()
        invariant
            r@.len() == i,
            forall|k: int| 0 <= k < i ==> (#[trigger] r@[k]).0@ == g@[k].name@ && r@[k].1 == g@[k].count,
    {
        let name = g[i].name.clone();
        r.push((name, g[i].count));
    }
    assert(r@.map_values(|p: (String, Option<u32>)| (p.0@, p.1)) =~= genre_counts(g@));
    r
}

/// Copies names and counts out of a tag list.
fn tag_pairs(t: &Vec<MbTag>) -> (r: Vec<(String, Option<u32>)>)
    ensures
        r@.map_values(|p: (String, Option<u32>)| (p.0@, p.1)) == tag_counts(t@),
{
    let mut r: Vec<(String, Option<u32>)> = Vec::new();
    for i in 0..t.len()
        invariant
            r@.len() == i,
            forall|k: int| 0 <= k < i ==> (#[trigger] r@[k]).0@ == t@[k].name@ && r@[k].1 == t@[k].count,
    {
        let name = t[i].name.clone();
        r.push((name, t[i].count));
    }
    assert(r@.map_values(|p: (String, Option<u32>)| (p.0@, p.1)) =~= tag_counts(t@));
    r
}

pub open spec fn pairs_view(p: Seq<(String, Option<u32>)>) -> Seq<(Seq<char>, Option<u32>)> {
    p.map_values(|x: (String, Option<u32>)| (x.0@, x.1))
}

/// The name with the highest count, the last one on ties.
fn top_name_exec(p: &Vec<(String, Option<u32>)>) -> (r: Option<String>)
    ensures
        opt_chars(r) == top_name(pairs_view(p@)),
{
    let ghost s = pairs_view(p@);
    let mut b: Option<usize> = None;
    let mut best: u32 = 0;
    for j in 0..p.len()
        invariant
            s == pairs_view(p@),
            match b {
                Some(i) => i < j && i as int == last_max(s.take(j as int)) && best as int == count0(s[i as int].1),
                None => j == 0,
            },
    {
        let ghost t = s.take(j + 1);
        assert(t.drop_last() =~= s.take(j as int));
        assert(t.last() == s[j as int]);
        let c: u32 = match p[j].1 {
            Some(c) => c,
            None => 0,
        };
        assert(s[j as int].1 == p@[j as int].1);
        assert(c as int == count0(t.last().1));
        match b {
            Some(i) => {
                assert(t[i as int] == s[i as int]);
                if !(best > c) {
                    b = Some(j);
                    best = c;
                }
            },
            None => {
                assert(s.take(j as int).len() == 0);
                assert(last_max(s.take(j as int)) == -1);
                b = Some(j);
                best = c;
            },
        }
        assert(b matches Some(i) && i as int == last_max(t));
    }
    assert(s.take(p@.len() as int) =~= s);
    match b {
        Some(i) => Some(p[i].0.clone()),
        None => None,
    }
}

/// The second name with a positive count.
fn second_positive(p: &Vec<(String, Option<u32>)>) -> (r: Option<String>)
    ensures
        match r {
            Some(n) => positive_names(pairs_view(p@)).len() > 1 && n@ == positive_names(pairs_view(p@))[1],
            None => positive_names(pairs_view(p@)).len() <= 1,
        },
{
    let ghost s = pairs_view(p@);
    let mut found: Vec<usize> = Vec::new();
    for j in 0..p.len()
        invariant
            s == pairs_view(p@),
            found@.len() == positive_names(s.take(j as int)).len(),
            forall|k: int| 0 <= k < found@.len() ==> #[trigger] found@[k] < j && s[found@[k] as int].0 == positive_names(s.take(j as int))[k],
    {
        let ghost t = s.take(j + 1);
        assert(t.drop_last() =~= s.take(j as int));
        assert(t.last() == s[j as int]);
        let c: u32 = match p[j].1 {
            Some(c) => c,
            None => 0,
        };
        if c > 0 {
            found.push(j);
        }
    }
    assert(s.take(p@.len() as int) =~= s);
    if found.len() > 1 {
        Some(p[found[1]].0.clone())
    } else {
        None
    }
}

/// The given counts: their sum and their maximum (0 without any).
fn count_stats(p: &Vec<(String, Option<u32>)>) -> (r: (u128, u32))
    ensures
        r.0 as int == sum(present_counts(pairs_view(p@))),
        r.1 as int == max0(present_counts(pairs_view(p@))),
        r.0 <= p@.len() * 0xFFFF_FFFF,
{
    let ghost s = pairs_view(p@);
    let mut total: u128 = 0;
    let mut top: u32 = 0;
    for j in 0..p.len()
        invariant
            s == pairs_view(p@),
            total as int == sum(present_counts(s.take(j as int))),
            top as int == max0(present_counts(s.take(j as int))),
            total <= j * 0xFFFF_FFFF,
    {
        let ghost t = s.take(j + 1);
        assert(t.drop_last() =~= s.take(j as int));
        assert(t.last() == s[j as int]);
        match p[j].1 {
            Some(c) => {
                let ghost before = present_counts(s.take(j as int));
                assert(present_counts(t) == before.push(c as int));
                assert(before.push(c as int).drop_last() =~= before);
                total = total + c as u128;
                if c > top {
                    top = c;
                }
            },
            None => {},
        }
    }
    assert(s.take(p@.len() as int) =~= s);
    (total, top)
}


/// Reads year, genre, subgenre and confidence from the chosen recording.
/// A recording with neither year nor genre gives nothing. The confidence is
/// `mb_confidence`, saturated at `u32::MAX`.
pub fn build_result(rec: MbRecording) -> (r: Option<SourceResult>)
    ensures
        r is None <==> (rec_year(rec) is None && mb_genre(rec) is None),
        r matches Some(sr) ==> {
            &&& sr.source == SourceName::MusicBrainz
            &&& sr.year == rec_year(rec)
            &&& opt_chars(sr.genre) == mb_genre(rec)
            &&& opt_chars(sr.subgenre) == mb_subgenre(rec)
            &&& sr.confidence as int == clamp(mb_confidence(rec), 0, u32::MAX as int)
            &&& sr.mbid is None
        },
{
    let year = release_year(&rec);
    let gp = match &rec.genres {
        Some(g) => Some(genre_pairs(g)),
        None => None,
    };
    let tp = match &rec.tags {
        Some(t) => Some(tag_pairs(t)),
        None => None,
    };
    let top_genre = match &gp {
        Some(p) => top_name_exec(p),
        None => None,
    };
    let genre = match top_genre {
        Some(n) => Some(title_case_genre(n.as_str())),
        None => match &tp {
            Some(p) => match top_name_exec(p) {
                Some(n) => Some(title_case_genre(n.as_str())),
                None => None,
            },
            None => None,
        },
    };
    let subgenre = match &gp {
        Some(p) => {
            if p.len() > 1 {
                match second_positive(p) {
                    Some(n) => Some(title_case_genre(n.as_str())),
                    None => None,
                }
            } else {
                None
            }
        },
        None => None,
    };
    proof {
        match rec.genres {
            Some(g) => {
                assert(gp matches Some(p) && pairs_view(p@) == genre_counts(g@));
                assert(genre_counts(g@).len() == g@.len());
            },
            None => {},
        }
    }
    if year.is_none() && genre.is_none() {
        return None;
    }
    let (total, top) = match &gp {
        Some(p) => count_stats(p),
        None => match &tp {
            Some(p) => count_stats(p),
            None => (0, 0),
        },
    };
    let top = top as u128;
    let (dn, dd): (u128, u128) = if total > 0 {
        if top * 2 < total {
            (1, 2)
        } else if top > total {
            (1, 1)
        } else {
            (top, total)
        }
    } else {
        (7, 10)
    };
    let penalty: u128 = if genre.is_some() && total <= 3 { 7 } else { 10 };
    let score: u128 = match rec.score {
        Some(s) => s as u128,
        None => 70,
    };
    assert(score * dn * penalty * 1_000_000_000 <= 0xFFFF_FFFF * 0xFFFF_FFFF * 10 * 1_000_000_000)
        by (nonlinear_arith)
        requires
            score <= 0xFFFF_FFFF,
            dn <= 0xFFFF_FFFF,
            penalty <= 10,
    ;
    assert(1 <= dd <= 0x1_0000_0000_0000_0000 * 0xFFFF_FFFF);
    assert(100 * dd * 10 <= 1000 * (0x1_0000_0000_0000_0000 * 0xFFFF_FFFF)) by (nonlinear_arith)
        requires
            dd <= 0x1_0000_0000_0000_0000 * 0xFFFF_FFFF,
    ;
    assert(0xFFFF_FFFF * 0xFFFF_FFFF * 10 * 1_000_000_000 < 0x1_0000_0000_0000_0000_0000_0000_0000_0000int);
    assert(1000 * (0x1_0000_0000_0000_0000 * 0xFFFF_FFFF) < 0x1_0000_0000_0000_0000_0000_0000_0000_0000int);
    let num: u128 = score * dn * penalty * 1_000_000_000;
    let den: u128 = 100 * dd * 10;
    let c = num / den;
    let confidence: u32 = if c > 0xFFFF_FFFF { 0xFFFF_FFFF } else { c as u32 };
    Some(SourceResult {
        source: SourceName::MusicBrainz,
        year,
        genre,
        subgenre,
        confidence,
        mbid: None,
    })
}


/// The artist to search again with when the full name found nothing: the
/// primary artist, when it differs from the full name.
pub fn retry_artist(artist: &str) -> (r: Option<String>)
    ensures
        match r {
            Some(p) => p@ == primary(artist@) && p@ != artist@,
            None => primary(artist@) == artist@,
        },
{
    let p = primary_artist(artist);
    if str_eq(p.as_str(), artist) {
        None
    } else {
        Some(p)
    }
}

/// What follows one recording search.
pub enum SearchNext {
    /// The search is over: the best candidate, if any.
    Chosen(Option<MbRecording>),
    /// Nothing was found: search again with this (primary) artist.
    Retry(String),
}

/// Decides what follows a recording search for `artist` (`retried` says
/// whether this was already the search with the primary artist): the best of
/// the candidates if there are any, else one more search with the primary
/// artist where it differs from the artist, else nothing.
pub fn after_search(candidates: Vec<MbRecording>, artist: &str, retried: bool) -> (r: SearchNext)
    ensures
        candidates@.len() > 0 ==> {
            &&& r matches SearchNext::Chosen(o)
            &&& (o is None <==> pick_index(candidates@) == -1)
            &&& (o matches Some(rec) ==> rec == candidates@[pick_index(candidates@)])
        },
        candidates@.len() == 0 && !retried && primary(artist@) != artist@ ==> {
            &&& r matches SearchNext::Retry(p)
            &&& p@ == primary(artist@)
        },
        candidates@.len() == 0 && (retried || primary(artist@) == artist@) ==> r matches SearchNext::Chosen(None),
{
    if candidates.len() > 0 {
        return SearchNext::Chosen(pick_best(candidates));
    }
    if retried {
        return SearchNext::Chosen(None);
    }
    match retry_artist(artist) {
        Some(p) => SearchNext::Retry(p),
        None => SearchNext::Chosen(None),
    }
}

/// What a found recording gives: the parsed result and the recording's MBID.
pub fn recording_outcome(rec: MbRecording) -> (r: (Option<SourceResult>, Option<String>))
    ensures
        r.1 == rec.id,
        r.0 is None <==> (rec_year(rec) is None && mb_genre(rec) is None),
        r.0 matches Some(sr) ==> {
            &&& sr.source == SourceName::MusicBrainz
            &&& sr.year == rec_year(rec)
            &&& opt_chars(sr.genre) == mb_genre(rec)
            &&& opt_chars(sr.subgenre) == mb_subgenre(rec)
            &&& sr.confidence as int == clamp(mb_confidence(rec), 0, u32::MAX as int)
            &&& sr.mbid is None
        },
{
    let ghost r0 = rec;
    let mbid = match &rec.id {
        Some(i) => Some(i.clone()),
        None => None,
    };
    (build_result(rec), mbid)
}


proof fn lemma_first_min(keys: Seq<int>, mask: Seq<bool>)
    requires
        keys.len() == mask.len(),
    ensures
        first_min(keys, mask) == -1 <==> forall|j: int| 0 <= j < mask.len() ==> !mask[j],
        first_min(keys, mask) != -1 ==> {
            let b = first_min(keys, mask);
            &&& 0 <= b < keys.len()
            &&& mask[b]
            &&& forall|j: int| 0 <= j < keys.len() && mask[j] ==> keys[b] <= #[trigger] keys[j]
        },
    decreases keys.len(),
{
    if keys.len() > 0 {
        let n = keys.len() - 1;
        let k0 = keys.drop_last();
        let m0 = mask.take(n);
        lemma_first_min(k0, m0);
        assert forall|j: int| 0 <= j < n implies k0[j] == keys[j] && m0[j] == mask[j] by {}
    }
}

/// When some candidate is an original recording, the chosen one is an original.
pub proof fn law_pick_prefers_originals(cs: Seq<MbRecording>)
    requires
        any_original(cs),
        pick_index(cs) >= 0,
    ensures
        !is_remix_rec(cs[pick_index(cs)]),
{
    let keys = cs.map_values(|r: MbRecording| year_key(r));
    let m1 = cs.map_values(|r: MbRecording| in_pool(cs, r) && has_genre_data(r));
    let m2 = cs.map_values(|r: MbRecording| in_pool(cs, r));
    lemma_first_min(keys, m1);
    lemma_first_min(keys, m2);
}

/// The chosen candidate was first released no later than any other
/// candidate of its pool that lists genres or tags; when none lists any, no
/// later than any candidate of its pool.
pub proof fn law_pick_is_earliest(cs: Seq<MbRecording>)
    requires
        pick_index(cs) >= 0,
    ensures
        forall|j: int|
            0 <= j < cs.len() && in_pool(cs, cs[j]) && has_genre_data(cs[j]) ==> year_key(
                cs[pick_index(cs)],
            ) <= year_key(#[trigger] cs[j]),
        (forall|j: int| 0 <= j < cs.len() && in_pool(cs, cs[j]) ==> !has_genre_data(#[trigger] cs[j]))
            ==> forall|j: int|
            0 <= j < cs.len() && in_pool(cs, cs[j]) ==> year_key(cs[pick_index(cs)]) <= year_key(
                #[trigger] cs[j],
            ),
{
    let keys = cs.map_values(|r: MbRecording| year_key(r));
    let m1 = cs.map_values(|r: MbRecording| in_pool(cs, r) && has_genre_data(r));
    let m2 = cs.map_values(|r: MbRecording| in_pool(cs, r));
    lemma_first_min(keys, m1);
    lemma_first_min(keys, m2);
    let b = pick_index(cs);
    assert forall|j: int|
        0 <= j < cs.len() && in_pool(cs, cs[j]) && has_genre_data(cs[j]) implies year_key(cs[b])
        <= year_key(#[trigger] cs[j]) by {
        assert(m1[j]);
        assert(keys[j] == year_key(cs[j]));
    }
    if forall|j: int| 0 <= j < cs.len() && in_pool(cs, cs[j]) ==> !has_genre_data(#[trigger] cs[j]) {
        assert forall|j: int| 0 <= j < cs.len() && in_pool(cs, cs[j]) implies year_key(cs[b])
            <= year_key(#[trigger] cs[j]) by {
            assert(m2[j]);
            assert(keys[j] == year_key(cs[j]));
            assert forall|i: int| 0 <= i < m1.len() implies !m1[i] by {
                assert(!(in_pool(cs, cs[i]) && has_genre_data(cs[i])));
            }
        }
    }
}

} // verus!
