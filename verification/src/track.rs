//! The line of text that names the song being played.

use vstd::prelude::*;

verus! {

/// The parts joined with `sep` between each two of them.
pub open spec fn seq_join(parts: Seq<Seq<char>>, sep: Seq<char>) -> Seq<char>
    decreases parts.len(),
{
    if parts.len() == 0 {
        Seq::empty()
    } else if parts.len() == 1 {
        parts[0]
    } else {
        seq_join(parts.drop_last(), sep) + sep + parts.last()
    }
}

/// The label of a song with the given title and artists: `title - artists`,
/// the artists separated by `, `, with `No Title` and `No Artist` standing in
/// for what the player does not tell; `No song playing` when no song is known.
pub open spec fn spec_song_label(track: Option<(Option<&str>, Option<Vec<&str>>)>) -> Seq<char> {
    match track {
        None => "No song playing"@,
        Some((title, artists)) => {
            let t = match title {
                Some(t) => t@,
                None => "No Title"@,
            };
            let a = match artists {
                Some(a) => seq_join(a@.map_values(|s: &str| s@), ", "@),
                None => "No Artist"@,
            };
            t + " - "@ + a
        },
    }
}

/// A song without artists is labelled with its title followed by ` - `.
pub proof fn lemma_label_without_artists(title: Option<&str>, artists: Vec<&str>)
    requires
        artists@.len() == 0,
    ensures
        spec_song_label(Some((title, Some(artists)))) == (match title {
            Some(t) => t@,
            None => "No Title"@,
        }) + seq![' ', '-', ' '],
{
    reveal_strlit(" - ");
    assert(artists@.map_values(|s: &str| s@) =~= Seq::<Seq<char>>::empty());
}

/// A song with one artist is labelled `title - artist`.
pub proof fn lemma_label_one_artist(title: &str, artists: Vec<&str>)
    requires
        artists@.len() == 1,
    ensures
        spec_song_label(Some((Some(title), Some(artists)))) == title@ + seq![' ', '-', ' '] + artists@[0]@,
{
    reveal_strlit(" - ");
}

/// Adding an artist to the end of a non-empty list of artists adds `, `
/// and that artist's name to the end of the label: the label names every
/// artist, in order, separated by `, `.
pub proof fn lemma_label_adds_artist(title: Option<&str>, artists: Vec<&str>, more: Vec<&str>, name: &str)
    requires
        artists@.len() >= 1,
        more@ == artists@.push(name),
    ensures
        spec_song_label(Some((title, Some(more)))) == spec_song_label(Some((title, Some(artists)))) + seq![',', ' '] + name@,
{
    reveal_strlit(", ");
    let parts = artists@.map_values(|s: &str| s@);
    let more_parts = more@.map_values(|s: &str| s@);
    assert(more_parts =~= parts.push(name@));
    assert(more_parts.drop_last() =~= parts);
    assert(seq_join(more_parts, ", "@) == seq_join(parts, ", "@) + ", "@ + name@);
}

/// The names joined with `sep` between each two of them.
pub fn join(names: &Vec<&str>, sep: &str) -> (joined: String)
    ensures
        joined@ == seq_join(names@.map_values(|s: &str| s@), sep@),
{
    let ghost parts = names@.map_values(|s: &str| s@);
    let mut joined = String::new();
    let n = names.len();
    let mut i: usize = 0;
    while i < n
        invariant
            i <= n,
            n == names@.len(),
            parts == names@.map_values(|s: &str| s@),
            joined@ == seq_join(parts.take(i as int), sep@),
        decreases n - i,
    {
        proof {
            assert(parts.take(i + 1).drop_last() =~= parts.take(i as int));
            assert(parts.take(i + 1).last() == names@[i as int]@);
        }
        if i != 0 {
            joined.append(sep);
        } else {
            assert(parts.take(0) =~= Seq::<Seq<char>>::empty());
            assert(parts.take(1) =~= seq![parts[0]]);
        }
        joined.append(names[i]);
        i = i + 1;
    }
    assert(parts.take(n as int) =~= parts);
    joined
}

/// The label of the song being played (see `spec_song_label`).
pub fn song_label(track: Option<(Option<&str>, Option<Vec<&str>>)>) -> (label: String)
    ensures
        label@ == spec_song_label(track),
{
    match track {
        None => String::from_str("No song playing"),
        Some((title, artists)) => {
            let mut label = match title {
                Some(t) => String::from_str(t),
                None => String::from_str("No Title"),
            };
            label.append(" - ");
            match artists {
                Some(a) => {
                    let joined = join(&a, ", ");
                    label.append(joined.as_str());
                },
                None => label.append("No Artist"),
            }
            label
        },
    }
}

} // verus!
