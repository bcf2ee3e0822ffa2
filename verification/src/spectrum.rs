//! Turning the per-channel spectra of the audio stream into one row of
//! bars: with two or more channels, the first channel mirrored (highest
//! frequency first) followed by the second; with one channel, that channel.

use vstd::prelude::*;

verus! {

/// The bars shown for the given per-channel spectra.
pub open spec fn spec_merge_channels<T>(channels: Seq<Seq<T>>) -> Seq<T> {
    if channels.len() >= 2 {
        channels[0].reverse() + channels[1]
    } else if channels.len() == 1 {
        channels[0]
    } else {
        Seq::empty()
    }
}

/// With two or more channels, the bars are every bin of the first channel,
/// highest first (bar `i` is bin `len - 1 - i`), then every bin of the
/// second channel in order; further channels are not shown.
pub proof fn lemma_merge_stereo<T>(channels: Seq<Seq<T>>)
    requires
        channels.len() >= 2,
    ensures
        spec_merge_channels(channels).len() == channels[0].len() + channels[1].len(),
        forall|i: int|
            0 <= i < channels[0].len() ==> #[trigger] spec_merge_channels(channels)[i] == channels[0][channels[0].len() - 1 - i],
        forall|j: int|
            0 <= j < channels[1].len() ==> #[trigger] spec_merge_channels(channels)[channels[0].len() + j] == channels[1][j],
{
    let l = channels[0];
    let m = spec_merge_channels(channels);
    assert forall|i: int| 0 <= i < l.len() implies #[trigger] m[i] == l[l.len() - 1 - i] by {
        assert(l.reverse()[i] == l[l.len() - 1 - i]);
    }
}

/// With one channel, the bars are its bins in order; with none, there are
/// no bars.
pub proof fn lemma_merge_mono<T>(channels: Seq<Seq<T>>)
    requires
        channels.len() <= 1,
    ensures
        channels.len() == 1 ==> spec_merge_channels(channels) == channels[0],
        channels.len() == 0 ==> spec_merge_channels(channels).len() == 0,
{
}

/// The items of `v` in reverse order.
fn reversed<T>(v: Vec<T>) -> (r: Vec<T>)
    ensures
        r@ == v@.reverse(),
{
    let ghost orig = v@;
    let mut rest = v;
    let mut out: Vec<T> = Vec::new();
    while rest.len() > 0
        invariant
            rest@ == orig.take(rest@.len() as int),
            rest@.len() <= orig.len(),
            out@ == orig.skip(rest@.len() as int).reverse(),
        decreases rest@.len(),
    {
        let ghost before = rest@.len() as int;
        let x = rest.pop().unwrap();
        out.push(x);
        proof {
            assert(orig.skip(before - 1) =~= seq![x] + orig.skip(before));
            assert(out@ =~= orig.skip(before - 1).reverse());
        }
    }
    assert(orig.skip(0) =~= orig);
    out
}

/// Merges the per-channel spectra of the audio stream into the row of bars
/// that the panel shows.
pub fn merge_channels<T>(channels: Vec<Vec<T>>) -> (merged: Vec<T>)
    ensures
        merged@ == spec_merge_channels(channels@.map_values(|c: Vec<T>| c@)),
{
    let mut channels = channels;
    let n = channels.len();
    if n >= 2 {
        channels.truncate(2);
        let mut right = channels.pop().unwrap();
        let left = channels.pop().unwrap();
        let mut buf = reversed(left);
        buf.append(&mut right);
        buf
    } else if n == 1 {
        channels.pop().unwrap()
    } else {
        Vec::new()
    }
}

} // verus!
