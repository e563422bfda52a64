//! Building the external tool's argument list.
//!
//! Each editing intent appends (or, for a start trim, prepends) a fixed
//! group of arguments. Contracts speak about the list through [`views`],
//! the sequence of character sequences the list denotes.

use vstd::prelude::*;

verus! {

/// The sequence of character sequences that an argument list denotes.
pub open spec fn views(args: Seq<String>) -> Seq<Seq<char>> {
    args.map_values(|s: String| s@)
}

pub proof fn lemma_views_push(args: Seq<String>, s: String)
    ensures
        views(args.push(s)) == views(args).push(s@),
{
    assert(views(args.push(s)) =~= views(args).push(s@));
}

pub proof fn lemma_views_insert(args: Seq<String>, i: int, s: String)
    requires
        0 <= i <= args.len(),
    ensures
        views(args.insert(i, s)) == views(args).insert(i, s@),
{
    assert(views(args.insert(i, s)) =~= views(args).insert(i, s@));
}

/// The video filter that scales every presentation timestamp by the
/// given factor, rendered as text.
pub open spec fn setpts_filter(inverse_text: Seq<char>) -> Seq<char> {
    "setpts="@ + inverse_text + "*PTS"@
}

/// The audio filter that resamples audio to the given rate factor,
/// rendered as text.
pub open spec fn atempo_filter(rate_text: Seq<char>) -> Seq<char> {
    "atempo="@ + rate_text
}

/// The audio filter that shifts pitch by the given ratio, rendered as
/// text.
pub open spec fn rubberband_filter(ratio_text: Seq<char>) -> Seq<char> {
    "rubberband=pitch="@ + ratio_text
}

/// Appends the speed filters: a video filter scaling timestamps by
/// `inverse_text` (the rendering of one over the speed factor) and an
/// audio filter resampling by `rate_text` (the rendering of the speed
/// factor), in that order.
pub fn speed(command_args: &mut Vec<String>, inverse_text: &str, rate_text: &str)
    ensures
        views(final(command_args)@) == views(old(command_args)@) + seq![
            "-vf"@,
            setpts_filter(inverse_text@),
            "-af"@,
            atempo_filter(rate_text@),
        ],
{
    let mut set_pts = String::from_str("setpts=");
    set_pts.append(inverse_text);
    set_pts.append("*PTS");
    let mut atempo = String::from_str("atempo=");
    atempo.append(rate_text);
    command_args.push(String::from_str("-vf"));
    command_args.push(set_pts);
    command_args.push(String::from_str("-af"));
    command_args.push(atempo);
    proof {
        assert(views(final(command_args)@) =~= views(old(command_args)@) + seq![
            "-vf"@,
            setpts_filter(inverse_text@),
            "-af"@,
            atempo_filter(rate_text@),
        ]);
    }
}

/// Appends an audio filter raising pitch; `ratio_text` is the rendering
/// of the pitch ratio, two to the semitone shift over twelve.
pub fn pitch_up(command_args: &mut Vec<String>, ratio_text: &str)
    ensures
        views(final(command_args)@) == views(old(command_args)@) + seq![
            "-af"@,
            rubberband_filter(ratio_text@),
        ],
{
    let mut rubberband = String::from_str("rubberband=pitch=");
    rubberband.append(ratio_text);
    command_args.push(String::from_str("-af"));
    command_args.push(rubberband);
    proof {
        assert(views(final(command_args)@) =~= views(old(command_args)@) + seq![
            "-af"@,
            rubberband_filter(ratio_text@),
        ]);
    }
}

/// Appends an audio filter lowering pitch; `ratio_text` is the
/// rendering of two to the negated semitone shift over twelve.
pub fn pitch_down(command_args: &mut Vec<String>, ratio_text: &str)
    ensures
        views(final(command_args)@) == views(old(command_args)@) + seq![
            "-af"@,
            rubberband_filter(ratio_text@),
        ],
{
    let mut rubberband = String::from_str("rubberband=pitch=");
    rubberband.append(ratio_text);
    command_args.push(String::from_str("-af"));
    command_args.push(rubberband);
    proof {
        assert(views(final(command_args)@) =~= views(old(command_args)@) + seq![
            "-af"@,
            rubberband_filter(ratio_text@),
        ]);
    }
}

/// Appends the duration flag with the rendered number of seconds to
/// keep from the start of the file.
pub fn trim_to(command_args: &mut Vec<String>, seconds_text: &str)
    ensures
        views(final(command_args)@) == views(old(command_args)@) + seq![
            "-t"@,
            seconds_text@,
        ],
{
    command_args.push(String::from_str("-t"));
    command_args.push(String::from_str(seconds_text));
    proof {
        assert(views(final(command_args)@) =~= views(old(command_args)@) + seq![
            "-t"@,
            seconds_text@,
        ]);
    }
}

/// Prepends the seek flag and the rendered number of seconds to drop
/// from the start of the file, ahead of everything already in the list.
pub fn trim_start(command_args: &mut Vec<String>, seconds_text: &str)
    ensures
        views(final(command_args)@) == seq!["-ss"@, seconds_text@] + views(old(command_args)@),
{
    command_args.insert(0, String::from_str("-ss"));
    command_args.insert(1, String::from_str(seconds_text));
    proof {
        assert(views(final(command_args)@) =~= seq!["-ss"@, seconds_text@] + views(
            old(command_args)@,
        ));
    }
}

/// Appends the flag that disables the audio stream.
pub fn mute(command_args: &mut Vec<String>)
    ensures
        views(final(command_args)@) == views(old(command_args)@).push("-an"@),
{
    command_args.push(String::from_str("-an"));
    proof {
        lemma_views_push(old(command_args)@, final(command_args)@.last());
    }
}

/// Prepends the seek flag, without a value.
///
/// The end-trim option is accepted on the command line but is not
/// wired into argument building; this entry point inserts the bare
/// flag and nothing routes a value to it.
pub fn trim_end(command_args: &mut Vec<String>)
    ensures
        views(final(command_args)@) == views(old(command_args)@).insert(0, "-ss"@),
{
    command_args.insert(0, String::from_str("-ss"));
    proof {
        lemma_views_insert(old(command_args)@, 0, final(command_args)@.first());
    }
}

} // verus!
