//! Turning a validated set of editing intents into the external tool's
//! argument list.
//!
//! The plan always starts from the base list — the input-file flag pair
//! followed by the log-level flag pair — and applies the active options
//! in a fixed order: speed, pitch up, pitch down, duration bound,
//! start trim (which goes to the front, ahead of the input-file flag),
//! and mute. The finished plan gets the copy-video-codec flag pair and the
//! resolved output path appended.
//!
//! Numeric option values reach this module already rendered as text;
//! an absent option is an absent `Option`, not a sentinel number.

use vstd::prelude::*;
use crate::args::{
    atempo_filter, mute, pitch_down, pitch_up, rubberband_filter, setpts_filter, speed, trim_start,
    trim_to, views,
};
use crate::paths::{
    extension_of, file_name, is_supported_extension, lemma_extension_no_dot_no_slash,
    lemma_last_at_absent, lemma_last_at_witness, spec_accepts, spec_extension,
};

verus! {

/// The two renderings a speed change needs: `inverse_text` renders one
/// over the speed factor (the timestamp scale), `rate_text` renders the
/// speed factor itself (the audio rate).
pub struct SpeedArgs {
    pub inverse_text: String,
    pub rate_text: String,
}

/// A validated set of editing intents.
///
/// Every numeric value is carried as the text it should appear as on
/// the external tool's command line; `None` means the option was not
/// requested (or was requested with its no-op value).
pub struct Options {
    /// Path of the source media file.
    pub input: String,
    /// Requested output path; the literal `Output.` asks for a default
    /// name that copies the input's extension.
    pub output: String,
    /// Speed change, active when the factor is not one.
    pub speed: Option<SpeedArgs>,
    /// Pitch raise: the rendering of two to the semitone shift over
    /// twelve.
    pub pitch_up: Option<String>,
    /// Pitch drop: the rendering of two to the negated semitone shift
    /// over twelve.
    pub pitch_down: Option<String>,
    /// Keep only this many rendered seconds from the start.
    pub trim_to: Option<String>,
    /// Drop this many rendered seconds from the start.
    pub trim_start: Option<String>,
    /// Disable the audio stream.
    pub mute: bool,
}

/// Why an invocation was rejected before any external work.
#[derive(Debug, PartialEq, Eq, Structural)]
pub enum ArgError {
    /// The input path's final component has no extension at all.
    MissingExtension,
    /// The input path's extension is not on the allow-list.
    UnsupportedExtension,
}

/// The base argument list: the input-file flag pair, then the log-level
/// flag pair.
pub open spec fn base_args(input: Seq<char>) -> Seq<Seq<char>> {
    seq!["-i"@, input, "-loglevel"@, "error"@]
}

/// The argument list the options map to, before output resolution.
pub open spec fn planned_args(o: Options) -> Seq<Seq<char>> {
    let a = base_args(o.input@);
    let a = if o.speed is Some {
        a + seq![
            "-vf"@,
            setpts_filter(o.speed->0.inverse_text@),
            "-af"@,
            atempo_filter(o.speed->0.rate_text@),
        ]
    } else {
        a
    };
    let a = if o.pitch_up is Some {
        a + seq!["-af"@, rubberband_filter(o.pitch_up->0@)]
    } else {
        a
    };
    let a = if o.pitch_down is Some {
        a + seq!["-af"@, rubberband_filter(o.pitch_down->0@)]
    } else {
        a
    };
    let a = if o.trim_to is Some {
        a + seq!["-t"@, o.trim_to->0@]
    } else {
        a
    };
    let a = if o.trim_start is Some {
        seq!["-ss"@, o.trim_start->0@] + a
    } else {
        a
    };
    let a = if o.mute {
        a.push("-an"@)
    } else {
        a
    };
    a
}

/// Validates the input's extension and builds the argument list for the
/// given intents.
///
/// Success depends on the input path alone: the plan is built if and
/// only if the input's extension is on the allow-list, whatever the
/// other options say; the specific error tells which way validation
/// failed.
pub fn build_command_args(o: &Options) -> (r: Result<Vec<String>, ArgError>)
    ensures
        r is Ok <==> spec_accepts(o.input@),
        r matches Ok(v) ==> views(v@) == planned_args(*o),
        r matches Err(e) ==> ((e == ArgError::MissingExtension) <==> spec_extension(
            o.input@,
        ) is None),
{
    let ext = match extension_of(o.input.as_str()) {
        None => {
            return Err(ArgError::MissingExtension);
        },
        Some(e) => e,
    };
    if !is_supported_extension(ext.as_str()) {
        return Err(ArgError::UnsupportedExtension);
    }
    let mut a: Vec<String> = Vec::new();
    a.push(String::from_str("-i"));
    a.push(o.input.clone());
    a.push(String::from_str("-loglevel"));
    a.push(String::from_str("error"));
    let ghost g0 = base_args(o.input@);
    proof {
        assert(views(a@) =~= g0);
    }
    match &o.speed {
        Some(sp) => speed(&mut a, sp.inverse_text.as_str(), sp.rate_text.as_str()),
        None => {},
    }
    let ghost g1 = if o.speed is Some {
        g0 + seq![
            "-vf"@,
            setpts_filter(o.speed->0.inverse_text@),
            "-af"@,
            atempo_filter(o.speed->0.rate_text@),
        ]
    } else {
        g0
    };
    assert(views(a@) == g1);
    match &o.pitch_up {
        Some(ratio) => pitch_up(&mut a, ratio.as_str()),
        None => {},
    }
    let ghost g2 = if o.pitch_up is Some {
        g1 + seq!["-af"@, rubberband_filter(o.pitch_up->0@)]
    } else {
        g1
    };
    assert(views(a@) == g2);
    match &o.pitch_down {
        Some(ratio) => pitch_down(&mut a, ratio.as_str()),
        None => {},
    }
    let ghost g3 = if o.pitch_down is Some {
        g2 + seq!["-af"@, rubberband_filter(o.pitch_down->0@)]
    } else {
        g2
    };
    assert(views(a@) == g3);
    match &o.trim_to {
        Some(seconds) => trim_to(&mut a, seconds.as_str()),
        None => {},
    }
    let ghost g4 = if o.trim_to is Some {
        g3 + seq!["-t"@, o.trim_to->0@]
    } else {
        g3
    };
    assert(views(a@) == g4);
    match &o.trim_start {
        Some(seconds) => trim_start(&mut a, seconds.as_str()),
        None => {},
    }
    let ghost g5 = if o.trim_start is Some {
        seq!["-ss"@, o.trim_start->0@] + g4
    } else {
        g4
    };
    assert(views(a@) == g5);
    if o.mute {
        mute(&mut a);
    }
    assert(views(a@) == planned_args(*o));
    Ok(a)
}

/// Appends the copy-video-codec flag pair and the resolved output path,
/// completing the argument list.
pub fn finalize_args(command_args: &mut Vec<String>, output_path: &str)
    ensures
        views(final(command_args)@) == views(old(command_args)@) + seq![
            "-c:v"@,
            "copy"@,
            output_path@,
        ],
{
    command_args.push(String::from_str("-c:v"));
    command_args.push(String::from_str("copy"));
    command_args.push(String::from_str(output_path));
    proof {
        assert(views(final(command_args)@) =~= views(old(command_args)@) + seq![
            "-c:v"@,
            "copy"@,
            output_path@,
        ]);
    }
}

/// A start trim always leads the plan: the seek flag stands at position
/// zero, its rendered seconds at position one, and the input-file flag
/// — the head of every plan without a start trim — is pushed to
/// position two, whatever the other options say.
pub proof fn lemma_trim_start_leads(o: Options)
    requires
        o.trim_start is Some,
    ensures
        planned_args(o).len() >= 6,
        planned_args(o)[0] == "-ss"@,
        planned_args(o)[1] == o.trim_start->0@,
        planned_args(o)[2] == "-i"@,
{
}

/// An active speed change contributes its two filter pairs — the
/// timestamp-scaling video filter, then the rate-changing audio filter
/// — directly after the base arguments, whatever else is active; only
/// a start trim shifts the whole group by its two leading arguments.
pub proof fn lemma_speed_follows_base(o: Options)
    requires
        o.speed is Some,
    ensures
        ({
            let off: int = if o.trim_start is Some {
                2
            } else {
                0
            };
            &&& planned_args(o).len() >= off + 8
            &&& planned_args(o).subrange(off, off + 4) == base_args(o.input@)
            &&& planned_args(o)[off + 4] == "-vf"@
            &&& planned_args(o)[off + 5] == setpts_filter(o.speed->0.inverse_text@)
            &&& planned_args(o)[off + 6] == "-af"@
            &&& planned_args(o)[off + 7] == atempo_filter(o.speed->0.rate_text@)
        }),
{
    let off: int = if o.trim_start is Some {
        2
    } else {
        0
    };
    assert(planned_args(o).subrange(off, off + 4) =~= base_args(o.input@));
}

/// How many arguments of `args` are exactly `x`.
pub open spec fn count_matches(args: Seq<Seq<char>>, x: Seq<char>) -> nat
    decreases args.len(),
{
    if args.len() == 0 {
        0
    } else {
        count_matches(args.drop_last(), x) + if args.last() == x {
            1nat
        } else {
            0nat
        }
    }
}

pub proof fn lemma_count_matches_add(a: Seq<Seq<char>>, b: Seq<Seq<char>>, x: Seq<char>)
    ensures
        count_matches(a + b, x) == count_matches(a, x) + count_matches(b, x),
    decreases b.len(),
{
    if b.len() == 0 {
        assert(a + b =~= a);
    } else {
        assert((a + b).drop_last() =~= a + b.drop_last());
        assert((a + b).last() == b.last());
        lemma_count_matches_add(a, b.drop_last(), x);
    }
}

pub proof fn lemma_count_matches_push(a: Seq<Seq<char>>, y: Seq<char>, x: Seq<char>)
    ensures
        count_matches(a.push(y), x) == count_matches(a, x) + if y == x {
            1nat
        } else {
            0nat
        },
{
    assert(a.push(y).drop_last() =~= a);
    assert(a.push(y).last() == y);
}

pub proof fn lemma_count_matches_empty(x: Seq<char>)
    ensures
        count_matches(Seq::<Seq<char>>::empty(), x) == 0,
{
}

pub proof fn lemma_count_matches_single(y: Seq<char>, x: Seq<char>)
    ensures
        count_matches(seq![y], x) == if y == x {
            1nat
        } else {
            0nat
        },
{
    lemma_count_matches_empty(x);
    assert(seq![y] =~= Seq::<Seq<char>>::empty().push(y));
    lemma_count_matches_push(Seq::<Seq<char>>::empty(), y, x);
}

pub proof fn lemma_count_matches_pair(y1: Seq<char>, y2: Seq<char>, x: Seq<char>)
    ensures
        count_matches(seq![y1, y2], x) == (if y1 == x {
            1nat
        } else {
            0nat
        }) + (if y2 == x {
            1nat
        } else {
            0nat
        }),
{
    lemma_count_matches_single(y1, x);
    assert(seq![y1, y2] =~= seq![y1].push(y2));
    lemma_count_matches_push(seq![y1], y2, x);
}

/// The disable-audio argument appears in the plan exactly once when
/// mute is active and never otherwise, whatever the other active
/// options are.
///
/// The input must be one the plan accepts, and a rendered trim bound
/// must not itself spell the disable-audio flag; no rendering of a
/// number does.
pub proof fn lemma_mute_appends_exactly_one(o: Options)
    requires
        spec_accepts(o.input@),
        o.trim_to matches Some(t) ==> t@ != "-an"@,
        o.trim_start matches Some(t) ==> t@ != "-an"@,
    ensures
        count_matches(planned_args(o), "-an"@) == if o.mute {
            1nat
        } else {
            0nat
        },
{
    reveal_strlit("-an");
    reveal_strlit("-i");
    reveal_strlit("-loglevel");
    reveal_strlit("error");
    reveal_strlit("-vf");
    reveal_strlit("-af");
    reveal_strlit("-t");
    reveal_strlit("-ss");
    reveal_strlit("setpts=");
    reveal_strlit("atempo=");
    reveal_strlit("rubberband=pitch=");
    assert(o.input@ != "-an"@) by {
        if o.input@ == "-an"@ {
            assert forall|j: int| 0 <= j < o.input@.len() implies o.input@[j] != '/' by {
                assert("-an"@[0] == '-' && "-an"@[1] == 'a' && "-an"@[2] == 'n');
            }
            lemma_last_at_absent(o.input@, '/');
            assert(file_name(o.input@) =~= o.input@);
            assert forall|j: int| 0 <= j < file_name(o.input@).len() implies file_name(o.input@)[j]
                != '.' by {
                assert("-an"@[0] == '-' && "-an"@[1] == 'a' && "-an"@[2] == 'n');
            }
            lemma_last_at_absent(file_name(o.input@), '.');
            assert(spec_extension(o.input@) is None);
        }
    }
    let g0 = base_args(o.input@);
    let g1 = if o.speed is Some {
        g0 + seq![
            "-vf"@,
            setpts_filter(o.speed->0.inverse_text@),
            "-af"@,
            atempo_filter(o.speed->0.rate_text@),
        ]
    } else {
        g0
    };
    let g2 = if o.pitch_up is Some {
        g1 + seq!["-af"@, rubberband_filter(o.pitch_up->0@)]
    } else {
        g1
    };
    let g3 = if o.pitch_down is Some {
        g2 + seq!["-af"@, rubberband_filter(o.pitch_down->0@)]
    } else {
        g2
    };
    let g4 = if o.trim_to is Some {
        g3 + seq!["-t"@, o.trim_to->0@]
    } else {
        g3
    };
    let g5 = if o.trim_start is Some {
        seq!["-ss"@, o.trim_start->0@] + g4
    } else {
        g4
    };
    let x = "-an"@;
    assert(x.len() == 3);
    assert("-vf"@ != x) by {
        assert("-vf"@[1] == 'v' && x[1] == 'a');
    }
    assert("-af"@ != x) by {
        assert("-af"@[2] == 'f' && x[2] == 'n');
    }
    assert("-ss"@ != x) by {
        assert("-ss"@[1] == 's' && x[1] == 'a');
    }
    assert(count_matches(g0, x) == 0) by {
        assert(g0 =~= seq!["-i"@, o.input@] + seq!["-loglevel"@, "error"@]);
        lemma_count_matches_pair("-i"@, o.input@, x);
        lemma_count_matches_pair("-loglevel"@, "error"@, x);
        lemma_count_matches_add(seq!["-i"@, o.input@], seq!["-loglevel"@, "error"@], x);
    }
    if o.speed is Some {
        let d = seq![
            "-vf"@,
            setpts_filter(o.speed->0.inverse_text@),
            "-af"@,
            atempo_filter(o.speed->0.rate_text@),
        ];
        assert(count_matches(d, x) == 0) by {
            assert(setpts_filter(o.speed->0.inverse_text@).len() >= 7);
            assert(atempo_filter(o.speed->0.rate_text@).len() >= 7);
            assert(d =~= seq!["-vf"@, setpts_filter(o.speed->0.inverse_text@)] + seq![
                "-af"@,
                atempo_filter(o.speed->0.rate_text@),
            ]);
            lemma_count_matches_pair("-vf"@, setpts_filter(o.speed->0.inverse_text@), x);
            lemma_count_matches_pair("-af"@, atempo_filter(o.speed->0.rate_text@), x);
            lemma_count_matches_add(
                seq!["-vf"@, setpts_filter(o.speed->0.inverse_text@)],
                seq!["-af"@, atempo_filter(o.speed->0.rate_text@)],
                x,
            );
        }
        lemma_count_matches_add(g0, d, x);
    }
    assert(count_matches(g1, x) == 0);
    if o.pitch_up is Some {
        let d = seq!["-af"@, rubberband_filter(o.pitch_up->0@)];
        assert(count_matches(d, x) == 0) by {
            assert(rubberband_filter(o.pitch_up->0@).len() >= 17);
            lemma_count_matches_pair("-af"@, rubberband_filter(o.pitch_up->0@), x);
        }
        lemma_count_matches_add(g1, d, x);
    }
    assert(count_matches(g2, x) == 0);
    if o.pitch_down is Some {
        let d = seq!["-af"@, rubberband_filter(o.pitch_down->0@)];
        assert(count_matches(d, x) == 0) by {
            assert(rubberband_filter(o.pitch_down->0@).len() >= 17);
            lemma_count_matches_pair("-af"@, rubberband_filter(o.pitch_down->0@), x);
        }
        lemma_count_matches_add(g2, d, x);
    }
    assert(count_matches(g3, x) == 0);
    if o.trim_to is Some {
        let d = seq!["-t"@, o.trim_to->0@];
        assert(count_matches(d, x) == 0) by {
            lemma_count_matches_pair("-t"@, o.trim_to->0@, x);
        }
        lemma_count_matches_add(g3, d, x);
    }
    assert(count_matches(g4, x) == 0);
    if o.trim_start is Some {
        let d = seq!["-ss"@, o.trim_start->0@];
        assert(count_matches(d, x) == 0) by {
            lemma_count_matches_pair("-ss"@, o.trim_start->0@, x);
        }
        lemma_count_matches_add(d, g4, x);
    }
    assert(count_matches(g5, x) == 0);
    if o.mute {
        lemma_count_matches_push(g5, x, x);
    }
    assert(planned_args(o) == if o.mute {
        g5.push("-an"@)
    } else {
        g5
    });
}

/// Whether an invocation is accepted depends on the input path alone:
/// two option sets with the same input are both accepted or both
/// rejected, so rerunning with an unsupported input fails the same way
/// whatever the other flags are.
pub proof fn lemma_accepts_independent_of_flags(a: Options, b: Options)
    requires
        a.input@ == b.input@,
    ensures
        spec_accepts(a.input@) == spec_accepts(b.input@),
{
}

/// The requested output path with the no-output sentinel replaced: the
/// literal `Output.` becomes `Output.` followed by the input's
/// extension; any other request stands unchanged.
pub open spec fn spec_default_output(output: Seq<char>, input: Seq<char>) -> Seq<char> {
    if output == "Output."@ {
        "Output."@ + spec_extension(input)->0
    } else {
        output
    }
}

/// A defaulted output name carries exactly the input's extension.
pub proof fn lemma_default_output_extension(output: Seq<char>, input: Seq<char>)
    requires
        output == "Output."@,
        spec_extension(input) is Some,
    ensures
        spec_extension(spec_default_output(output, input)) == spec_extension(input),
{
    reveal_strlit("Output.");
    let e = spec_extension(input)->0;
    let d = spec_default_output(output, input);
    assert(d == "Output."@ + e);
    lemma_extension_no_dot_no_slash(input);
    assert("Output."@[0] == 'O' && "Output."@[1] == 'u' && "Output."@[2] == 't' && "Output."@[3]
        == 'p' && "Output."@[4] == 'u' && "Output."@[5] == 't' && "Output."@[6] == '.');
    assert forall|j: int| 0 <= j < d.len() implies d[j] != '/' by {
        if j < 7 {
            assert(d[j] == "Output."@[j]);
        } else {
            assert(d[j] == e[j - 7]);
        }
    }
    lemma_last_at_absent(d, '/');
    assert(file_name(d) =~= d);
    assert(d[6] == '.');
    assert forall|j: int| 6 < j < d.len() implies d[j] != '.' by {
        assert(d[j] == e[j - 7]);
    }
    lemma_last_at_witness(d, '.', 6);
    assert(spec_extension(d)->0 =~= e);
}

/// Replaces the no-output sentinel by a default name that copies the
/// input's extension.
pub fn default_output_name(output: &String, input: &str) -> (r: String)
    requires
        output@ == "Output."@ ==> spec_extension(input@) is Some,
    ensures
        r@ == spec_default_output(output@, input@),
{
    let sentinel = String::from_str("Output.");
    if output.eq(&sentinel) {
        let mut r = String::from_str("Output.");
        match extension_of(input) {
            Some(e) => {
                r.append(e.as_str());
                r
            },
            None => unreached(),
        }
    } else {
        output.clone()
    }
}

} // verus!
