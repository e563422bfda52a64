use vidwrap::args::{mute, pitch_down, pitch_up, speed, trim_end, trim_start, trim_to};
use vidwrap::plan::{
    build_command_args, default_output_name, finalize_args, ArgError, Options, SpeedArgs,
};
use vidwrap::resolve::resolve_among;

fn base_opts(input: &str) -> Options {
    Options {
        input: input.to_string(),
        output: "Output.".to_string(),
        speed: None,
        pitch_up: None,
        pitch_down: None,
        trim_to: None,
        trim_start: None,
        mute: false,
    }
}

fn speed_args(s: f64) -> SpeedArgs {
    SpeedArgs { inverse_text: (1 as f64 / s).to_string(), rate_text: s.to_string() }
}

#[test]
fn speed_appends_video_then_audio_filter() {
    let mut args = vec!["-i".to_string(), "clip.mp4".to_string()];
    let s: f64 = 2.0;
    speed(&mut args, &(1 as f64 / s).to_string(), &s.to_string());
    assert_eq!(args, vec!["-i", "clip.mp4", "-vf", "setpts=0.5*PTS", "-af", "atempo=2"]);
}

#[test]
fn pitch_up_appends_rubberband_filter() {
    let mut args: Vec<String> = Vec::new();
    let semitones: f64 = 12.0;
    let ratio = 2_f64.powf(semitones / 12.0);
    pitch_up(&mut args, &ratio.to_string());
    assert_eq!(args, vec!["-af", "rubberband=pitch=2"]);
}

#[test]
fn pitch_down_appends_rubberband_filter() {
    let mut args: Vec<String> = Vec::new();
    let semitones: f64 = 12.0;
    let ratio = 2_f64.powf(semitones / 12.0 * -1_f64);
    pitch_down(&mut args, &ratio.to_string());
    assert_eq!(args, vec!["-af", "rubberband=pitch=0.5"]);
}

#[test]
fn trim_to_appends_duration_flag() {
    let mut args = vec!["x".to_string()];
    let seconds: f64 = 5.0;
    trim_to(&mut args, &seconds.to_string());
    assert_eq!(args, vec!["x", "-t", "5"]);
}

#[test]
fn trim_start_inserts_at_front() {
    let mut args = vec!["-i".to_string(), "a.mov".to_string(), "-t".to_string(), "5".to_string()];
    let seconds: f64 = 2.5;
    trim_start(&mut args, &seconds.to_string());
    assert_eq!(args, vec!["-ss", "2.5", "-i", "a.mov", "-t", "5"]);
}

#[test]
fn trim_end_inserts_bare_seek_flag() {
    let mut args = vec!["-i".to_string()];
    trim_end(&mut args);
    assert_eq!(args, vec!["-ss", "-i"]);
}

#[test]
fn mute_appends_disable_audio_flag() {
    let mut args: Vec<String> = Vec::new();
    mute(&mut args);
    assert_eq!(args, vec!["-an"]);
}

#[test]
fn base_list_alone_for_no_op_options() {
    let opts = base_opts("clip.mp4");
    let args = build_command_args(&opts).unwrap();
    assert_eq!(args, vec!["-i", "clip.mp4", "-loglevel", "error"]);
}

#[test]
fn speed_two_end_to_end() {
    let mut opts = base_opts("clip.mp4");
    opts.speed = Some(speed_args(2.0));
    let mut args = build_command_args(&opts).unwrap();
    assert_eq!(
        args,
        vec!["-i", "clip.mp4", "-loglevel", "error", "-vf", "setpts=0.5*PTS", "-af", "atempo=2"]
    );
    let requested = default_output_name(&opts.output, &opts.input);
    assert_eq!(requested, "Output.mp4");
    let taken: Vec<String> = Vec::new();
    let resolved = resolve_among(&requested, &taken).unwrap();
    assert_eq!(resolved, "Output.mp4");
    finalize_args(&mut args, &resolved);
    assert_eq!(args[args.len() - 3..], ["-c:v", "copy", "Output.mp4"]);
}

#[test]
fn mute_and_trim_to_end_to_end() {
    let mut opts = base_opts("a.mov");
    opts.mute = true;
    opts.trim_to = Some((5.0_f64).to_string());
    let mut args = build_command_args(&opts).unwrap();
    assert_eq!(args, vec!["-i", "a.mov", "-loglevel", "error", "-t", "5", "-an"]);
    let requested = default_output_name(&opts.output, &opts.input);
    let taken: Vec<String> = Vec::new();
    let resolved = resolve_among(&requested, &taken).unwrap();
    assert_eq!(resolved, "Output.mov");
    finalize_args(&mut args, &resolved);
    assert_eq!(
        args,
        vec!["-i", "a.mov", "-loglevel", "error", "-t", "5", "-an", "-c:v", "copy", "Output.mov"]
    );
}

#[test]
fn mute_appears_exactly_once_among_many_options() {
    let mut opts = base_opts("clip.mp4");
    opts.speed = Some(speed_args(1.5));
    opts.pitch_up = Some(2_f64.powf(3.0 / 12.0).to_string());
    opts.pitch_down = Some(2_f64.powf(-2.0 / 12.0).to_string());
    opts.trim_to = Some((7.5_f64).to_string());
    opts.trim_start = Some((1.0_f64).to_string());
    opts.mute = true;
    let args = build_command_args(&opts).unwrap();
    let disable_audio = args.iter().filter(|a| a.as_str() == "-an").count();
    assert_eq!(disable_audio, 1);
    assert_eq!(args[args.len() - 1], "-an");
}

#[test]
fn no_disable_audio_without_mute() {
    let mut opts = base_opts("clip.mp4");
    opts.speed = Some(speed_args(0.5));
    opts.trim_start = Some((3.0_f64).to_string());
    let args = build_command_args(&opts).unwrap();
    assert_eq!(args.iter().filter(|a| a.as_str() == "-an").count(), 0);
}

#[test]
fn trim_start_precedes_input_flag() {
    let mut opts = base_opts("clip.mp4");
    opts.speed = Some(speed_args(2.0));
    opts.mute = true;
    opts.trim_start = Some((4.0_f64).to_string());
    let args = build_command_args(&opts).unwrap();
    assert_eq!(args[0], "-ss");
    assert_eq!(args[1], "4");
    assert_eq!(args[2], "-i");
}

#[test]
fn unsupported_extension_is_rejected() {
    let opts = base_opts("notes.txt");
    assert_eq!(build_command_args(&opts), Err(ArgError::UnsupportedExtension));
}

#[test]
fn unsupported_extension_rejected_whatever_the_flags() {
    let mut opts = base_opts("notes.txt");
    opts.speed = Some(speed_args(2.0));
    opts.mute = true;
    opts.trim_to = Some((5.0_f64).to_string());
    assert_eq!(build_command_args(&opts), Err(ArgError::UnsupportedExtension));
    assert_eq!(build_command_args(&opts), Err(ArgError::UnsupportedExtension));
}

#[test]
fn missing_extension_is_rejected() {
    let opts = base_opts("clip");
    assert_eq!(build_command_args(&opts), Err(ArgError::MissingExtension));
}

#[test]
fn extension_match_ignores_ascii_case() {
    assert!(build_command_args(&base_opts("CLIP.MP4")).is_ok());
    assert!(build_command_args(&base_opts("clip.MoV")).is_ok());
    assert!(build_command_args(&base_opts("clip.mp3")).is_err());
}
