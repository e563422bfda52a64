use vidwrap::paths::{extension_of, is_supported_extension, stem_of};
use vidwrap::plan::default_output_name;
use vidwrap::resolve::{decimal_string, resolve_among, OutputResolver};

#[test]
fn extension_after_last_dot_of_last_component() {
    assert_eq!(extension_of("clip.mp4"), Some("mp4".to_string()));
    assert_eq!(extension_of("dir/archive.tar.gz"), Some("gz".to_string()));
    assert_eq!(extension_of("trailing."), Some("".to_string()));
}

#[test]
fn extension_absent_cases() {
    assert_eq!(extension_of("clip"), None);
    assert_eq!(extension_of(".hidden"), None);
    assert_eq!(extension_of("dotted.dir/clip"), None);
    assert_eq!(extension_of(""), None);
}

#[test]
fn stem_is_last_component_before_last_dot() {
    assert_eq!(stem_of("clip.mp4"), "clip");
    assert_eq!(stem_of("dir/archive.tar.gz"), "archive.tar");
}

#[test]
fn supported_extensions_allow_list() {
    assert!(is_supported_extension("mp4"));
    assert!(is_supported_extension("MOV"));
    assert!(is_supported_extension("mOv"));
    assert!(!is_supported_extension("mp3"));
    assert!(!is_supported_extension("mp44"));
    assert!(!is_supported_extension(""));
}

#[test]
fn decimal_renderings() {
    assert_eq!(decimal_string(0), "0");
    assert_eq!(decimal_string(7), "7");
    assert_eq!(decimal_string(10), "10");
    assert_eq!(decimal_string(304), "304");
    assert_eq!(decimal_string(65535), "65535");
}

#[test]
fn sentinel_output_takes_input_extension() {
    assert_eq!(default_output_name(&"Output.".to_string(), "clip.mp4"), "Output.mp4");
    assert_eq!(default_output_name(&"Output.".to_string(), "a.mov"), "Output.mov");
}

#[test]
fn explicit_output_is_kept() {
    assert_eq!(default_output_name(&"result.mov".to_string(), "clip.mp4"), "result.mov");
}

#[test]
fn first_candidate_is_the_requested_path() {
    let r = OutputResolver::new("Output.mp4");
    assert_eq!(r.current(), "Output.mp4");
    assert!(!r.renamed());
    assert_eq!(r.counter(), 0);
}

#[test]
fn suffixes_count_up_from_one() {
    let mut r = OutputResolver::new("Output.mp4");
    r.advance();
    assert_eq!(r.current(), "Output1.mp4");
    assert!(r.renamed());
    r.advance();
    assert_eq!(r.current(), "Output2.mp4");
    r.advance();
    assert_eq!(r.current(), "Output3.mp4");
    assert_eq!(r.counter(), 3);
}

#[test]
fn suffix_goes_to_the_stem_not_the_extension() {
    let mut r = OutputResolver::new("archive.tar.gz");
    r.advance();
    assert_eq!(r.current(), "archive.tar1.gz");
}

#[test]
fn first_free_suffix_wins() {
    let empty: Vec<String> = Vec::new();
    assert_eq!(resolve_among("Output.mp4", &empty), Some("Output.mp4".to_string()));

    let one = vec!["Output.mp4".to_string()];
    assert_eq!(resolve_among("Output.mp4", &one), Some("Output1.mp4".to_string()));

    let two = vec!["Output.mp4".to_string(), "Output1.mp4".to_string()];
    assert_eq!(resolve_among("Output.mp4", &two), Some("Output2.mp4".to_string()));

    let gap = vec!["Output1.mp4".to_string(), "Output2.mp4".to_string()];
    assert_eq!(resolve_among("Output.mp4", &gap), Some("Output.mp4".to_string()));
}

#[test]
fn candidates_drop_the_directory() {
    let mut r = OutputResolver::new("out/clip.mp4");
    assert_eq!(r.current(), "out/clip.mp4");
    r.advance();
    assert_eq!(r.current(), "clip1.mp4");
}
