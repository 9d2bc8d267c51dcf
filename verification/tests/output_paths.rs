use std::path::Path;
use transcribeasy::paths::{derive_output_paths, output_file_name, output_place};

fn some(path: &str) -> Option<String> {
    Some(path.to_string())
}

#[test]
fn outputs_stand_beside_the_audio_file() {
    let (srt, txt) = derive_output_paths("/tmp/audio/talk.wav", true, true);
    assert_eq!(srt, some("/tmp/audio/talk.srt"));
    assert_eq!(txt, some("/tmp/audio/talk.txt"));
}

#[test]
fn only_the_paths_asked_for_are_derived() {
    assert_eq!(derive_output_paths("/tmp/talk.wav", true, false), (some("/tmp/talk.srt"), None));
    assert_eq!(derive_output_paths("/tmp/talk.wav", false, true), (None, some("/tmp/talk.txt")));
    assert_eq!(derive_output_paths("/tmp/talk.wav", false, false), (None, None));
}

#[test]
fn a_bare_file_name_stays_relative() {
    let (srt, txt) = derive_output_paths("talk.wav", true, true);
    assert_eq!(srt, some("talk.srt"));
    assert_eq!(txt, some("talk.txt"));
}

#[test]
fn only_the_last_extension_is_replaced() {
    let (srt, _) = derive_output_paths("records/2024.05.talk.wav", true, false);
    assert_eq!(srt, some("records/2024.05.talk.srt"));
    let (_, txt) = derive_output_paths("records/noextension", false, true);
    assert_eq!(txt, some("records/noextension.txt"));
    let (srt, _) = derive_output_paths("records/.hidden", true, false);
    assert_eq!(srt, some("records/.hidden.srt"));
}

#[test]
fn a_path_without_a_parent_goes_to_the_current_directory() {
    let (srt, txt) = derive_output_paths("", true, true);
    assert_eq!(srt, some("./.srt"));
    assert_eq!(txt, some("./.txt"));
    let (srt, _) = derive_output_paths("/", true, false);
    assert_eq!(srt, some("./.srt"));
}

#[test]
fn derived_paths_agree_with_the_standard_library() {
    for audio in ["a/b/c.wav", "c.wav", "./c.wav", "../x/y.z.wav", "/abs/dir/", "dir/..", "a b/c d.wav"] {
        let path = Path::new(audio);
        let stem = path.file_stem().unwrap_or_default().to_string_lossy();
        let parent = path.parent().unwrap_or_else(|| Path::new("."));
        let (srt, txt) = derive_output_paths(audio, true, true);
        assert_eq!(Path::new(&srt.unwrap()), parent.join(format!("{}.srt", stem)));
        assert_eq!(Path::new(&txt.unwrap()), parent.join(format!("{}.txt", stem)));
    }
}

#[test]
fn the_file_name_is_stem_dot_extension() {
    assert_eq!(output_file_name("talk", "srt"), "talk.srt");
    assert_eq!(output_file_name("", "txt"), ".txt");
    assert_eq!(output_file_name("a.b", ""), "a.b.");
}

#[test]
fn the_place_falls_back_to_the_current_directory_and_an_empty_stem() {
    assert_eq!(output_place(&None, &None, "srt"), (".".to_string(), ".srt".to_string()));
    assert_eq!(
        output_place(&some("a/b"), &some("talk"), "txt"),
        ("a/b".to_string(), "talk.txt".to_string())
    );
    assert_eq!(output_place(&some(""), &some("talk"), "srt"), (String::new(), "talk.srt".to_string()));
    assert_eq!(output_place(&None, &some("talk"), "srt"), (".".to_string(), "talk.srt".to_string()));
}
