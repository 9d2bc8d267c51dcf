//! Where the output files of an audio file go.

use vstd::prelude::*;

verus! {

/// The directory part of a path, as `Path::parent` of the standard library
/// finds it: the path without its last component, or nothing where the path
/// is empty or ends in a root.
pub uninterp spec fn path_parent(path: Seq<char>) -> Option<Seq<char>>;

/// The stem of a path's file name, as `Path::file_stem` of the standard
/// library finds it: the file name without its last extension, or nothing
/// where the path has no file name.
pub uninterp spec fn path_file_stem(path: Seq<char>) -> Option<Seq<char>>;

/// The path of `name` inside `directory`, as `Path::join` of the standard
/// library builds it.
pub uninterp spec fn path_join(directory: Seq<char>, name: Seq<char>) -> Seq<char>;

/// Calls `Path::parent`, which works on the text of the path alone and
/// never asks the file system. The contract gives the result its name and
/// claims nothing else of it.
#[verifier::external_body]
fn parent_of(path: &str) -> (parent: Option<String>)
    ensures
        parent.deep_view() == path_parent(path@),
{
    match std::path::Path::new(path).parent() {
        Some(parent) => Some(parent.to_string_lossy().into_owned()),
        None => None,
    }
}

/// Calls `Path::file_stem`, which works on the text of the path alone and
/// never asks the file system. The contract gives the result its name and
/// claims nothing else of it.
#[verifier::external_body]
fn file_stem_of(path: &str) -> (stem: Option<String>)
    ensures
        stem.deep_view() == path_file_stem(path@),
{
    match std::path::Path::new(path).file_stem() {
        Some(stem) => Some(stem.to_string_lossy().into_owned()),
        None => None,
    }
}

/// Calls `Path::join`, which works on the two texts alone and never asks
/// the file system. The contract gives the result its name and claims
/// nothing else of it.
#[verifier::external_body]
fn join_path(directory: &str, name: &str) -> (path: String)
    ensures
        path@ == path_join(directory@, name@),
{
    std::path::Path::new(directory).join(name).to_string_lossy().into_owned()
}

/// The name of an output file: the stem, a dot and the extension.
pub open spec fn file_name(stem: Seq<char>, extension: Seq<char>) -> Seq<char> {
    stem + seq!['.'] + extension
}

/// The directory that output files go to: the audio file's own, or the
/// current directory, `.`, where the audio path has no directory part.
pub open spec fn directory_or_current(parent: Option<Seq<char>>) -> Seq<char> {
    match parent {
        Some(directory) => directory,
        None => seq!['.'],
    }
}

/// The stem that output files are named by: the audio file's own, or the
/// empty one where the audio path has no file name.
pub open spec fn stem_or_empty(stem: Option<Seq<char>>) -> Seq<char> {
    match stem {
        Some(stem) => stem,
        None => Seq::empty(),
    }
}

/// Where the output file with the given extension belongs: in the audio
/// file's directory, under the audio file's stem.
pub open spec fn output_path(audio_path: Seq<char>, extension: Seq<char>) -> Seq<char> {
    path_join(
        directory_or_current(path_parent(audio_path)),
        file_name(stem_or_empty(path_file_stem(audio_path)), extension),
    )
}

/// Builds the name of an output file from a stem and an extension.
pub fn output_file_name(stem: &str, extension: &str) -> (name: String)
    ensures
        name@ == file_name(stem@, extension@),
{
    let mut name = String::from_str(stem);
    name.push('.');
    name.append(extension);
    assert(name@ =~= file_name(stem@, extension@));
    name
}

/// The directory and the file name of the output file with the given
/// extension, for an audio file with the given directory part and stem.
pub fn output_place(parent: &Option<String>, stem: &Option<String>, extension: &str) -> (place: (
    String,
    String,
))
    ensures
        place.0@ == directory_or_current(parent.deep_view()),
        place.1@ == file_name(stem_or_empty(stem.deep_view()), extension@),
{
    let directory = match parent {
        Some(directory) => directory.clone(),
        None => String::from_str("."),
    };
    let name = match stem {
        Some(stem) => output_file_name(stem.as_str(), extension),
        None => output_file_name("", extension),
    };
    proof {
        reveal_strlit(".");
        reveal_strlit("");
        assert("."@ =~= seq!['.']);
        assert(""@ =~= Seq::<char>::empty());
    }
    (directory, name)
}

/// The paths of the subtitle file and of the transcript file that belong
/// to an audio file, each only if it is to be written: in the audio file's
/// directory, under its stem, with the extensions `srt` and `txt`.
pub fn derive_output_paths(wav_path: &str, write_srt: bool, write_txt: bool) -> (paths: (
    Option<String>,
    Option<String>,
))
    ensures
        paths.0 is Some <==> write_srt,
        write_srt ==> paths.0->0@ == output_path(wav_path@, seq!['s', 'r', 't']),
        paths.1 is Some <==> write_txt,
        write_txt ==> paths.1->0@ == output_path(wav_path@, seq!['t', 'x', 't']),
{
    let stem = file_stem_of(wav_path);
    let parent = parent_of(wav_path);
    proof {
        reveal_strlit("srt");
        reveal_strlit("txt");
        assert("srt"@ =~= seq!['s', 'r', 't']);
        assert("txt"@ =~= seq!['t', 'x', 't']);
    }
    let srt = if write_srt {
        let (directory, name) = output_place(&parent, &stem, "srt");
        Some(join_path(directory.as_str(), name.as_str()))
    } else {
        None
    };
    let txt = if write_txt {
        let (directory, name) = output_place(&parent, &stem, "txt");
        Some(join_path(directory.as_str(), name.as_str()))
    } else {
        None
    };
    (srt, txt)
}

} // verus!
