//! Where the recording of a meeting lies.

use crate::models;
use crate::outside;
use crate::paths;
use crate::prefixes::PathStyle;
use crate::text;
use vstd::prelude::*;
use vstd::string::*;

verus! {

/// The names under which the recording of a meeting is looked for, in this order.
pub open spec fn audio_names() -> Seq<Seq<char>> {
    seq!["audio.mp4"@, "audio.m4a"@, "audio.wav"@, "audio.mp3"@]
}

/// The folder of a meeting's recording.
pub fn recording_folder(folder_path: Option<String>) -> (r: Result<String, String>)
    ensures
        match r {
            Ok(folder) => folder_path == Some(folder) && !text::is_blank(folder@),
            Err(e) => e@ == "Meeting has no recording folder path"@ && (folder_path matches Some(
                path,
            ) ==> text::is_blank(path@)),
        },
{
    match folder_path {
        Some(path) => if !text::is_blank_text(path.as_str()) {
            Ok(path)
        } else {
            Err("Meeting has no recording folder path".to_owned())
        },
        None => Err("Meeting has no recording folder path".to_owned()),
    }
}

/// Where the metadata of a recording lies.
pub fn metadata_path(style: PathStyle, folder: &str) -> (r: String)
    ensures
        r@ == paths::joined(style, folder@, "metadata.json"@),
{
    paths::join(style, folder, "metadata.json")
}

/// The recording that the metadata name, as seen from the folder, from what the metadata hold
/// under `audio_file`.
pub open spec fn named_audio(
    style: PathStyle,
    folder: Seq<char>,
    audio_file: Option<Seq<char>>,
) -> Option<Seq<char>> {
    match audio_file {
        Some(file) => if text::is_blank(file) {
            None
        } else {
            Some(paths::joined(style, folder, file))
        },
        None => None,
    }
}

/// The recording that the metadata name, as seen from the folder, from what the metadata hold
/// under `audio_file`.
pub fn resolve_audio_file(style: PathStyle, folder: &str, audio_file: Option<String>) -> (r:
    Option<String>)
    ensures
        models::text_view(r) == named_audio(style, folder@, models::text_view(audio_file)),
{
    match audio_file {
        Some(file) => if text::is_blank_text(file.as_str()) {
            None
        } else if paths::is_absolute(style, file.as_str()) {
            proof {
                paths::absolute_paths_stay(style, folder@, file@);
            }
            Some(file)
        } else {
            Some(paths::join(style, folder, file.as_str()))
        },
        None => None,
    }
}

/// The recording that the metadata of a folder name.
pub fn audio_path_from_metadata(style: PathStyle, folder: &str, contents: &str) -> (r: Result<
    Option<String>,
    String,
>)
    ensures
        match outside::json_text_member(contents@, "audio_file"@) {
            Ok(file) => r matches Ok(path) && models::text_view(path) == named_audio(style, folder@, file),
            Err(e) => r matches Err(message) && message@ == "Failed to parse metadata.json: "@ + e,
        },
{
    match outside::json_string_member(contents, "audio_file") {
        Ok(file) => Ok(resolve_audio_file(style, folder, file)),
        Err(e) => {
            let mut message = "Failed to parse metadata.json: ".to_owned();
            message.append(e.as_str());
            Err(message)
        },
    }
}

/// Where the recording of a meeting may lie, in the order in which to look: where its metadata
/// say, and under the usual names.
pub open spec fn audio_places(style: PathStyle, folder: Seq<char>, named: Option<Seq<char>>) -> Seq<
    Seq<char>,
> {
    let usual = Seq::new(audio_names().len(), |i: int| paths::joined(style, folder, audio_names()[i]));
    match named {
        Some(path) => seq![path] + usual,
        None => usual,
    }
}

/// Where the recording of a meeting may lie, in the order in which to look.
pub fn audio_candidates(style: PathStyle, folder: &str, named: Option<String>) -> (r: Vec<String>)
    ensures
        models::texts_of(r@) == audio_places(style, folder@, models::text_view(named)),
{
    let ghost first = models::text_view(named);
    let mut r: Vec<String> = Vec::new();
    if let Some(path) = named {
        r.push(path);
    }
    r.push(paths::join(style, folder, "audio.mp4"));
    r.push(paths::join(style, folder, "audio.m4a"));
    r.push(paths::join(style, folder, "audio.wav"));
    r.push(paths::join(style, folder, "audio.mp3"));
    assert(models::texts_of(r@) =~= audio_places(style, folder@, first));
    r
}

/// The first of some places where there is a file.
pub fn resolve_meeting_audio_path(folder: &str, places: &[String], present: &[bool]) -> (r: Result<
    String,
    String,
>)
    requires
        present@.len() == places@.len(),
    ensures
        match r {
            Ok(path) => paths::is_first_present(Some(path), places@, present@),
            Err(e) => e@ == "No supported audio file found in "@ + folder@
                && paths::is_first_present(None, places@, present@),
        },
{
    match paths::first_present(places, present) {
        Some(path) => Ok(path),
        None => {
            let mut message = "No supported audio file found in ".to_owned();
            message.append(folder);
            Err(message)
        },
    }
}

/// A recording is looked for in the file that its metadata name, unless that name is blank, and
/// then in the files of the usual names in the recording's folder, in their order.
pub proof fn recordings_are_looked_for_in_order(
    style: PathStyle,
    folder: Seq<char>,
    file: Option<Seq<char>>,
)
    ensures
        file is None ==> named_audio(style, folder, file) is None,
        file matches Some(name) ==> (text::is_blank(name) ==> named_audio(style, folder, file) is None),
        file matches Some(name) ==> (!text::is_blank(name) ==> named_audio(style, folder, file)
            == Some(paths::joined(style, folder, name))),
        audio_places(style, folder, None) == seq![
            paths::joined(style, folder, "audio.mp4"@),
            paths::joined(style, folder, "audio.m4a"@),
            paths::joined(style, folder, "audio.wav"@),
            paths::joined(style, folder, "audio.mp3"@),
        ],
        file matches Some(path) ==> audio_places(style, folder, file) == seq![path] + audio_places(
            style,
            folder,
            None,
        ),
{
    assert(audio_places(style, folder, None) =~= seq![
        paths::joined(style, folder, "audio.mp4"@),
        paths::joined(style, folder, "audio.m4a"@),
        paths::joined(style, folder, "audio.wav"@),
        paths::joined(style, folder, "audio.mp3"@),
    ]);
}

/// A recording has a folder unless the path is missing or blank, and its metadata lie in that
/// folder.
pub proof fn recordings_have_a_folder(
    folder_path: Option<String>,
    folder: Result<String, String>,
    style: PathStyle,
    place: &str,
    metadata: String,
)
    requires
        call_ensures(recording_folder, (folder_path,), folder),
        call_ensures(metadata_path, (style, place), metadata),
    ensures
        folder is Ok <==> folder_path is Some && !text::is_blank(folder_path->0@),
        folder matches Ok(f) ==> f@ == folder_path->0@,
        folder matches Err(e) ==> e@ == "Meeting has no recording folder path"@,
        metadata@ == paths::joined(style, place@, "metadata.json"@),
{
}

/// The recording is the first file that is there, of the one that the metadata name and those of
/// the usual names.
pub proof fn the_first_recording_is_taken(
    style: PathStyle,
    folder: &str,
    file: Option<String>,
    named: Option<String>,
    places: Vec<String>,
    looked: &[String],
    present: &[bool],
    r: Result<String, String>,
)
    requires
        call_ensures(resolve_audio_file, (style, folder, file), named),
        call_ensures(audio_candidates, (style, folder, named), places),
        call_ensures(resolve_meeting_audio_path, (folder, looked, present), r),
    ensures
        named is Some <==> file is Some && !text::is_blank(file->0@),
        named matches Some(path) ==> path@ == paths::joined(style, folder@, file->0@),
        models::texts_of(places@) == audio_places(style, folder@, models::text_view(named)),
        r matches Ok(path) ==> paths::is_first_present(Some(path), looked@, present@),
        r matches Err(e) ==> paths::is_first_present(None, looked@, present@) && e@
            == "No supported audio file found in "@ + folder@,
{
}

/// The metadata name the recording by the string under `audio_file`; metadata that cannot be read
/// are an error.
pub proof fn metadata_name_the_recording(
    style: PathStyle,
    folder: &str,
    contents: &str,
    r: Result<Option<String>, String>,
)
    requires
        call_ensures(audio_path_from_metadata, (style, folder, contents), r),
    ensures
        outside::json_text_member(contents@, "audio_file"@) matches Ok(file) ==> (r matches Ok(path)
            && models::text_view(path) == named_audio(style, folder@, file)),
        outside::json_text_member(contents@, "audio_file"@) matches Err(e) ==> (r matches Err(
            message,
        ) && message@ == "Failed to parse metadata.json: "@ + e),
{
}

} // verus!
