use editty::paths::{extension_of, file_name_of, file_stem_of, parent_of, resolve_output, with_extension_of};

#[test]
fn bare_name_lands_in_source_folder() {
    let out = resolve_output("/movies/talk.mp4", "intro.mp4");
    assert_eq!(out, "/movies/intro.mp4");
}

#[test]
fn missing_extension_inherits_source() {
    let out = resolve_output("/movies/talk.mkv", "intro");
    assert_eq!(out, "/movies/intro.mkv");
}

#[test]
fn explicit_directory_is_respected() {
    let out = resolve_output("/movies/talk.mp4", "/tmp/clip.mp4");
    assert_eq!(out, "/tmp/clip.mp4");
}

#[test]
fn typed_names_are_trimmed_and_relative_directories_kept() {
    assert_eq!(resolve_output("/movies/talk.mp4", "  intro  "), "/movies/intro.mp4");
    assert_eq!(resolve_output("/movies/talk.mp4", "out/clip"), "out/clip.mp4");
    assert_eq!(resolve_output("talk.mp4", "clip"), "clip.mp4");
    assert_eq!(resolve_output("/movies/talk", "clip"), "/movies/clip");
}

#[test]
fn names_stems_and_extensions_read_like_std_path() {
    assert_eq!(file_name_of("/movies/talk.mp4").as_deref(), Some("talk.mp4"));
    assert_eq!(file_name_of("/movies/").as_deref(), Some("movies"));
    assert_eq!(file_name_of("/"), None);
    assert_eq!(file_name_of("a/.."), None);
    assert_eq!(file_stem_of("/movies/talk.mp4").as_deref(), Some("talk"));
    assert_eq!(file_stem_of("archive.tar.gz").as_deref(), Some("archive.tar"));
    assert_eq!(extension_of("archive.tar.gz").as_deref(), Some("gz"));
    assert_eq!(extension_of(".bashrc"), None);
    assert_eq!(file_stem_of(".bashrc").as_deref(), Some(".bashrc"));
    assert_eq!(extension_of("noext"), None);
    assert_eq!(extension_of("dot."), Some(String::new()));
}

#[test]
fn parents_of_plain_paths() {
    assert_eq!(parent_of("/movies/talk.mp4").as_deref(), Some("/movies"));
    assert_eq!(parent_of("/talk.mp4").as_deref(), Some("/"));
    assert_eq!(parent_of("talk.mp4").as_deref(), Some(""));
    assert_eq!(parent_of("/"), None);
    assert_eq!(parent_of(""), None);
}

#[test]
fn extensions_are_replaced_or_added() {
    assert_eq!(with_extension_of("/movies/talk.mp4", "vtt"), "/movies/talk.vtt");
    assert_eq!(with_extension_of("/movies/talk.mp4", "chapter.txt"), "/movies/talk.chapter.txt");
    assert_eq!(with_extension_of("/movies/talk", "vtt"), "/movies/talk.vtt");
    assert_eq!(with_extension_of("/movies/talk.mp4", ""), "/movies/talk");
    assert_eq!(with_extension_of("/", "vtt"), "/");
}
