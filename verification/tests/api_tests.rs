use rfidx::api::error::Error;
use rfidx::api::file::{files, files_glob, files_startswith};
use rfidx::api::{
    handle_rejection, version, Rejection, BAD_REQUEST, INTERNAL_SERVER_ERROR, NOT_FOUND,
};
use rfidx::file_index::{FileIndex, WalkItem};

fn strings(parts: &[&str]) -> Vec<String> {
    parts.iter().map(|p| p.to_string()).collect()
}

fn index_of(paths: &[&str]) -> FileIndex {
    let items: Vec<WalkItem> = paths
        .iter()
        .map(|p| WalkItem::Entry { resolved: Ok(format!("/srv/root/{}", p)), is_file: true })
        .collect();
    FileIndex::from_path(&Ok("/srv/root".to_string()), &items).unwrap().0
}

#[test]
fn version_names_the_service() {
    assert_eq!(version(), "rfidx v0.1.0\n");
}

#[test]
fn status_codes_have_their_usual_values() {
    assert_eq!(BAD_REQUEST, 400);
    assert_eq!(NOT_FOUND, 404);
    assert_eq!(INTERNAL_SERVER_ERROR, 500);
}

#[test]
fn error_keeps_its_code_and_message() {
    let error = Error::new(418, "teapot");
    assert_eq!(error.status_code(), 418);
    assert_eq!(error.message(), "teapot");
}

#[test]
fn rejection_without_a_route_is_not_found() {
    let reply = handle_rejection(&Rejection::NotFound);
    assert_eq!(reply.status_code(), 404);
    assert_eq!(reply.message(), "Not found");
}

#[test]
fn rejection_by_a_handler_keeps_the_handler_error() {
    let reply = handle_rejection(&Rejection::Api(Error::new(400, "bad pattern")));
    assert_eq!(reply.status_code(), 400);
    assert_eq!(reply.message(), "bad pattern");
}

#[test]
fn any_other_rejection_is_an_internal_error() {
    let reply = handle_rejection(&Rejection::Unhandled);
    assert_eq!(reply.status_code(), 500);
    assert_eq!(reply.message(), "Internal server error");
}

#[test]
fn files_lists_every_path() {
    let index = index_of(&["a.txt", "sub/b.txt", "sub/deep/c.rs"]);
    assert_eq!(files(&index), strings(&["a.txt", "sub/b.txt", "sub/deep/c.rs"]));
    assert_eq!(files(&index_of(&[])), Vec::<String>::new());
}

#[test]
fn files_glob_keeps_the_matching_paths() {
    let index = index_of(&["a.txt", "main.rs", "sub/b.txt", "sub/lib.rs"]);
    assert_eq!(files_glob(&index, "*.rs").unwrap(), strings(&["main.rs", "sub/lib.rs"]));
    assert_eq!(files_glob(&index, "sub/*").unwrap(), strings(&["sub/b.txt", "sub/lib.rs"]));
    assert_eq!(files_glob(&index, "?.txt").unwrap(), strings(&["a.txt"]));
    assert_eq!(files_glob(&index, "[am]*").unwrap(), strings(&["a.txt", "main.rs"]));
    assert_eq!(files_glob(&index, "a.txt").unwrap(), strings(&["a.txt"]));
    assert_eq!(files_glob(&index, "nothing").unwrap(), Vec::<String>::new());
}

#[test]
fn files_glob_rejects_a_pattern_that_does_not_compile() {
    let index = index_of(&["a.txt"]);
    let error = files_glob(&index, "a**b").unwrap_err();
    assert_eq!(error.status_code(), 400);
    assert_eq!(
        error.message(),
        "Pattern syntax error near position 0: recursive wildcards must form a single path component"
    );
    let error = files_glob(&index, "[").unwrap_err();
    assert_eq!(error.status_code(), 400);
    assert_eq!(error.message(), "Pattern syntax error near position 0: invalid range pattern");
    let error = files_glob(&index, "***").unwrap_err();
    assert_eq!(
        error.message(),
        "Pattern syntax error near position 2: wildcards are either regular `*` or recursive `**`"
    );
}

#[test]
fn files_startswith_gives_the_matching_file_names() {
    let index = index_of(&["alpha.txt", "sub/alps.rs", "sub/beta.txt", "al/zed"]);
    assert_eq!(files_startswith(&index, "al"), strings(&["alpha.txt", "alps.rs"]));
    assert_eq!(files_startswith(&index, "beta.txt"), strings(&["beta.txt"]));
    assert_eq!(files_startswith(&index, "beta.txt.more"), Vec::<String>::new());
    assert_eq!(files_startswith(&index, "sub"), Vec::<String>::new());
    assert_eq!(
        files_startswith(&index, ""),
        strings(&["alpha.txt", "alps.rs", "beta.txt", "zed"])
    );
}

#[test]
fn files_startswith_repeats_a_name_that_several_paths_end_in() {
    let index = index_of(&["x/readme", "y/readme", "z/other"]);
    assert_eq!(files_startswith(&index, "read"), strings(&["readme", "readme"]));
}

#[test]
fn files_startswith_compares_characters_not_bytes() {
    let index = index_of(&["été.txt", "etc"]);
    assert_eq!(files_startswith(&index, "ét"), strings(&["été.txt"]));
    assert_eq!(files_startswith(&index, "e"), strings(&["etc"]));
}
