use webserver::http_parser::{Filepath, HttpTarget, HttpTargetParameters};

#[test]
fn query_parameters_preserve_order_and_duplicates() {
    let target = HttpTarget::from_str("/x?a=1&a=2&b=3").unwrap();
    assert_eq!(target.path.as_ref().unwrap().as_str(), "/x");
    let parameters = target.parameters.as_ref().unwrap();
    let a = parameters.get("a").unwrap();
    assert_eq!(a.len(), 2);
    assert_eq!(a[0].as_str(), "1");
    assert_eq!(a[1].as_str(), "2");
    let b = parameters.get("b").unwrap();
    assert_eq!(b.len(), 1);
    assert_eq!(b[0].as_str(), "3");
    assert!(parameters.get("c").is_none());
}

#[test]
fn target_without_query_has_no_parameters() {
    let target = HttpTarget::from_str("/index.html").unwrap();
    assert_eq!(target.path.as_ref().unwrap().as_str(), "/index.html");
    assert!(target.parameters.is_none());
}

#[test]
fn bare_query_fragment_parses_directly() {
    let parameters = HttpTargetParameters::from_str("k=v&k2=v2").unwrap();
    assert_eq!(parameters.get("k").unwrap()[0].as_str(), "v");
    assert_eq!(parameters.get("k2").unwrap()[0].as_str(), "v2");
}

#[test]
fn unit_without_equals_ends_the_scan() {
    let parameters = HttpTargetParameters::from_str("/x?a=1&junk&b=2");
    let parameters = parameters.unwrap();
    assert_eq!(parameters.get("a").unwrap()[0].as_str(), "1");
    assert!(parameters.get("b").is_none());
    assert!(parameters.get("junk").is_none());
    assert!(parameters.get("junk&b").is_none());
}

#[test]
fn no_parameters_at_all_is_an_error() {
    assert!(HttpTargetParameters::from_str("/plain/path").is_err());
}

#[test]
fn directory_and_filename_derive_from_last_dot_and_slash() {
    let target = HttpTarget::from_str("/site/page.html").unwrap();
    assert_eq!(target.directory(), Some("/site/"));
    assert_eq!(target.filename(), Some("page.html"));

    let directory_only = HttpTarget::from_str("/site/assets").unwrap();
    assert_eq!(directory_only.directory(), Some("/site/assets"));
    assert_eq!(directory_only.filename(), None);

    let bare_file = HttpTarget::from_str("page.html").unwrap();
    assert_eq!(bare_file.directory(), None);
    assert_eq!(bare_file.filename(), Some("page.html"));

    // The dot in an earlier segment does not make the last segment a filename.
    let dotted_directory = HttpTarget::from_str("/v1.0/docs").unwrap();
    assert_eq!(dotted_directory.directory(), Some("/v1.0/docs"));
    assert_eq!(dotted_directory.filename(), None);
}

#[test]
fn set_filename_replaces_only_the_filename() {
    let mut target = HttpTarget::from_str("/site/page.html").unwrap();
    target.set_filename("other.html");
    assert_eq!(target.path.as_ref().unwrap().as_str(), "/site/other.html");

    let mut no_directory = HttpTarget::new();
    no_directory.set_filename("index.html");
    assert_eq!(no_directory.path.as_ref().unwrap().as_str(), "/index.html");
}

#[test]
fn set_directory_keeps_the_filename() {
    let mut target = HttpTarget::from_str("/site/page.html").unwrap();
    target.set_directory("/elsewhere");
    assert_eq!(target.path.as_ref().unwrap().as_str(), "/elsewhere/page.html");

    let mut directory_only = HttpTarget::from_str("/site/assets").unwrap();
    directory_only.set_directory("/moved");
    assert_eq!(directory_only.path.as_ref().unwrap().as_str(), "/moved");
}

#[test]
fn directory_count_counts_separators() {
    let target = HttpTarget::from_str("/a/b/c.txt").unwrap();
    assert_eq!(target.directory_count(), 3);
    assert_eq!(HttpTarget::new().directory_count(), 0);
}

#[test]
fn n_directories_returns_prefix_through_kth_separator() {
    let target = HttpTarget::from_str("/a/b/c.txt").unwrap();
    assert_eq!(target.n_directories(1), Some("/"));
    assert_eq!(target.n_directories(2), Some("/a/"));
    assert_eq!(target.n_directories(3), Some("/a/b/"));
    assert_eq!(target.n_directories(4), None);
    assert!(HttpTarget::new().n_directories(1).is_none());
}

#[test]
fn filepath_splits_at_last_separator() {
    let path = Filepath::from_str("/www/site/page.html").unwrap();
    assert_eq!(path.directory.as_ref().unwrap().as_str(), "/www/site/");
    assert_eq!(path.filename.as_ref().unwrap().as_str(), "page.html");

    let trailing = Filepath::from_str("/www/site/").unwrap();
    assert_eq!(trailing.directory.as_ref().unwrap().as_str(), "/www/site/");
    assert!(trailing.filename.is_none());

    let no_extension = Filepath::from_str("/www/site").unwrap();
    assert_eq!(no_extension.directory.as_ref().unwrap().as_str(), "/www/site");
    assert!(no_extension.filename.is_none());

    assert!(Filepath::from_str("no-separator.txt").is_err());

    let empty = Filepath::empty();
    assert!(empty.directory.is_none() && empty.filename.is_none());
}

#[test]
fn filepath_text_joins_directory_and_filename() {
    let path = Filepath::from_str("/www/site/page.html").unwrap();
    assert_eq!(path.to_text().as_str(), "/www/site/page.html");
    assert_eq!(Filepath::empty().to_text().as_str(), "");
}
