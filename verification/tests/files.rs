use darkicewolf50_cloud::files::split_file_request;

#[test]
fn split_file_request_at_last_dot() {
    assert_eq!(split_file_request("logo.png"), Some(("logo".to_string(), "png".to_string())));
    assert_eq!(
        split_file_request("archive.tar.gz"),
        Some(("archive.tar".to_string(), "gz".to_string()))
    );
}

#[test]
fn split_file_request_without_dot_is_none() {
    assert_eq!(split_file_request("README"), None);
    assert_eq!(split_file_request(""), None);
}

#[test]
fn split_file_request_edge_dots() {
    assert_eq!(split_file_request("."), Some(("".to_string(), "".to_string())));
    assert_eq!(split_file_request(".hidden"), Some(("".to_string(), "hidden".to_string())));
    assert_eq!(split_file_request("name."), Some(("name".to_string(), "".to_string())));
}

#[test]
fn split_file_request_matches_rsplitn() {
    for s in ["a.b", "a.b.c", "x", "..", "é.ü"] {
        let mut it = s.rsplitn(2, '.');
        let expected = match (it.next(), it.next()) {
            (Some(ext), Some(name)) => Some((name.to_string(), ext.to_string())),
            _ => None,
        };
        assert_eq!(split_file_request(s), expected);
    }
}

#[test]
fn law_split_request_round_trip_example() {
    let (name, ext) = split_file_request("my.photo.jpeg").unwrap();
    assert_eq!(format!("{}.{}", name, ext), "my.photo.jpeg");
    assert!(!ext.contains('.'));
    assert_eq!(split_file_request(&format!("{}.{}", "a.b", "c")), Some(("a.b".to_string(), "c".to_string())));
}
