use shelfkeeper::paths::{path_key, paths_match};

#[test]
fn paths_are_compared_by_their_components() {
    assert!(paths_match("John Doe/Kept (1)", "John Doe/Kept (1)"));
    assert!(paths_match("John Doe/Kept (1)/", "John Doe/Kept (1)"));
    assert!(paths_match("John Doe//Kept (1)", "John Doe/Kept (1)"));
    assert!(paths_match("John Doe/./Kept (1)/.", "John Doe/Kept (1)"));
    assert!(paths_match("", ""));
    assert!(paths_match("/a", "//a/"));
    assert!(!paths_match("./a", "a"));
    assert!(!paths_match("/a", "a"));
    assert!(!paths_match("a/../b", "b"));
    assert!(!paths_match("john doe/Kept (1)", "John Doe/Kept (1)"));
    assert!(!paths_match(".", ""));
    assert!(paths_match("./.", "."));
}

#[test]
fn a_key_holds_the_components() {
    let key = path_key("/a//b/./c/");
    assert!(key.absolute);
    let parts: Vec<String> = key.parts.iter().map(|p| p.iter().collect()).collect();
    assert_eq!(parts, vec!["a", "b", "c"]);
    let key = path_key("./x");
    assert!(!key.absolute);
    let parts: Vec<String> = key.parts.iter().map(|p| p.iter().collect()).collect();
    assert_eq!(parts, vec![".", "x"]);
}
