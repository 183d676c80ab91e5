use texlab::uri::normalize;

fn normal(uri: &str) -> String {
    String::from_utf8(normalize(uri.as_bytes())).unwrap()
}

#[test]
fn scheme_is_lowercased() {
    assert_eq!(normal("FILE:///home/User/Main.tex"), "file:///home/User/Main.tex");
    assert_eq!(normal("HTTP://Example.org/A"), "http://Example.org/A");
    assert_eq!(normal("Untitled:Untitled-1"), "untitled:Untitled-1");
    assert_eq!(normal("a+B.c-D:rest"), "a+b.c-d:rest");
}

#[test]
fn percent_escapes_are_capitalised() {
    assert_eq!(normal("file:///a%2fb%c3%a4.tex"), "file:///a%2Fb%C3%A4.tex");
    assert_eq!(normal("file:///100%25"), "file:///100%25");
    assert_eq!(normal("file:///a%zzb%f"), "file:///a%zzb%f");
    assert_eq!(normal("file:///%%af"), "file:///%%AF");
    assert_eq!(normal("file:///%a%bc"), "file:///%a%BC");
}

#[test]
fn file_uris_lose_trailing_slashes() {
    assert_eq!(normal("file:///home/user/"), "file:///home/user");
    assert_eq!(normal("file:///home/user///"), "file:///home/user");
    assert_eq!(normal("file:///"), "file:///");
    assert_eq!(normal("file:////"), "file:///");
    assert_eq!(normal("http://example.org/"), "http://example.org/");
    assert_eq!(normal("FILE:///A/"), "file:///A");
}

#[test]
fn identifiers_without_scheme_stay_as_they_are() {
    for plain in ["/home/user/a%2fb/", "main.tex", "", "C:/Users/x%aa/", ":x", "1a:b%ff", "a b:c%ff", "ab"] {
        assert_eq!(normal(plain), plain);
    }
}

#[test]
fn normal_form_is_stable() {
    for uri in [
        "FILE:///a%2fb/%c3//",
        "file:///",
        "File:////",
        "HTTP://x/%aa/",
        "/plain/path/",
        "file:///%2F/",
        "file:///a%2",
        "x:",
        "ab:%a%af/",
    ] {
        let once = normal(uri);
        assert_eq!(normal(&once), once, "{}", uri);
    }
}
