use cdl::repo::{cache_dir_name, repo_address};

#[test]
fn address_gets_scheme_once() {
    assert_eq!(repo_address("github.com/user/mod"), "https://github.com/user/mod");
    assert_eq!(repo_address("https://github.com/user/mod"), "https://github.com/user/mod");
    assert_eq!(repo_address("http://x"), "https://http://x");
    assert_eq!(repo_address(""), "https://");
}

#[test]
fn cache_dir_flattens_address() {
    assert_eq!(cache_dir_name("https://github.com/user/mod"), "github.com__user__mod");
    assert_eq!(cache_dir_name("https://a/https://b"), "a__b");
    assert_eq!(cache_dir_name("plain"), "plain");
}
