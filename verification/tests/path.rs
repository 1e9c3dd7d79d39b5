use ink::path::{expand_tilde, extension, file_name, file_stem, join, join_path, resolve};

fn s(x: &str) -> Option<String> {
    Some(x.to_string())
}

#[test]
fn file_names_follow_std_path() {
    assert_eq!(file_name("/usr/bin/"), s("bin"));
    assert_eq!(file_name("tmp/foo.txt"), s("foo.txt"));
    assert_eq!(file_name("foo.txt/."), s("foo.txt"));
    assert_eq!(file_name("foo.txt/.//"), s("foo.txt"));
    assert_eq!(file_name("foo.txt/.."), None);
    assert_eq!(file_name("/"), None);
    assert_eq!(file_name(""), None);
    assert_eq!(file_name("."), None);
    assert_eq!(file_name("a//b"), s("b"));
}

#[test]
fn stems_and_extensions_follow_std_path() {
    assert_eq!(file_stem("foo.rs"), s("foo"));
    assert_eq!(file_stem("foo.tar.gz"), s("foo.tar"));
    assert_eq!(file_stem(".bashrc"), s(".bashrc"));
    assert_eq!(file_stem("noext"), s("noext"));
    assert_eq!(file_stem("/"), None);
    assert_eq!(extension("foo.rs"), s("rs"));
    assert_eq!(extension("foo.tar.gz"), s("gz"));
    assert_eq!(extension(".bashrc"), None);
    assert_eq!(extension("a."), s(""));
    assert_eq!(extension("noext"), None);
}

#[test]
fn joining_paths() {
    assert_eq!(join_path("a", "b"), "a/b");
    assert_eq!(join_path("a/", "b"), "a/b");
    assert_eq!(join_path("", "b"), "b");
    assert_eq!(join_path("a", "/b"), "/b");
    assert_eq!(join("~/x", "y.txt", s("/home/u")), "/home/u/x/y.txt");
    assert_eq!(join("base", " ~ ", s("/home/u")), "/home/u");
}

#[test]
fn tilde_expansion_trims_and_needs_home() {
    assert_eq!(expand_tilde(" ~/notes; ", s("/h")), "/h/notes");
    assert_eq!(expand_tilde("~", s("/h")), "/h");
    assert_eq!(expand_tilde("~user", s("/h")), "~user");
    assert_eq!(expand_tilde("~/x", None), "~/x");
    assert_eq!(expand_tilde(";;a;b;;", None), "a;b");
}

#[test]
fn resolving_relative_paths() {
    assert_eq!(resolve("/abs", None, s("/cwd")), "/abs");
    assert_eq!(resolve("rel", None, s("/cwd")), "/cwd/rel");
    assert_eq!(resolve("rel", None, None), "rel");
    assert_eq!(resolve("~/f", s("/h"), s("/cwd")), "/h/f");
}
