use cyphera_kernel::vfs::path::normalize;

#[test]
fn normalize_absolute_target_drops_cwd() {
    assert_eq!(normalize("/a/b", "/c/d"), "/c/d");
}

#[test]
fn normalize_relative_target_walks_cwd() {
    assert_eq!(normalize("/a/b", "c/d"), "/a/b/c/d");
}

#[test]
fn normalize_dot_components_skip() {
    assert_eq!(normalize("/", "./a/./b/."), "/a/b");
}

#[test]
fn normalize_dotdot_pops() {
    assert_eq!(normalize("/a/b", "../c"), "/a/c");
}

#[test]
fn normalize_dotdot_clamps_at_root() {
    assert_eq!(normalize("/", "../../../../foo"), "/foo");
}

#[test]
fn normalize_only_dotdot_yields_root() {
    assert_eq!(normalize("/", ".."), "/");
    assert_eq!(normalize("/a/b", "../../.."), "/");
}

#[test]
fn normalize_empty_inputs() {
    assert_eq!(normalize("", ""), "/");
    assert_eq!(normalize("", "/"), "/");
    assert_eq!(normalize("/", ""), "/");
}

#[test]
fn normalize_trailing_slashes_collapsed() {
    assert_eq!(normalize("/", "/a/b///"), "/a/b");
    assert_eq!(normalize("/", "/a//b/"), "/a/b");
}

#[test]
fn normalize_unsanitized_cwd_handled() {
    assert_eq!(normalize("/a/../b/./c", "leaf"), "/b/c/leaf");
    assert_eq!(normalize("../../etc", "passwd"), "/etc/passwd");
}

#[test]
fn normalize_only_separators_in_cwd() {
    assert_eq!(normalize("////", "x"), "/x");
}

#[test]
fn normalize_dotdot_inside_target_does_not_walk_into_cwd_segments() {
    assert_eq!(normalize("/a/b/c", "../../d"), "/a/d");
}

#[test]
fn normalize_long_input_does_not_overflow() {
    let mut t = String::new();
    for _ in 0..1024 {
        t.push_str("../");
    }
    t.push_str("end");
    assert_eq!(normalize("/a/b/c/d", &t), "/end");
}

#[test]
fn normalize_unicode_segments_preserved() {
    assert_eq!(normalize("/", "/α/β/γ"), "/α/β/γ");
}

#[test]
fn a_canonical_path_stays_as_it_is() {
    let once = normalize("/a//b", "../c/./d/");
    assert_eq!(once, "/a/c/d");
    assert_eq!(normalize("/elsewhere", &once), once);
}

#[test]
fn a_cwd_may_be_canonical_or_not() {
    assert_eq!(normalize(&normalize("/", "/x/../y"), "z"), normalize("/x/../y", "z"));
    assert_eq!(normalize(&normalize("/q", "x"), "/z"), normalize("x", "/z"));
}

#[test]
fn a_path_may_be_walked_in_two_stretches() {
    for cwd in ["/", "/home/u", "rel", ""] {
        for first in ["x", "x/../y", "../..", "/abs/./p", "a//"] {
            for rest in ["", "z", "../z", "./z//w", ".."] {
                let whole = format!("{first}/{rest}");
                assert_eq!(normalize(&normalize(cwd, first), rest), normalize(cwd, &whole));
            }
        }
    }
    assert_eq!(normalize(&normalize("/home", "x/y"), "../z"), "/home/x/z");
}
