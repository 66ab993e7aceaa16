// Tests for the inclusion search policy over reported probe outcomes.

use sv_parser_pp::resolver::{join_path, resolve};

fn b(s: &str) -> Vec<u8> {
    s.as_bytes().to_vec()
}

#[test]
fn join_inserts_one_separator() {
    assert_eq!(join_path(&b("dir"), &b("f.svh")), b("dir/f.svh"));
    assert_eq!(join_path(&b("dir/"), &b("f.svh")), b("dir/f.svh"));
    assert_eq!(join_path(&b(""), &b("f.svh")), b("f.svh"));
}

#[test]
fn absolute_name_is_kept() {
    let roots = vec![b("lib")];
    let hits = vec![true];
    assert_eq!(resolve(&b("/abs/f.svh"), true, false, &roots, &hits), b("/abs/f.svh"));
}

#[test]
fn name_existing_as_given_is_kept() {
    let roots = vec![b("lib")];
    let hits = vec![true];
    assert_eq!(resolve(&b("f.svh"), false, true, &roots, &hits), b("f.svh"));
}

#[test]
fn first_existing_root_wins() {
    let roots = vec![b("one"), b("two"), b("three")];
    let hits = vec![false, true, true];
    assert_eq!(resolve(&b("f.svh"), false, false, &roots, &hits), b("two/f.svh"));
}

#[test]
fn no_hit_keeps_the_name() {
    let roots = vec![b("one"), b("two")];
    let hits = vec![false, false];
    assert_eq!(resolve(&b("f.svh"), false, false, &roots, &hits), b("f.svh"));
}
