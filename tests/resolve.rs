use sandbox_rootfs::{resolve_abs_box_root, resolve_abs_old_root, ResolveStep, Resolver};
use std::collections::HashMap;

fn drive(mut r: Resolver, links: &HashMap<Vec<u8>, Vec<u8>>) -> Result<Vec<u8>, ()> {
    let mut answer: Option<Vec<u8>> = None;
    loop {
        match r.advance(answer.take()) {
            ResolveStep::Continue => {}
            ResolveStep::ReadLink(p) => answer = links.get(&p).cloned(),
            ResolveStep::Resolved(p) => return Ok(p),
            ResolveStep::LinkLoop => return Err(()),
        }
    }
}

fn box_resolve(path: &str, links: &HashMap<Vec<u8>, Vec<u8>>) -> Result<Vec<u8>, ()> {
    drive(resolve_abs_box_root(&path.as_bytes().to_vec()), links)
}

fn link_chain(n: usize) -> HashMap<Vec<u8>, Vec<u8>> {
    let mut links = HashMap::new();
    for i in 1..=n {
        let target = if i == n { "/target".to_string() } else { format!("/l{}", i + 1) };
        links.insert(format!("/newroot/l{i}").into_bytes(), target.into_bytes());
    }
    links
}

#[test]
fn relative_path_lands_in_writable_space() {
    let none = HashMap::new();
    assert_eq!(box_resolve("foo/bar", &none).unwrap(), b"/newroot/space/foo/bar".to_vec());
}

#[test]
fn absolute_path_lands_under_confined_root() {
    let none = HashMap::new();
    assert_eq!(box_resolve("/etc/passwd", &none).unwrap(), b"/newroot/etc/passwd".to_vec());
}

#[test]
fn leading_parent_components_never_escape() {
    let none = HashMap::new();
    for n in [1usize, 2, 3, 10, 100] {
        let path = format!("{}etc", "../".repeat(n));
        let got = box_resolve(&path, &none).unwrap();
        assert!(got.starts_with(b"/newroot"));
        assert_eq!(got, b"/newroot/etc".to_vec());
    }
    assert_eq!(box_resolve("/../../..", &none).unwrap(), b"/newroot".to_vec());
    assert_eq!(box_resolve("..", &none).unwrap(), b"/newroot".to_vec());
}

#[test]
fn dots_and_repeated_separators_are_ignored() {
    let none = HashMap::new();
    assert_eq!(box_resolve("/a//./b/", &none).unwrap(), b"/newroot/a/b".to_vec());
    assert_eq!(box_resolve("./x", &none).unwrap(), b"/newroot/space/x".to_vec());
    assert_eq!(box_resolve("", &none).unwrap(), b"/newroot/space".to_vec());
}

#[test]
fn old_root_resolution() {
    let none = HashMap::new();
    let r = drive(resolve_abs_old_root(&b"/usr/lib/../bin".to_vec()), &none).unwrap();
    assert_eq!(r, b"/oldroot/usr/bin".to_vec());
    let r = drive(resolve_abs_old_root(&b"../../x".to_vec()), &none).unwrap();
    assert_eq!(r, b"/oldroot/x".to_vec());
}

#[test]
fn absolute_symlink_is_rerooted() {
    let mut links = HashMap::new();
    links.insert(b"/newroot/space/esc".to_vec(), b"/etc/shadow".to_vec());
    assert_eq!(box_resolve("esc", &links).unwrap(), b"/newroot/etc/shadow".to_vec());
}

#[test]
fn relative_symlink_replaces_its_name() {
    let mut links = HashMap::new();
    links.insert(b"/newroot/space/up".to_vec(), b"../../../bin".to_vec());
    assert_eq!(box_resolve("up/sh", &links).unwrap(), b"/newroot/bin/sh".to_vec());
}

#[test]
fn chain_of_255_symlinks_resolves() {
    let links = link_chain(255);
    assert_eq!(box_resolve("/l1", &links).unwrap(), b"/newroot/target".to_vec());
}

#[test]
fn chain_of_256_symlinks_is_a_loop() {
    let links = link_chain(256);
    assert_eq!(box_resolve("/l1", &links), Err(()));
}

#[test]
fn cyclic_symlinks_are_a_loop() {
    let mut links = HashMap::new();
    links.insert(b"/newroot/a".to_vec(), b"/b".to_vec());
    links.insert(b"/newroot/b".to_vec(), b"a".to_vec());
    assert_eq!(box_resolve("/a", &links), Err(()));
    let mut selfish = HashMap::new();
    selfish.insert(b"/newroot/space/me".to_vec(), b"me".to_vec());
    assert_eq!(box_resolve("me", &selfish), Err(()));
}

#[test]
fn first_step_asks_for_the_first_name() {
    let mut r = resolve_abs_box_root(&b"/x".to_vec());
    assert_eq!(r.advance(None), ResolveStep::Continue);
    assert_eq!(r.advance(None), ResolveStep::ReadLink(b"/newroot/x".to_vec()));
    assert_eq!(r.advance(None), ResolveStep::Continue);
    assert_eq!(r.advance(None), ResolveStep::Resolved(b"/newroot/x".to_vec()));
    assert_eq!(r.advance(None), ResolveStep::Resolved(b"/newroot/x".to_vec()));
}
