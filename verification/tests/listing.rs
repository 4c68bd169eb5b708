use irnix::listing::{interface_methods, qualify, Entry, Links, Node, Visit};

fn entry(name: &str, link: bool, node: Node) -> Entry {
    Entry { name: name.to_string(), path: format!("/ns/{}", name), link, node }
}

fn some(text: &str) -> Option<String> {
    Some(text.to_string())
}

#[test]
fn names_are_qualified_by_their_object() {
    assert_eq!(qualify(&None, &"a".to_string()), "a");
    assert_eq!(qualify(&some("a"), &"b".to_string()), "a.b");
    assert_eq!(qualify(&some("a.b"), &"c".to_string()), "a.b.c");
}

#[test]
fn dotted_entries_are_passed_over() {
    let mut links = Links::new();
    for node in [Node::Directory, Node::File, Node::Other] {
        assert_eq!(links.visit(&entry(".self", false, node), &some("a")), Visit::Skip);
        assert_eq!(links.visit(&entry("a.b", true, node), &some("a")), Visit::Skip);
    }
}

#[test]
fn files_are_methods_of_their_object() {
    let mut links = Links::new();
    assert_eq!(
        links.visit(&entry("run", false, Node::File), &some("a.b")),
        Visit::Print("a.b.run".to_string())
    );
    assert_eq!(
        links.visit(&entry("run", true, Node::File), &some("a")),
        Visit::Print("a.run".to_string())
    );
    assert_eq!(
        links.visit(&entry("pipe", false, Node::Other), &some("a")),
        Visit::Print("a.pipe".to_string())
    );
    assert_eq!(links.visit(&entry("pipe", true, Node::Other), &some("a")), Visit::Skip);
    assert_eq!(links.visit(&entry("run", false, Node::File), &None), Visit::Skip);
}

#[test]
fn directories_are_objects() {
    let mut links = Links::new();
    assert_eq!(
        links.visit(&entry("b", false, Node::Directory), &some("a")),
        Visit::Descend("a.b".to_string())
    );
    assert_eq!(
        links.visit(&entry("a", false, Node::Directory), &None),
        Visit::Descend("a".to_string())
    );
    assert_eq!(
        links.visit(&entry("__io__", false, Node::Directory), &None),
        Visit::Interface("__io__".to_string())
    );
    assert_eq!(
        links.visit(&entry("__io__", false, Node::Directory), &some("a")),
        Visit::Descend("a.__io__".to_string())
    );
    assert_eq!(
        links.visit(&entry("io__", false, Node::Directory), &some("__a")),
        Visit::Interface("__a.io__".to_string())
    );
}

#[test]
fn link_is_not_entered_while_it_is_walked() {
    let mut links = Links::new();
    let link = entry("loop", true, Node::Directory);
    assert_eq!(links.visit(&link, &some("a")), Visit::Follow("a.loop".to_string()));
    assert_eq!(links.visit(&link, &some("a.loop")), Visit::Skip);
    let other = entry("other", true, Node::Directory);
    assert_eq!(links.visit(&other, &some("a.loop")), Visit::Follow("a.loop.other".to_string()));
    assert_eq!(links.visit(&other, &some("a.loop.other")), Visit::Skip);
    links.leave(&link.path);
    assert_eq!(links.visit(&other, &some("a")), Visit::Skip);
    assert_eq!(links.visit(&link, &some("a")), Visit::Follow("a.loop".to_string()));
    links.leave(&other.path);
    links.leave(&other.path);
    links.leave(&link.path);
    assert_eq!(links.visit(&other, &None), Visit::Follow("other".to_string()));
    assert_eq!(
        links.visit(&entry("__io__", true, Node::Directory), &None),
        Visit::Follow("__io__".to_string())
    );
}

#[test]
fn interface_lists_the_names_of_its_manifest() {
    let interface = "__io__".to_string();
    assert_eq!(
        interface_methods(&interface, "read: stdin?\n\nwrite: stdin!\nread: arg?\n"),
        (vec!["__io__.read".to_string(), "__io__.write".to_string(), "__io__.read".to_string()], None)
    );
    assert_eq!(
        interface_methods(&interface, "read: stdin?\nwrite stdin!\nlater: arg?"),
        (vec!["__io__.read".to_string()], some("write stdin!"))
    );
    assert_eq!(interface_methods(&interface, ""), (vec![], None));
}
