use starlang::atom::{Atom, AtomTable};

fn atom(table: &mut AtomTable, s: &str) -> Atom {
    Atom::new(table, s)
}

#[test]
fn test_atom_equality() {
    let mut t = AtomTable::new();
    let a1 = atom(&mut t, "hello");
    let a2 = atom(&mut t, "hello");
    let a3 = atom(&mut t, "world");

    assert_eq!(a1, a2);
    assert_ne!(a1, a3);
}

#[test]
fn test_atom_as_str() {
    let mut t = AtomTable::new();
    let a = atom(&mut t, "test_string");
    assert_eq!(a.as_str(&t), "test_string");
}

#[test]
fn test_atom_from_string() {
    let mut t = AtomTable::new();
    let s = String::from("dynamic");
    let a1 = Atom::new(&mut t, &s);
    let a2 = atom(&mut t, "dynamic");
    assert_eq!(a1, a2);
}

#[test]
fn test_atom_display() {
    let mut t = AtomTable::new();
    let a = atom(&mut t, "display_test");
    assert_eq!(a.display(&t), "display_test");
}

#[test]
fn test_atom_debug() {
    let mut t = AtomTable::new();
    let a = atom(&mut t, "debug_test");
    assert_eq!(a.debug(&t), "Atom(\"debug_test\")");
}

#[test]
fn test_atom_copy() {
    let mut t = AtomTable::new();
    let a1 = atom(&mut t, "copy_test");
    let a2 = a1;
    assert_eq!(a1, a2);
}

#[test]
fn test_atom_serialize_deserialize() {
    let mut t = AtomTable::new();
    let original = atom(&mut t, "serialize_test");
    let serialized = original.encode(&t);
    assert_eq!(serialized, postcard::to_allocvec("serialize_test").unwrap());
    let deserialized = Atom::decode(&mut t, &serialized).unwrap();
    assert_eq!(original, deserialized);
}

#[test]
fn test_atom_format() {
    let mut t = AtomTable::new();
    let name = "general";
    let room = atom(&mut t, &format!("room:{}", name));
    assert_eq!(room.as_str(&t), "room:general");

    let prefix = "user";
    let id = 42;
    let user = atom(&mut t, &format!("{}:{}", prefix, id));
    assert_eq!(user.as_str(&t), "user:42");

    let pid_str = "0.1.0";
    let key = atom(&mut t, &format!("user:<{}>", pid_str));
    assert_eq!(key.as_str(&t), "user:<0.1.0>");

    let a1 = atom(&mut t, &format!("prefix:{}", "value"));
    let a2 = atom(&mut t, "prefix:value");
    assert_eq!(a1, a2);

    let somevar = "lobby";
    let captured = atom(&mut t, &format!("room:{somevar}"));
    assert_eq!(captured.as_str(&t), "room:lobby");
}

#[test]
fn atoms_are_numbered_in_order() {
    let mut t = AtomTable::new();
    assert_eq!(atom(&mut t, "a").index(), 0);
    assert_eq!(atom(&mut t, "b").index(), 1);
    assert_eq!(atom(&mut t, "a").index(), 0);
    assert_eq!(atom(&mut t, "ä€😀").index(), 2);
    assert!(t.has_room(1));
    assert!(t.has_room(4_294_967_293));
    assert!(!t.has_room(4_294_967_294));
    assert!(t.contains(&"b".to_string()));
    assert!(!t.contains(&"c".to_string()));
}

#[test]
fn unknown_atom_has_no_string() {
    let mut t = AtomTable::new();
    let mut other = AtomTable::new();
    atom(&mut other, "x");
    let far = atom(&mut other, "y");
    assert_eq!(t.get(far), None);
    let a = t.intern("z");
    assert_eq!(t.get(a), Some("z".to_string()));
}

#[test]
fn old_atoms_keep_their_strings() {
    let mut t = AtomTable::new();
    let all: Vec<Atom> = (0..200).map(|i| atom(&mut t, &format!("atom{i}"))).collect();
    for (i, a) in all.iter().enumerate() {
        assert_eq!(a.as_str(&t), format!("atom{i}"));
        assert_eq!(*a, atom(&mut t, &format!("atom{i}")));
    }
}

#[test]
fn debug_escapes() {
    let mut t = AtomTable::new();
    let a = atom(&mut t, "say \"hi\"\n");
    assert_eq!(a.debug(&t), format!("Atom({:?})", "say \"hi\"\n"));
}

#[test]
fn bytes_that_are_no_atom() {
    let mut t = AtomTable::new();
    assert_eq!(Atom::decode(&mut t, &[5, b'a']), None);
    assert_eq!(Atom::decode(&mut t, &[1, 0xff]), None);
    assert_eq!(Atom::decode(&mut t, &[]), None);
}
