use irnix::contract::{Contract, ContractError, Stdin};
use irnix::manifest::{split_lines, Manifest};

#[test]
fn manifest_holds_one_contract_to_a_line() {
    let manifest = Manifest::parse("run: arg! stdout?\nstop: stdin!\n").unwrap();
    assert_eq!(
        manifest.get(&"run".to_string()),
        Some(&Contract::parse("run: arg! stdout?").unwrap())
    );
    assert_eq!(manifest.get(&"stop".to_string()).unwrap().stdin(), &Stdin::Required);
    assert!(manifest.get(&"walk".to_string()).is_none());
    assert!(manifest.contains_key(&"run".to_string()));
    assert!(!manifest.contains_key(&"run:".to_string()));
}

#[test]
fn later_contract_of_a_name_stands() {
    let manifest = Manifest::parse("run: arg!\nstop: arg?\nrun: arg! arg!").unwrap();
    assert_eq!(manifest.get(&"run".to_string()).unwrap().args().len(), 2);
    assert_eq!(manifest.get(&"stop".to_string()).unwrap().args().len(), 1);
}

#[test]
fn empty_lines_are_passed_over() {
    let manifest = Manifest::parse("\n\nrun: arg!\r\n\r\n\nstop: arg?").unwrap();
    assert!(manifest.contains_key(&"run".to_string()));
    assert!(manifest.contains_key(&"stop".to_string()));
    let empty = Manifest::parse("").unwrap();
    assert!(!empty.contains_key(&"run".to_string()));
}

#[test]
fn first_bad_line_ends_the_reading() {
    assert_eq!(
        Manifest::parse("run: arg!\n   \nstop: %").unwrap_err(),
        ("   ".to_string(), ContractError::MissingName)
    );
    assert_eq!(
        Manifest::parse("run: arg!\nstop: %\n \n").unwrap_err(),
        ("stop: %".to_string(), ContractError::UnrecognizedText)
    );
    assert_eq!(
        Manifest::parse("run: 4294967296").unwrap_err(),
        ("run: 4294967296".to_string(), ContractError::NumberTooLarge)
    );
}

#[test]
fn lines_end_at_line_feeds() {
    assert_eq!(split_lines("a\nb\r\nc"), vec!["a", "b", "c"]);
    assert_eq!(split_lines("a\n"), vec!["a"]);
    assert_eq!(split_lines("a\r"), vec!["a\r"]);
    assert_eq!(split_lines("a\rb\n"), vec!["a\rb"]);
    assert_eq!(split_lines("\r\n\n a \n\r\r\n"), vec![" a ", "\r"]);
    assert_eq!(split_lines(""), Vec::<String>::new());
    assert_eq!(split_lines("\n\n"), Vec::<String>::new());
}

#[test]
fn conformance_asks_for_every_contract_unchanged() {
    let interface = Manifest::parse("read: arg! stdout?").unwrap();
    let object = Manifest::parse("write: stdin!\nread: stdout? arg!").unwrap();
    assert!(interface.conforms_to(&object));
    assert!(!object.conforms_to(&interface));
    assert!(interface.conforms_to(&interface));
    let changed = Manifest::parse("read: arg! stdout? 1").unwrap();
    assert!(!interface.conforms_to(&changed));
    let shadowed = Manifest::parse("read: arg?\nread: arg! stdout?").unwrap();
    assert!(shadowed.conforms_to(&object));
    assert!(Manifest::parse("").unwrap().conforms_to(&object));
}
