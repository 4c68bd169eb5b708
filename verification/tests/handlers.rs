use irnix::contract::{Contract, ContractError};
use irnix::failure::Failure;
use irnix::handlers::{
    check_arguments, check_stdin, check_stdout, check_with, fill_contracts, find_link,
    replace_path, validate_interface, Answer, Handle, MainHandler, Request, MANIFEST_NAME,
};
use irnix::method::{Location, Method};

struct World {
    directory: bool,
    manifest: Option<&'static str>,
    entries: Vec<&'static str>,
    link: &'static str,
    target: Option<&'static str>,
}

fn object(manifest: &'static str) -> World {
    World { directory: true, manifest: Some(manifest), entries: vec![], link: "", target: None }
}

fn interface(manifest: &'static str, target: &'static str) -> World {
    World {
        directory: true,
        manifest: Some(manifest),
        entries: vec![".self", "object"],
        link: "/real/object",
        target: Some(target),
    }
}

fn words(args: &[&str]) -> Vec<String> {
    args.iter().map(|x| x.to_string()).collect()
}

fn method(name: &str, args: &[&str], stdin: bool) -> Method {
    Method::new(name.to_string(), words(args), stdin, Location::new("/ns".to_string())).unwrap()
}

fn answer(world: &World, request: &Request) -> Option<Answer> {
    match request {
        Request::Directory => Some(Answer::Directory(world.directory)),
        Request::Manifest => Some(Answer::Manifest(world.manifest.map(|x| x.to_string()))),
        Request::Entries => Some(Answer::Entries(words(&world.entries))),
        Request::Link(_) => Some(Answer::Link(world.link.to_string())),
        Request::Target => Some(Answer::Target(world.target.map(|x| x.to_string()))),
        Request::Execute => None,
        Request::Refuse(_) => None,
    }
}

fn run(method: &mut Method, world: &World, redirected: bool) -> (Request, Vec<Request>) {
    let mut asked = Vec::new();
    let mut next = Request::Directory;
    while let Some(found) = answer(world, &next) {
        asked.push(next);
        next = MainHandler::handle_with(method, found, redirected);
    }
    (next, asked)
}

fn verdict(name: &str, args: &[&str], stdin: bool, world: &World) -> Request {
    run(&mut method(name, args, stdin), world, false).0
}

fn contract(line: &str) -> Contract {
    Contract::parse(line).unwrap()
}

#[test]
fn run_contract_round_trip() {
    let world = object("run: stdin? arg! --verbose? stdout!");
    assert_eq!(verdict("x.run", &["input"], false, &world), Request::Execute);
    assert_eq!(
        verdict("x.run", &[], false, &world),
        Request::Refuse(Failure::TooFewArguments { required: 1, optional: 0 })
    );
    assert_eq!(
        verdict("x.run", &["input", "--unknown"], false, &world),
        Request::Refuse(Failure::UnknownFlag("--unknown".to_string()))
    );
    assert_eq!(verdict("x.run", &["input", "--verbose"], false, &world), Request::Execute);
    assert_eq!(verdict("x.run", &["input"], true, &world), Request::Execute);
}

#[test]
fn build_contract_counts_arguments_and_values() {
    let world = object("build: arg! arg! --out=! stdout?");
    assert_eq!(
        verdict("x.build", &["--out=dist", "one"], false, &world),
        Request::Refuse(Failure::TooFewArguments { required: 2, optional: 0 })
    );
    assert_eq!(
        verdict("x.build", &["one", "two", "--out"], false, &world),
        Request::Refuse(Failure::MissingFlagValue("--out".to_string()))
    );
    assert_eq!(verdict("x.build", &["--out=dist", "one", "two"], false, &world), Request::Execute);
    assert_eq!(verdict("x.build", &["--out", "dist", "one", "two"], false, &world), Request::Execute);
    assert_eq!(
        verdict("x.build", &["one", "two"], false, &world),
        Request::Refuse(Failure::MissingRequiredFlag("--out".to_string()))
    );
    assert_eq!(
        verdict("x.build", &["--out=dist", "one", "two", "three"], false, &world),
        Request::Refuse(Failure::TooManyArguments { required: 2, optional: 0 })
    );
}

#[test]
fn flag_that_interrupts_a_pending_value_stops_the_scan() {
    let build = contract("build: arg? --out=! --force? stdout?");
    assert_eq!(
        check_arguments(&build, &words(&["--out", "--force", "x"])),
        Err(Failure::MissingFlagValue("--out".to_string()))
    );
    assert_eq!(
        check_arguments(&build, &words(&["--out", "--nothing"])),
        Err(Failure::MissingFlagValue("--out".to_string()))
    );
    assert_eq!(check_arguments(&build, &words(&["--out", "dist", "--force", "x"])), Ok(()));
    assert_eq!(check_arguments(&build, &words(&["--out=", "x"])), Ok(()));
}

#[test]
fn value_of_a_flag_is_no_argument() {
    let build = contract("build: --out=! stdout?");
    assert_eq!(check_arguments(&build, &words(&["--out", "dist"])), Ok(()));
    assert_eq!(
        check_arguments(&build, &words(&["--out", "dist", "more"])),
        Err(Failure::TooManyArguments { required: 0, optional: 0 })
    );
    let switch = contract("build: --force? stdout?");
    assert_eq!(
        check_arguments(&switch, &words(&["--force", "dist"])),
        Err(Failure::TooManyArguments { required: 0, optional: 0 })
    );
}

#[test]
fn argument_counts_report_required_and_optional() {
    let copy = contract("copy: from! to! mode? stdout?");
    assert_eq!(
        check_arguments(&copy, &words(&["a"])),
        Err(Failure::TooFewArguments { required: 2, optional: 1 })
    );
    assert_eq!(check_arguments(&copy, &words(&["a", "b"])), Ok(()));
    assert_eq!(check_arguments(&copy, &words(&["a", "b", "c"])), Ok(()));
    assert_eq!(
        check_arguments(&copy, &words(&["a", "b", "c", "d"])),
        Err(Failure::TooManyArguments { required: 2, optional: 1 })
    );
}

#[test]
fn unknown_flag_comes_before_every_other_refusal() {
    let copy = contract("copy: from! --must! stdout?");
    assert_eq!(
        check_arguments(&copy, &words(&["--other=1"])),
        Err(Failure::UnknownFlag("--other".to_string()))
    );
    assert_eq!(
        check_arguments(&copy, &words(&["-"])),
        Err(Failure::UnknownFlag("-".to_string()))
    );
}

#[test]
fn stdin_must_follow_the_contract() {
    let required = contract("m: stdin!");
    let optional = contract("m: stdin?");
    let unused = contract("m: arg?");
    assert_eq!(check_stdin(&required, true), Ok(()));
    assert_eq!(check_stdin(&required, false), Err(Failure::StdinRequired));
    assert_eq!(check_stdin(&optional, true), Ok(()));
    assert_eq!(check_stdin(&optional, false), Ok(()));
    assert_eq!(check_stdin(&unused, true), Err(Failure::StdinUnexpected));
    assert_eq!(check_stdin(&unused, false), Ok(()));
}

#[test]
fn stdout_must_follow_the_contract() {
    let required = contract("m: stdout!");
    let optional = contract("m: stdout?");
    let unused = contract("m: arg?");
    assert_eq!(check_stdout(&required, true), Ok(()));
    assert_eq!(check_stdout(&required, false), Ok(()));
    assert_eq!(check_stdout(&optional, true), Ok(()));
    assert_eq!(check_stdout(&unused, true), Err(Failure::StdoutUnexpected));
    assert_eq!(check_stdout(&unused, false), Ok(()));
}

#[test]
fn checks_run_in_order() {
    let world = object("m: arg! stdin!");
    assert_eq!(
        run(&mut method("x.m", &[], false), &world, true).0,
        Request::Refuse(Failure::TooFewArguments { required: 1, optional: 0 })
    );
    assert_eq!(
        run(&mut method("x.m", &["a"], false), &world, true).0,
        Request::Refuse(Failure::StdinRequired)
    );
    assert_eq!(
        run(&mut method("x.m", &["a"], true), &world, true).0,
        Request::Refuse(Failure::StdoutUnexpected)
    );
    assert_eq!(run(&mut method("x.m", &["a"], true), &world, false).0, Request::Execute);
}

#[test]
fn method_without_contract_passes() {
    let world = object("other: arg!");
    assert_eq!(verdict("x.free", &["a", "--b", "c"], true, &world), Request::Execute);
    let bare = World { directory: true, manifest: None, entries: vec![], link: "", target: None };
    let mut free = method("x.free", &["--anything"], true);
    assert_eq!(run(&mut free, &bare, true).0, Request::Execute);
    assert!(free.object.contracts.is_none());
}

#[test]
fn object_must_be_a_directory() {
    let world = World { directory: false, manifest: None, entries: vec![], link: "", target: None };
    let (end, asked) = run(&mut method("x.run", &[], false), &world, false);
    assert_eq!(end, Request::Refuse(Failure::NotADirectory));
    assert_eq!(asked, vec![Request::Directory]);
}

#[test]
fn malformed_manifest_is_refused_with_its_line() {
    let world = object("run: arg!\nbroken! arg!\nlater: arg?");
    assert_eq!(
        verdict("x.run", &["a"], false, &world),
        Request::Refuse(Failure::MalformedContract {
            line: "broken! arg!".to_string(),
            error: ContractError::MissingName
        })
    );
    let unreadable = object("run: arg! &");
    assert_eq!(
        verdict("x.run", &["a"], false, &unreadable),
        Request::Refuse(Failure::MalformedContract {
            line: "run: arg! &".to_string(),
            error: ContractError::UnrecognizedText
        })
    );
    let target = interface("run: arg!", "run: arg! 99999999999");
    assert_eq!(
        verdict("__io__.run", &["a"], false, &target),
        Request::Refuse(Failure::MalformedContract {
            line: "run: arg! 99999999999".to_string(),
            error: ContractError::NumberTooLarge
        })
    );
}

#[test]
fn interface_hides_what_it_does_not_declare() {
    let world = interface("read: stdin? stdout?", "read: stdin? stdout?\nwrite: stdin! stdout?");
    let mut read = method("__io__.read", &[], false);
    let (end, asked) = run(&mut read, &world, false);
    assert_eq!(end, Request::Execute);
    assert_eq!(
        asked,
        vec![
            Request::Directory,
            Request::Manifest,
            Request::Entries,
            Request::Link("object".to_string()),
            Request::Target,
        ]
    );
    assert_eq!(
        verdict("__io__.write", &[], true, &world),
        Request::Refuse(Failure::MethodHiddenByInterface)
    );
    assert_eq!(
        verdict("__io__.erase", &[], true, &world),
        Request::Refuse(Failure::MethodNotInInterface)
    );
    assert_ne!(Failure::MethodHiddenByInterface, Failure::MethodNotInInterface);
}

#[test]
fn interface_moves_the_method_to_its_object() {
    let world = interface("read: stdin? stdout?", "read: stdin? stdout?");
    let mut read = method("a.__io__.read", &[], false);
    assert_eq!(read.object.name, "__io__");
    assert_eq!(read.object.path, Location { root: "/ns".into(), segments: words(&["a", "__io__"]) });
    assert_eq!(run(&mut read, &world, false).0, Request::Execute);
    assert_eq!(read.path, Location { root: "/real/object".into(), segments: words(&["read"]) });
    assert_eq!(read.object.path, Location { root: "/real/object".into(), segments: vec![] });
    assert_eq!(read.object.name, "__io__");
    assert!(read.object.contracts.unwrap().contains_key(&"read".to_string()));
}

#[test]
fn interface_contract_must_equal_the_objects() {
    let extra = interface("read: arg! stdout?", "read: arg! arg? stdout?");
    assert_eq!(
        verdict("__io__.read", &["a"], false, &extra),
        Request::Refuse(Failure::InterfaceMismatch)
    );
    let other_stream = interface("read: arg! stdout?", "read: arg! stdout!");
    assert_eq!(
        verdict("__io__.read", &["a"], false, &other_stream),
        Request::Refuse(Failure::InterfaceMismatch)
    );
    let missing = interface("read: arg! stdout?\ngone: arg?", "read: arg! stdout?");
    assert_eq!(
        verdict("__io__.read", &["a"], false, &missing),
        Request::Refuse(Failure::InterfaceMismatch)
    );
    let reordered = interface("read: --a? --b=! arg! stdout?", "read: arg! --b=! --a? stdout? ");
    assert_eq!(verdict("__io__.read", &["a", "--b=1"], false, &reordered), Request::Execute);
}

#[test]
fn interface_is_checked_against_the_objects_contract() {
    let world = interface("read: arg! stdout?", "read: arg! stdout?");
    assert_eq!(
        verdict("__io__.read", &[], false, &world),
        Request::Refuse(Failure::TooFewArguments { required: 1, optional: 0 })
    );
}

#[test]
fn interface_needs_a_manifest_and_one_link() {
    let bare = World {
        directory: true,
        manifest: None,
        entries: vec!["object"],
        link: "/real/object",
        target: Some("read: arg?"),
    };
    let (end, asked) = run(&mut method("__io__.read", &[], false), &bare, false);
    assert_eq!(end, Request::Refuse(Failure::InterfaceWithoutContract));
    assert_eq!(asked, vec![Request::Directory, Request::Manifest]);

    let mut crowded = interface("read: arg?", "read: arg?");
    crowded.entries = vec![".self", "object", "more"];
    assert_eq!(
        verdict("__io__.read", &[], false, &crowded),
        Request::Refuse(Failure::InterfaceLayout)
    );
    crowded.entries = vec![".self"];
    assert_eq!(
        verdict("__io__.read", &[], false, &crowded),
        Request::Refuse(Failure::InterfaceLayout)
    );
    crowded.entries = vec!["object", ".self"];
    assert_eq!(verdict("__io__.read", &[], false, &crowded), Request::Execute);

    let mut orphan = interface("read: arg?", "read: arg?");
    orphan.target = None;
    assert_eq!(
        verdict("__io__.read", &[], false, &orphan),
        Request::Refuse(Failure::TargetWithoutContract)
    );
}

#[test]
fn only_names_in_double_underscores_are_interfaces() {
    let world = object("read: arg?");
    for name in ["_io_.read", "__io_.read", "_io__.read", "io.read"] {
        let (end, asked) = run(&mut method(name, &[], false), &world, false);
        assert_eq!(end, Request::Execute);
        assert_eq!(asked, vec![Request::Directory, Request::Manifest]);
    }
    for name in ["__io__.read", "__.read", "___.read", "____.read"] {
        let (_, asked) = run(&mut method(name, &[], false), &world, false);
        assert_eq!(asked[2], Request::Entries);
    }
}

#[test]
fn handler_asks_the_process_only_about_its_output() {
    let mut run_it = method("x.run", &["a"], false);
    assert_eq!(MainHandler::handle(&mut run_it, Answer::Directory(true)), Request::Manifest);
    assert_eq!(
        MainHandler::handle(&mut run_it, Answer::Manifest(Some("run: arg! stdout!".to_string()))),
        Request::Execute
    );
    assert_eq!(check_with(&run_it, true), Request::Execute);
}

#[test]
fn exit_codes_tell_usage_from_configuration() {
    assert_eq!(Failure::NotADirectory.exit_code(), 1);
    assert_eq!(
        Failure::MalformedContract { line: "x".into(), error: ContractError::MissingName }
            .exit_code(),
        2
    );
    assert_eq!(Failure::InterfaceWithoutContract.exit_code(), 1);
    assert_eq!(Failure::InterfaceLayout.exit_code(), 1);
    assert_eq!(Failure::TargetWithoutContract.exit_code(), 1);
    assert_eq!(Failure::InterfaceMismatch.exit_code(), 1);
    assert_eq!(Failure::MethodHiddenByInterface.exit_code(), 1);
    assert_eq!(Failure::MethodNotInInterface.exit_code(), 1);
    assert_eq!(Failure::UnknownFlag("-x".into()).exit_code(), 1);
    assert_eq!(Failure::MissingFlagValue("-x".into()).exit_code(), 1);
    assert_eq!(Failure::TooFewArguments { required: 1, optional: 0 }.exit_code(), 2);
    assert_eq!(Failure::TooManyArguments { required: 1, optional: 0 }.exit_code(), 2);
    assert_eq!(Failure::MissingRequiredFlag("-x".into()).exit_code(), 2);
    assert_eq!(Failure::StdinRequired.exit_code(), 2);
    assert_eq!(Failure::StdinUnexpected.exit_code(), 2);
    assert_eq!(Failure::StdoutUnexpected.exit_code(), 1);
    assert_eq!(MANIFEST_NAME, ".self");
}

#[test]
fn refusals_are_told_in_words() {
    let mut hidden = method("a.__io__.write", &[], false);
    assert_eq!(Failure::NotADirectory.message(&hidden), "Object must be a directory");
    assert_eq!(
        Failure::MalformedContract { line: "x y".into(), error: ContractError::UnrecognizedText }
            .message(&hidden),
        "Error while parsing contract: x y"
    );
    assert_eq!(
        Failure::MalformedContract { line: "x!".into(), error: ContractError::MissingName }
            .message(&hidden),
        "Contract must have a name that matches a method name. No name was provided."
    );
    assert_eq!(
        Failure::InterfaceWithoutContract.message(&hidden),
        "Interface must have a contract"
    );
    assert_eq!(
        Failure::InterfaceLayout.message(&hidden),
        "Interfaces must only contain two files: a self file with contracts and a link to an object"
    );
    assert_eq!(
        Failure::TargetWithoutContract.message(&hidden),
        "The object \"__io__\" referenced by the interface must contain a contract."
    );
    assert_eq!(
        Failure::InterfaceMismatch.message(&hidden),
        "The enumeration of interface contracts must be a subset of the enumeration of contracts of the object referenced by the interface"
    );
    assert_eq!(
        Failure::MethodHiddenByInterface.message(&hidden),
        "The called method \"write\" is not specified in the interface contract. However, it is specified in the objects contract: \"/ns/a/__io__\""
    );
    MainHandler::handle_with(&mut hidden, Answer::Link("/real/object".to_string()), false);
    assert_eq!(
        Failure::MethodHiddenByInterface.message(&hidden),
        "The called method \"write\" is not specified in the interface contract. However, it is specified in the objects contract: \"/real/object\""
    );
    assert_eq!(
        Failure::MethodNotInInterface.message(&hidden),
        "The called method \"write\" is not specified in the interface contract."
    );
    assert_eq!(
        Failure::UnknownFlag("--x".into()).message(&hidden),
        "A flag was provided that is not in the contract: --x"
    );
    assert_eq!(
        Failure::MissingFlagValue("--x".into()).message(&hidden),
        "The flag \"--x\" must have a value, which is not provided"
    );
    assert_eq!(
        Failure::TooFewArguments { required: 12, optional: 0 }.message(&hidden),
        "The arguments provided are fewer than required by the contract. The contract requires 12 arguments and 0 optional ones."
    );
    assert_eq!(
        Failure::TooManyArguments { required: 3, optional: 1045 }.message(&hidden),
        "Too many arguments. The contract requires 3 arguments and 1045 optional ones."
    );
    assert_eq!(
        Failure::MissingRequiredFlag("--x".into()).message(&hidden),
        "One required flag is missing: --x"
    );
    assert_eq!(
        Failure::StdinRequired.message(&hidden),
        "The contract \"write\" requires stdin, which is not provided"
    );
    assert_eq!(
        Failure::StdinUnexpected.message(&hidden),
        "The contract \"write\" does not imply functionality for stdin, but stdin was passed."
    );
    assert_eq!(
        Failure::StdoutUnexpected.message(&hidden),
        "The contract write does not imply functionality for stdout, but stdout is used in pipeline."
    );
}

#[test]
fn contracts_are_filled_from_the_manifest() {
    let mut run_it = method("x.run", &[], false);
    assert_eq!(fill_contracts(&mut run_it, Some("run: arg!\nstop: arg?".to_string())), Ok(()));
    let contracts = run_it.object.contracts.take().unwrap();
    assert_eq!(contracts.get(&"run".to_string()), Some(&contract("run: arg!")));
    assert_eq!(contracts.get(&"stop".to_string()), Some(&contract("stop: arg?")));
    run_it.object.contracts = Some(contracts);
    assert_eq!(
        fill_contracts(&mut run_it, Some("run: arg".to_string())),
        Err(Failure::MalformedContract {
            line: "run: arg".to_string(),
            error: ContractError::UnrecognizedText
        })
    );
    assert!(run_it.object.contracts.is_some());
    assert_eq!(fill_contracts(&mut run_it, None), Ok(()));
    assert!(run_it.object.contracts.is_none());
}

#[test]
fn link_is_the_entry_that_is_not_the_manifest() {
    assert_eq!(find_link(&words(&[".self", "object"])), Ok("object".to_string()));
    assert_eq!(find_link(&words(&["object", ".self"])), Ok("object".to_string()));
    assert_eq!(find_link(&words(&["first", "second"])), Ok("first".to_string()));
    assert_eq!(find_link(&words(&[".self", ".self"])), Err(Failure::InterfaceLayout));
    assert_eq!(find_link(&words(&["object"])), Err(Failure::InterfaceLayout));
    assert_eq!(find_link(&words(&[])), Err(Failure::InterfaceLayout));
    assert_eq!(find_link(&words(&[".self", "a", "b"])), Err(Failure::InterfaceLayout));
}

#[test]
fn path_is_replaced_by_the_place_of_the_object() {
    let mut read = method("a.__io__.read", &["x"], true);
    replace_path(&mut read, "/real".to_string());
    assert_eq!(read.path, Location { root: "/real".into(), segments: words(&["read"]) });
    assert_eq!(read.object.path, Location::new("/real".to_string()));
    assert_eq!(read.name, "read");
    assert_eq!(read.object.name, "__io__");
    assert_eq!(read.args, words(&["x"]));
    assert!(read.stdin);
}

#[test]
fn interface_is_held_against_its_object() {
    let mut read = method("__io__.read", &[], false);
    assert_eq!(
        validate_interface(&mut read, Some("read: arg?".to_string())),
        Err(Failure::InterfaceWithoutContract)
    );
    fill_contracts(&mut read, Some("read: arg?".to_string())).unwrap();
    assert_eq!(validate_interface(&mut read, None), Err(Failure::TargetWithoutContract));
    assert_eq!(
        validate_interface(&mut read, Some("read: arg!".to_string())),
        Err(Failure::InterfaceMismatch)
    );
    assert_eq!(
        validate_interface(&mut read, Some("write: arg?".to_string())),
        Err(Failure::InterfaceMismatch)
    );
    assert_eq!(
        read.object.contracts.as_ref().unwrap().get(&"read".to_string()),
        Some(&contract("read: arg?"))
    );
    assert_eq!(
        validate_interface(&mut read, Some("read: arg?\nwrite: arg! arg!".to_string())),
        Ok(())
    );
    assert!(read.object.contracts.as_ref().unwrap().contains_key(&"write".to_string()));
}
