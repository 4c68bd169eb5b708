//! The checks that an invocation passes before its method is run.

use crate::contract::{
    distinct_names, find_flag, flag_map, lemma_flag_map_keys, lemma_flag_map_values,
    lemma_required_args_within, required_among, Arg, Contract, ContractModel, FlagModel, Stdin,
    Stdout,
};
use crate::failure::{Failure, FailureModel};
use crate::manifest::{conforms, read_manifest, Manifest};
use crate::method::{
    is_interface, is_interface_name, Location, LocationModel, Method, MethodModel, ObjectModel,
};
use crate::text::{
    chars_of, find_from, holds_text, index_of, lemma_index_of_contains, same_text, string_of,
    text_of, texts,
};
use vstd::prelude::*;

verus! {

/// Whether a token of an invocation is a flag: whether it begins with a dash.
pub open spec fn is_flag_like(token: Seq<char>) -> bool {
    token.len() > 0 && token[0] == '-'
}

/// The name of the flag that a token gives: the token up to its first `=`.
pub open spec fn flag_name(token: Seq<char>) -> Seq<char> {
    token.take(index_of(token, '='))
}

/// What a scan of the tokens of an invocation has found so far.
pub struct Scan {
    /// The flag that still waits for its value, if one does.
    pub pending: Option<Seq<char>>,
    /// The number of positional arguments.
    pub positional: nat,
    /// The names of the flags that were given, in order.
    pub used: Seq<Seq<char>>,
}

/// How a scan ends.
pub enum ScanEnd {
    /// A flag was met that the contract does not have.
    Unknown(Seq<char>),
    /// The scan went to the end, or stopped at a flag that came while
    /// another flag waited for its value.
    Done(Scan),
}

/// The scan before the first token.
pub open spec fn empty_scan() -> Scan {
    Scan { pending: None, positional: 0, used: Seq::empty() }
}

/// The scan of the tokens from position `i` on, from left to right.
///
/// A flag that comes while another flag waits for its value stops the scan.
/// Any other flag is looked up by its name: where the contract lacks it the
/// scan ends there; else the flag is noted as given, and it waits for a
/// value where the contract demands one and the token holds no `=`. A token
/// that is no flag is the value of the waiting flag, if one waits, and a
/// positional argument otherwise.
pub open spec fn scan_from(
    flags: Map<Seq<char>, FlagModel>,
    tokens: Seq<Seq<char>>,
    i: int,
    state: Scan,
) -> ScanEnd
    decreases tokens.len() - i,
{
    if i < 0 || i >= tokens.len() {
        ScanEnd::Done(state)
    } else if is_flag_like(tokens[i]) {
        let name = flag_name(tokens[i]);
        if state.pending is Some {
            ScanEnd::Done(state)
        } else if flags.contains_key(name) {
            scan_from(
                flags,
                tokens,
                i + 1,
                Scan {
                    pending: if flags[name].required_value && !tokens[i].contains('=') {
                        Some(name)
                    } else {
                        None
                    },
                    positional: state.positional,
                    used: state.used.push(name),
                },
            )
        } else {
            ScanEnd::Unknown(name)
        }
    } else {
        scan_from(
            flags,
            tokens,
            i + 1,
            Scan {
                pending: None,
                positional: if state.pending is None {
                    state.positional + 1
                } else {
                    state.positional
                },
                used: state.used,
            },
        )
    }
}

/// Every flag that a scan notes as given is a flag of the contract: a flag
/// that the contract lacks ends the scan where it stands, so none is left to
/// be found afterwards.
pub proof fn lemma_scanned_flags_are_known(
    flags: Map<Seq<char>, FlagModel>,
    tokens: Seq<Seq<char>>,
    i: int,
    state: Scan,
)
    requires
        forall|name: Seq<char>| state.used.contains(name) ==> flags.contains_key(name),
    ensures
        scan_from(flags, tokens, i, state) matches ScanEnd::Done(end) ==> forall|name: Seq<char>|
            end.used.contains(name) ==> flags.contains_key(name),
    decreases tokens.len() - i,
{
    if 0 <= i < tokens.len() {
        let name = flag_name(tokens[i]);
        if is_flag_like(tokens[i]) {
            if state.pending is None && flags.contains_key(name) {
                let next = Scan {
                    pending: if flags[name].required_value && !tokens[i].contains('=') {
                        Some(name)
                    } else {
                        None
                    },
                    positional: state.positional,
                    used: state.used.push(name),
                };
                assert forall|other: Seq<char>|
                    next.used.contains(other) implies flags.contains_key(other) by {
                    let k = choose|k: int| 0 <= k < next.used.len() && next.used[k] == other;
                    if k < state.used.len() {
                        assert(state.used[k] == other);
                    }
                }
                lemma_scanned_flags_are_known(flags, tokens, i + 1, next);
            }
        } else {
            lemma_scanned_flags_are_known(
                flags,
                tokens,
                i + 1,
                Scan {
                    pending: None,
                    positional: if state.pending is None {
                        state.positional + 1
                    } else {
                        state.positional
                    },
                    used: state.used,
                },
            );
        }
    }
}

/// The flag `name` is required by the contract and was not given.
pub open spec fn is_missing(
    flags: Map<Seq<char>, FlagModel>,
    used: Seq<Seq<char>>,
    name: Seq<char>,
) -> bool {
    flags.contains_key(name) && flags[name].required && !used.contains(name)
}

/// What the check of the arguments and flags of an invocation finds.
pub enum ArgumentVerdict {
    /// The invocation meets the contract.
    Pass,
    /// A flag was given that the contract does not have.
    UnknownFlag(Seq<char>),
    /// A flag that needs a value was given none.
    MissingFlagValue(Seq<char>),
    /// Fewer positional arguments than the contract requires.
    TooFewArguments { required: nat, optional: nat },
    /// More positional arguments than the contract has.
    TooManyArguments { required: nat, optional: nat },
    /// A required flag was not given; `used` holds the flags that were.
    MissingRequiredFlag { used: Seq<Seq<char>> },
}

/// The verdict on the tokens of an invocation under a contract.
///
/// The tokens are scanned first. A flag that the contract lacks, then a
/// flag left without its value, then a number of positional arguments below
/// the number of required arguments or above the number of all arguments,
/// then a required flag that was not given: the first of these that holds
/// decides.
pub open spec fn judge(contract: ContractModel, tokens: Seq<Seq<char>>) -> ArgumentVerdict {
    match scan_from(contract.flags, tokens, 0, empty_scan()) {
        ScanEnd::Unknown(name) => ArgumentVerdict::UnknownFlag(name),
        ScanEnd::Done(scan) => {
            let required = required_among(contract.args).len();
            let optional = (contract.args.len() - required) as nat;
            if scan.pending is Some {
                ArgumentVerdict::MissingFlagValue(scan.pending->0)
            } else if scan.positional < required {
                ArgumentVerdict::TooFewArguments { required, optional }
            } else if scan.positional > contract.args.len() {
                ArgumentVerdict::TooManyArguments { required, optional }
            } else if exists|name: Seq<char>| is_missing(contract.flags, scan.used, name) {
                ArgumentVerdict::MissingRequiredFlag { used: scan.used }
            } else {
                ArgumentVerdict::Pass
            }
        },
    }
}

/// Whether a refusal is the one that a verdict asks for. Where a required
/// flag is missing, the refusal names one of the missing flags.
pub open spec fn refuses(
    verdict: ArgumentVerdict,
    flags: Map<Seq<char>, FlagModel>,
    failure: FailureModel,
) -> bool {
    match verdict {
        ArgumentVerdict::Pass => false,
        ArgumentVerdict::UnknownFlag(name) => failure == FailureModel::UnknownFlag(name),
        ArgumentVerdict::MissingFlagValue(name) => failure == FailureModel::MissingFlagValue(name),
        ArgumentVerdict::TooFewArguments { required, optional } => failure
            == (FailureModel::TooFewArguments { required, optional }),
        ArgumentVerdict::TooManyArguments { required, optional } => failure
            == (FailureModel::TooManyArguments { required, optional }),
        ArgumentVerdict::MissingRequiredFlag { used } => {
            &&& failure matches FailureModel::MissingRequiredFlag(name)
            &&& is_missing(flags, used, name)
        },
    }
}

/// Checks the arguments and flags of an invocation against a contract.
pub fn check_arguments(contract: &Contract, args: &Vec<String>) -> (r: Result<(), Failure>)
    ensures
        match r {
            Ok(_) => judge(contract@, texts(args@)) is Pass,
            Err(failure) => refuses(judge(contract@, texts(args@)), contract@.flags, failure@),
        },
{
    let flags = contract.flags();
    let ghost tokens = texts(args@);
    let mut used: Vec<String> = Vec::new();
    let mut positional: usize = 0;
    let mut pending: Option<String> = None;
    let mut i: usize = 0;
    assert(texts(used@) =~= Seq::empty());
    while i < args.len()
        invariant_except_break
            scan_from(
                contract@.flags,
                tokens,
                i as int,
                Scan {
                    pending: text_of(pending),
                    positional: positional as nat,
                    used: texts(used@),
                },
            ) == scan_from(contract@.flags, tokens, 0, empty_scan()),
        invariant
            i <= args.len(),
            positional <= i,
            tokens == texts(args@),
            flag_map(flags@) == contract@.flags,
            distinct_names(flags@),
        ensures
            scan_from(contract@.flags, tokens, 0, empty_scan()) == ScanEnd::Done(
                Scan {
                    pending: text_of(pending),
                    positional: positional as nat,
                    used: texts(used@),
                },
            ),
            positional <= args.len(),
        decreases args.len() - i,
    {
        let token = chars_of(args[i].as_str());
        assert(token@ == tokens[i as int]);
        if token.len() > 0 && token[0] == '-' {
            if pending.is_some() {
                break ;
            }
            let cut = find_from(&token, '=', 0);
            proof {
                lemma_index_of_contains(token@, '=');
            }
            let name = string_of(&token, 0, cut);
            assert(name@ == flag_name(token@));
            match find_flag(&flags, &name) {
                Some(k) => {
                    proof {
                        lemma_flag_map_values(flags@, k as int);
                    }
                    let waits = flags[k].required_value() && cut >= token.len();
                    let ghost before = texts(used@);
                    used.push(name.clone());
                    assert(texts(used@) == before.push(name@));
                    pending = if waits {
                        Some(name)
                    } else {
                        None
                    };
                },
                None => {
                    return Err(Failure::UnknownFlag(name));
                },
            }
        } else {
            if pending.is_none() {
                positional += 1;
            }
            pending = None;
        }
        i += 1;
    }
    match pending {
        Some(name) => {
            return Err(Failure::MissingFlagValue(name));
        },
        None => {},
    }
    let required = contract.required_args().len();
    let total = contract.args().len();
    proof {
        lemma_required_args_within(contract@.args);
    }
    if positional < required {
        return Err(Failure::TooFewArguments { required, optional: total - required });
    }
    if positional > total {
        return Err(Failure::TooManyArguments { required, optional: total - required });
    }
    let mut k: usize = 0;
    while k < flags.len()
        invariant
            k <= flags.len(),
            flag_map(flags@) == contract@.flags,
            distinct_names(flags@),
            scan_from(contract@.flags, texts(args@), 0, empty_scan()) == ScanEnd::Done(
                Scan { pending: None, positional: positional as nat, used: texts(used@) },
            ),
            required == required_among(contract@.args).len(),
            total == contract@.args.len(),
            required <= positional <= total,
            forall|j: int|
                0 <= j < k ==> !is_missing(
                    contract@.flags,
                    texts(used@),
                    (#[trigger] flags[j])@.name,
                ),
        decreases flags.len() - k,
    {
        proof {
            lemma_flag_map_values(flags@, k as int);
        }
        if flags[k].is_required() && !holds_text(&used, flags[k].name()) {
            let missing = flags[k].name().clone();
            proof {
                let scan = scan_from(contract@.flags, texts(args@), 0, empty_scan())->Done_0;
                assert(is_missing(contract@.flags, scan.used, missing@));
            }
            return Err(Failure::MissingRequiredFlag(missing));
        }
        k += 1;
    }
    proof {
        lemma_flag_map_keys(flags@);
        assert forall|name: Seq<char>| !is_missing(contract@.flags, texts(used@), name) by {
            if contract@.flags.contains_key(name) {
                let j = choose|j: int| 0 <= j < flags.len() && (#[trigger] flags[j])@.name == name;
                assert(!is_missing(contract@.flags, texts(used@), flags[j]@.name));
            }
        }
    }
    Ok(())
}

/// The refusal that a contract's statement on standard input asks for,
/// given whether input is piped in.
pub open spec fn stdin_refusal(stdin: Stdin, piped: bool) -> Option<FailureModel> {
    match stdin {
        Stdin::Required => if piped {
            None
        } else {
            Some(FailureModel::StdinRequired)
        },
        Stdin::Unused => if piped {
            Some(FailureModel::StdinUnexpected)
        } else {
            None
        },
        Stdin::Optional => None,
    }
}

/// Checks whether piped input is there where the contract requires it, and
/// absent where the contract takes none.
pub fn check_stdin(contract: &Contract, piped: bool) -> (r: Result<(), Failure>)
    ensures
        match stdin_refusal(contract@.stdin, piped) {
            Some(failure) => r matches Err(e) && e@ == failure,
            None => r is Ok,
        },
{
    match contract.stdin() {
        Stdin::Required => if piped {
            Ok(())
        } else {
            Err(Failure::StdinRequired)
        },
        Stdin::Unused => if piped {
            Err(Failure::StdinUnexpected)
        } else {
            Ok(())
        },
        Stdin::Optional => Ok(()),
    }
}

/// The refusal that a contract's statement on standard output asks for,
/// given whether the output is redirected.
pub open spec fn stdout_refusal(stdout: Stdout, redirected: bool) -> Option<FailureModel> {
    match stdout {
        Stdout::Unused => if redirected {
            Some(FailureModel::StdoutUnexpected)
        } else {
            None
        },
        _ => None,
    }
}

/// Checks that the output goes to a terminal where the contract writes
/// none.
pub fn check_stdout(contract: &Contract, redirected: bool) -> (r: Result<(), Failure>)
    ensures
        match stdout_refusal(contract@.stdout, redirected) {
            Some(failure) => r matches Err(e) && e@ == failure,
            None => r is Ok,
        },
{
    match contract.stdout() {
        Stdout::Unused => if redirected {
            Err(Failure::StdoutUnexpected)
        } else {
            Ok(())
        },
        _ => Ok(()),
    }
}

/// `atty::isnt` tells whether a stream of the process is no terminal. The
/// answer depends on how the process was started: nothing is stated of it.
#[verifier::external_body]
fn stdout_is_redirected() -> (redirected: bool) {
    atty::isnt(atty::Stream::Stdout)
}

/// The name of the manifest in the directory of an object.
pub const MANIFEST_NAME: &'static str = ".self";

/// What the pipeline asks of the file system next, or how it ended.
#[derive(Debug, PartialEq, Eq)]
pub enum Request {
    /// Is the path of the object a directory?
    Directory,
    /// The text of the manifest in the directory of the object.
    Manifest,
    /// The names of the entries in the directory of the object.
    Entries,
    /// The real path of the directory behind the named entry of the
    /// directory of the object.
    Link(String),
    /// The text of the manifest in the directory that the link led to, which
    /// is now the directory of the object.
    Target,
    /// Every check has passed: the method can be run.
    Execute,
    /// The invocation is refused.
    Refuse(Failure),
}

/// A request as a mathematical value: the variants of `Request`, with texts
/// in the place of strings.
pub enum RequestModel {
    Directory,
    Manifest,
    Entries,
    Link(Seq<char>),
    Target,
    Execute,
    Refuse(FailureModel),
}

impl View for Request {
    type V = RequestModel;

    open spec fn view(&self) -> RequestModel {
        match self {
            Request::Directory => RequestModel::Directory,
            Request::Manifest => RequestModel::Manifest,
            Request::Entries => RequestModel::Entries,
            Request::Link(entry) => RequestModel::Link(entry@),
            Request::Target => RequestModel::Target,
            Request::Execute => RequestModel::Execute,
            Request::Refuse(failure) => RequestModel::Refuse(failure@),
        }
    }
}

/// What the file system answered to a request.
#[derive(Debug, PartialEq, Eq)]
pub enum Answer {
    /// Whether the path of the object is a directory.
    Directory(bool),
    /// The text of the manifest of the object; `None` where there is none.
    Manifest(Option<String>),
    /// The names of the entries of the directory, in the order in which the
    /// file system lists them.
    Entries(Vec<String>),
    /// The real path of the directory behind the link.
    Link(String),
    /// The text of the manifest of the object that the interface points to;
    /// `None` where there is none.
    Target(Option<String>),
}

/// An answer as a mathematical value: the variants of `Answer`, with texts
/// in the place of strings.
pub enum AnswerModel {
    Directory(bool),
    Manifest(Option<Seq<char>>),
    Entries(Seq<Seq<char>>),
    Link(Seq<char>),
    Target(Option<Seq<char>>),
}

impl View for Answer {
    type V = AnswerModel;

    open spec fn view(&self) -> AnswerModel {
        match self {
            Answer::Directory(is_directory) => AnswerModel::Directory(*is_directory),
            Answer::Manifest(text) => AnswerModel::Manifest(text_of(*text)),
            Answer::Entries(names) => AnswerModel::Entries(texts(names@)),
            Answer::Link(path) => AnswerModel::Link(path@),
            Answer::Target(text) => AnswerModel::Target(text_of(*text)),
        }
    }
}

/// The invocation with other contracts for its object.
pub open spec fn with_contracts(
    method: MethodModel,
    contracts: Option<Map<Seq<char>, ContractModel>>,
) -> MethodModel {
    MethodModel { object: ObjectModel { contracts, ..method.object }, ..method }
}

/// The invocation once the manifest of its object is read: with the
/// contracts that the text declares, with none where there is no manifest;
/// refused where a line of the text declares no contract.
pub open spec fn filled(method: MethodModel, manifest: Option<Seq<char>>) -> Result<
    MethodModel,
    FailureModel,
> {
    match manifest {
        None => Ok(with_contracts(method, None)),
        Some(text) => match read_manifest(text) {
            Ok(contracts) => Ok(with_contracts(method, Some(contracts))),
            Err(bad) => Err(FailureModel::MalformedContract { line: bad.line, error: bad.error }),
        },
    }
}

/// Gives the object of the invocation the contracts of its manifest.
pub fn fill_contracts(method: &mut Method, manifest: Option<String>) -> (r: Result<(), Failure>)
    ensures
        match filled(old(method)@, text_of(manifest)) {
            Ok(after) => r is Ok && final(method)@ == after,
            Err(failure) => r matches Err(e) && e@ == failure && final(method)@ == old(method)@,
        },
{
    match manifest {
        None => {
            method.object.contracts = None;
            Ok(())
        },
        Some(text) => match Manifest::parse(text.as_str()) {
            Ok(contracts) => {
                method.object.contracts = Some(contracts);
                Ok(())
            },
            Err((line, error)) => Err(Failure::MalformedContract { line, error }),
        },
    }
}

/// The entry of an interface that is its link: of exactly two entries the
/// first that is not the manifest.
pub open spec fn link_among(names: Seq<Seq<char>>) -> Option<Seq<char>> {
    if names.len() != 2 {
        None
    } else if names[0] != MANIFEST_NAME@ {
        Some(names[0])
    } else if names[1] != MANIFEST_NAME@ {
        Some(names[1])
    } else {
        None
    }
}

/// Finds the link among the entries of the directory of an interface. The
/// directory must hold two entries, and one that is not the manifest.
pub fn find_link(names: &Vec<String>) -> (r: Result<String, Failure>)
    ensures
        match link_among(texts(names@)) {
            Some(entry) => r matches Ok(link) && link@ == entry,
            None => r matches Err(e) && e@ == FailureModel::InterfaceLayout,
        },
{
    if names.len() != 2 {
        Err(Failure::InterfaceLayout)
    } else if !same_text(names[0].as_str(), MANIFEST_NAME) {
        Ok(names[0].clone())
    } else if !same_text(names[1].as_str(), MANIFEST_NAME) {
        Ok(names[1].clone())
    } else {
        Err(Failure::InterfaceLayout)
    }
}

/// The invocation moved to the object that lies at `target`: the object is
/// that directory, the executable the entry of the method's name in it.
pub open spec fn moved_to(method: MethodModel, target: Seq<char>) -> MethodModel {
    MethodModel {
        path: LocationModel { root: target, segments: seq![method.name] },
        object: ObjectModel {
            path: LocationModel { root: target, segments: Seq::empty() },
            ..method.object
        },
        ..method
    }
}

/// Moves the invocation to the object that lies at `target`.
pub fn replace_path(method: &mut Method, target: String)
    ensures
        final(method)@ == moved_to(old(method)@, target@),
{
    let mut segments: Vec<String> = Vec::new();
    segments.push(method.name.clone());
    assert(texts(segments@) =~= seq![method.name@]);
    method.path = Location { root: target.clone(), segments };
    method.object.path = Location::new(target);
}

/// Why an interface does not open the way to a method of its object, if it
/// does not.
///
/// Every contract of the interface must stand in the object unchanged, and
/// the interface itself must declare the method. Where it does not, the
/// refusal tells whether the object declares it.
pub open spec fn interface_refusal(
    interface: Option<Map<Seq<char>, ContractModel>>,
    target: Map<Seq<char>, ContractModel>,
    name: Seq<char>,
) -> Option<FailureModel> {
    match interface {
        None => Some(FailureModel::InterfaceWithoutContract),
        Some(own) => if !conforms(own, target) {
            Some(FailureModel::InterfaceMismatch)
        } else if own.contains_key(name) {
            None
        } else if target.contains_key(name) {
            Some(FailureModel::MethodHiddenByInterface)
        } else {
            Some(FailureModel::MethodNotInInterface)
        },
    }
}

/// The invocation once the manifest of the object behind its interface is
/// read: with the contracts of that object in the place of those of the
/// interface. It is refused where the object has no manifest or a line of
/// it declares no contract, and where the interface does not open the way
/// to the method.
pub open spec fn opened(method: MethodModel, manifest: Option<Seq<char>>) -> Result<
    MethodModel,
    FailureModel,
> {
    match manifest {
        None => Err(FailureModel::TargetWithoutContract),
        Some(text) => match read_manifest(text) {
            Err(bad) => Err(FailureModel::MalformedContract { line: bad.line, error: bad.error }),
            Ok(contracts) => match interface_refusal(
                method.object.contracts,
                contracts,
                method.name,
            ) {
                Some(failure) => Err(failure),
                None => Ok(with_contracts(method, Some(contracts))),
            },
        },
    }
}

/// Holds the contracts of an interface against those of its object, and
/// gives the invocation the contracts of the object.
pub fn validate_interface(method: &mut Method, manifest: Option<String>) -> (r: Result<
    (),
    Failure,
>)
    ensures
        match opened(old(method)@, text_of(manifest)) {
            Ok(after) => r is Ok && final(method)@ == after,
            Err(failure) => r matches Err(e) && e@ == failure && final(method)@ == old(method)@,
        },
{
    let target = match manifest {
        None => {
            return Err(Failure::TargetWithoutContract);
        },
        Some(text) => match Manifest::parse(text.as_str()) {
            Ok(target) => target,
            Err((line, error)) => {
                return Err(Failure::MalformedContract { line, error });
            },
        },
    };
    match &method.object.contracts {
        None => {
            return Err(Failure::InterfaceWithoutContract);
        },
        Some(own) => {
            if !own.conforms_to(&target) {
                return Err(Failure::InterfaceMismatch);
            }
            if !own.contains_key(&method.name) {
                if target.contains_key(&method.name) {
                    return Err(Failure::MethodHiddenByInterface);
                }
                return Err(Failure::MethodNotInInterface);
            }
        },
    }
    method.object.contracts = Some(target);
    Ok(())
}

/// The contract that governs an invocation, once the contracts of its
/// object are read: the one that bears the name of the method.
pub open spec fn contract_for(method: MethodModel) -> Option<ContractModel> {
    match method.object.contracts {
        Some(contracts) => if contracts.contains_key(method.name) {
            Some(contracts[method.name])
        } else {
            None
        },
        None => None,
    }
}

/// Whether `next` is a fit end of the checks of an invocation against its
/// contract, given whether the output is redirected.
///
/// Without a contract the method is run. With one, the arguments and flags
/// are checked first, then standard input, then standard output; the first
/// check that fails refuses the invocation.
pub open spec fn checked(method: MethodModel, redirected: bool, next: RequestModel) -> bool {
    match contract_for(method) {
        None => next == RequestModel::Execute,
        Some(contract) => {
            let verdict = judge(contract, method.args);
            if verdict is Pass {
                match stdin_refusal(contract.stdin, method.stdin) {
                    Some(failure) => next == RequestModel::Refuse(failure),
                    None => match stdout_refusal(contract.stdout, redirected) {
                        Some(failure) => next == RequestModel::Refuse(failure),
                        None => next == RequestModel::Execute,
                    },
                }
            } else {
                next matches RequestModel::Refuse(failure) && refuses(
                    verdict,
                    contract.flags,
                    failure,
                )
            }
        },
    }
}

/// Checks an invocation against the contract that governs it, given
/// whether the output is redirected.
pub fn check_with(method: &Method, redirected: bool) -> (next: Request)
    ensures
        checked(method@, redirected, next@),
{
    match &method.object.contracts {
        Some(manifest) => match manifest.get(&method.name) {
            Some(contract) => {
                match check_arguments(contract, &method.args) {
                    Err(failure) => Request::Refuse(failure),
                    Ok(_) => match check_stdin(contract, method.stdin) {
                        Err(failure) => Request::Refuse(failure),
                        Ok(_) => match check_stdout(contract, redirected) {
                            Err(failure) => Request::Refuse(failure),
                            Ok(_) => Request::Execute,
                        },
                    },
                }
            },
            None => Request::Execute,
        },
        None => Request::Execute,
    }
}

/// Whether the pipeline goes from `before` to `after` and asks `next`, once
/// it is given the answer `found`, where the output is redirected or not as
/// `redirected` says.
///
/// The answers come in this order: whether the object is a directory; its
/// manifest; and for an interface the entries of its directory, the real
/// path behind its link, and the manifest found there. After the last
/// manifest the invocation is checked against its contract. A refusal
/// leaves the invocation as it was.
pub open spec fn step_with(
    before: MethodModel,
    found: AnswerModel,
    redirected: bool,
    after: MethodModel,
    next: RequestModel,
) -> bool {
    match found {
        AnswerModel::Directory(is_directory) => {
            &&& after == before
            &&& next == if is_directory {
                RequestModel::Manifest
            } else {
                RequestModel::Refuse(FailureModel::NotADirectory)
            }
        },
        AnswerModel::Manifest(manifest) => match filled(before, manifest) {
            Err(failure) => after == before && next == RequestModel::Refuse(failure),
            Ok(method) => {
                &&& after == method
                &&& if !is_interface_name(method.object.name) {
                    checked(method, redirected, next)
                } else if method.object.contracts is None {
                    next == RequestModel::Refuse(FailureModel::InterfaceWithoutContract)
                } else {
                    next == RequestModel::Entries
                }
            },
        },
        AnswerModel::Entries(names) => {
            &&& after == before
            &&& next == match link_among(names) {
                Some(entry) => RequestModel::Link(entry),
                None => RequestModel::Refuse(FailureModel::InterfaceLayout),
            }
        },
        AnswerModel::Link(target) => {
            &&& after == moved_to(before, target)
            &&& next == RequestModel::Target
        },
        AnswerModel::Target(manifest) => match opened(before, manifest) {
            Err(failure) => after == before && next == RequestModel::Refuse(failure),
            Ok(method) => after == method && checked(method, redirected, next),
        },
    }
}

/// Whether the pipeline may go from `before` to `after` and ask `next`, once
/// it is given the answer `found`: whether it does so for the output
/// redirected or for the output not redirected.
pub open spec fn step_permitted(
    before: MethodModel,
    found: AnswerModel,
    after: MethodModel,
    next: RequestModel,
) -> bool {
    exists|redirected: bool| step_with(before, found, redirected, after, next)
}

/// A step of the pipeline: what is done with an answer.
pub trait Handle {
    /// Whether the handler may go from `before` to `after` and ask `next`
    /// when it is given `found`.
    spec fn permits(
        before: MethodModel,
        found: AnswerModel,
        after: MethodModel,
        next: RequestModel,
    ) -> bool;

    /// Takes the answer to the request made last, and says what to do next.
    fn handle(method: &mut Method, found: Answer) -> (next: Request)
        ensures
            Self::permits(old(method)@, found@, final(method)@, next@),
    ;
}

/// The whole pipeline. Its first request is always `Request::Directory`.
#[derive(Debug)]
pub struct MainHandler;

impl MainHandler {
    /// Takes the answer to the request made last and says what to do next,
    /// given whether the output is redirected.
    pub fn handle_with(method: &mut Method, found: Answer, redirected: bool) -> (next: Request)
        ensures
            step_with(old(method)@, found@, redirected, final(method)@, next@),
    {
        match found {
            Answer::Directory(is_directory) => {
                if is_directory {
                    Request::Manifest
                } else {
                    Request::Refuse(Failure::NotADirectory)
                }
            },
            Answer::Manifest(manifest) => match fill_contracts(method, manifest) {
                Err(failure) => Request::Refuse(failure),
                Ok(_) => {
                    if !is_interface(&method.object.name) {
                        check_with(method, redirected)
                    } else if method.object.contracts.is_none() {
                        Request::Refuse(Failure::InterfaceWithoutContract)
                    } else {
                        Request::Entries
                    }
                },
            },
            Answer::Entries(names) => match find_link(&names) {
                Ok(entry) => Request::Link(entry),
                Err(failure) => Request::Refuse(failure),
            },
            Answer::Link(target) => {
                replace_path(method, target);
                Request::Target
            },
            Answer::Target(manifest) => match validate_interface(method, manifest) {
                Err(failure) => Request::Refuse(failure),
                Ok(_) => check_with(method, redirected),
            },
        }
    }
}

impl Handle for MainHandler {
    open spec fn permits(
        before: MethodModel,
        found: AnswerModel,
        after: MethodModel,
        next: RequestModel,
    ) -> bool {
        step_permitted(before, found, after, next)
    }

    /// Takes the answer to the request made last and says what to do next.
    /// Whether the output is redirected is asked of the process itself.
    fn handle(method: &mut Method, found: Answer) -> (next: Request) {
        let redirected = stdout_is_redirected();
        let ghost before = method@;
        let ghost answer = found@;
        let next = MainHandler::handle_with(method, found, redirected);
        assert(step_with(before, answer, redirected, method@, next@));
        next
    }
}

/// Conformance is equality: an interface whose contract for a method is
/// missing from the object, or differs from the object's in any part, does
/// not conform, and no method can be called through it.
pub proof fn lemma_conformance_is_strict(
    interface: Map<Seq<char>, ContractModel>,
    target: Map<Seq<char>, ContractModel>,
    shared: Seq<char>,
    called: Seq<char>,
)
    requires
        interface.contains_key(shared),
        !target.contains_key(shared) || target[shared] != interface[shared],
    ensures
        !conforms(interface, target),
        interface_refusal(Some(interface), target, called) == Some(FailureModel::InterfaceMismatch),
{
}

/// A contract with one more argument is another contract.
pub proof fn lemma_extra_argument_differs(contract: ContractModel, extra: Arg)
    ensures
        (ContractModel { args: contract.args.push(extra), ..contract }) != contract,
{
    assert(contract.args.push(extra).len() != contract.args.len());
}

} // verus!
