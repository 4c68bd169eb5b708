//! Refusals: why an invocation is not run, the status that the process ends
//! with, and what the caller is told.

use crate::contract::ContractError;
use crate::method::{Location, LocationModel, Method, MethodModel};
use crate::text::{decimal_text, push_decimal, texts};
use vstd::prelude::*;

verus! {

/// Why an invocation is refused.
#[derive(Debug, PartialEq, Eq)]
pub enum Failure {
    /// The object of the method is no directory.
    NotADirectory,
    /// A line of a manifest declares no contract; the line is given, and
    /// what is wrong with it.
    MalformedContract { line: String, error: ContractError },
    /// An interface has no manifest.
    InterfaceWithoutContract,
    /// An interface holds something else than its manifest and one link.
    InterfaceLayout,
    /// The object that an interface points to has no manifest.
    TargetWithoutContract,
    /// An interface declares a contract that its object does not have, or
    /// has in another form.
    InterfaceMismatch,
    /// The interface does not declare the method, though its object does.
    MethodHiddenByInterface,
    /// Neither the interface nor its object declares the method.
    MethodNotInInterface,
    /// A flag was given that the contract does not have; the flag is named.
    UnknownFlag(String),
    /// The named flag needs a value, and none was given.
    MissingFlagValue(String),
    /// Fewer arguments were given than the contract requires.
    TooFewArguments { required: usize, optional: usize },
    /// More arguments were given than the contract has.
    TooManyArguments { required: usize, optional: usize },
    /// The named flag is required and was not given.
    MissingRequiredFlag(String),
    /// The contract requires piped input, and none is there.
    StdinRequired,
    /// The contract takes no input, and input is piped in.
    StdinUnexpected,
    /// The contract writes no output, and the output is redirected.
    StdoutUnexpected,
}

/// A refusal as a mathematical value: the variants of `Failure`, with texts
/// in the place of strings.
pub enum FailureModel {
    NotADirectory,
    MalformedContract { line: Seq<char>, error: ContractError },
    InterfaceWithoutContract,
    InterfaceLayout,
    TargetWithoutContract,
    InterfaceMismatch,
    MethodHiddenByInterface,
    MethodNotInInterface,
    UnknownFlag(Seq<char>),
    MissingFlagValue(Seq<char>),
    TooFewArguments { required: nat, optional: nat },
    TooManyArguments { required: nat, optional: nat },
    MissingRequiredFlag(Seq<char>),
    StdinRequired,
    StdinUnexpected,
    StdoutUnexpected,
}

impl View for Failure {
    type V = FailureModel;

    open spec fn view(&self) -> FailureModel {
        match self {
            Failure::NotADirectory => FailureModel::NotADirectory,
            Failure::MalformedContract { line, error } => FailureModel::MalformedContract {
                line: line@,
                error: *error,
            },
            Failure::InterfaceWithoutContract => FailureModel::InterfaceWithoutContract,
            Failure::InterfaceLayout => FailureModel::InterfaceLayout,
            Failure::TargetWithoutContract => FailureModel::TargetWithoutContract,
            Failure::InterfaceMismatch => FailureModel::InterfaceMismatch,
            Failure::MethodHiddenByInterface => FailureModel::MethodHiddenByInterface,
            Failure::MethodNotInInterface => FailureModel::MethodNotInInterface,
            Failure::UnknownFlag(name) => FailureModel::UnknownFlag(name@),
            Failure::MissingFlagValue(name) => FailureModel::MissingFlagValue(name@),
            Failure::TooFewArguments { required, optional } => FailureModel::TooFewArguments {
                required: *required as nat,
                optional: *optional as nat,
            },
            Failure::TooManyArguments { required, optional } => FailureModel::TooManyArguments {
                required: *required as nat,
                optional: *optional as nat,
            },
            Failure::MissingRequiredFlag(name) => FailureModel::MissingRequiredFlag(name@),
            Failure::StdinRequired => FailureModel::StdinRequired,
            Failure::StdinUnexpected => FailureModel::StdinUnexpected,
            Failure::StdoutUnexpected => FailureModel::StdoutUnexpected,
        }
    }
}

/// The status that the process ends with after a refusal: 2 where the
/// invocation or a manifest line is at fault in its form, 1 otherwise.
pub open spec fn exit_code_of(failure: FailureModel) -> i32 {
    match failure {
        FailureModel::MalformedContract { .. } => 2,
        FailureModel::TooFewArguments { .. } => 2,
        FailureModel::TooManyArguments { .. } => 2,
        FailureModel::MissingRequiredFlag(_) => 2,
        FailureModel::StdinRequired => 2,
        FailureModel::StdinUnexpected => 2,
        _ => 1,
    }
}

/// The text of a place: its root, then each segment after a slash.
pub open spec fn place_text(place: LocationModel) -> Seq<char>
    decreases place.segments.len(),
{
    if place.segments.len() == 0 {
        place.root
    } else {
        place_text(LocationModel { root: place.root, segments: place.segments.drop_last() })
            + seq!['/'] + place.segments.last()
    }
}

/// What is said of the numbers of arguments that a contract has.
pub open spec fn counts_text(required: nat, optional: nat) -> Seq<char> {
    "The contract requires "@ + decimal_text(required) + " arguments and "@ + decimal_text(optional)
        + " optional ones."@
}

/// What the caller is told of a refusal of an invocation.
pub open spec fn message_of(failure: FailureModel, method: MethodModel) -> Seq<char> {
    match failure {
        FailureModel::NotADirectory => "Object must be a directory"@,
        FailureModel::MalformedContract { line, error } => if error == ContractError::MissingName {
            "Contract must have a name that matches a method name. No name was provided."@
        } else {
            "Error while parsing contract: "@ + line
        },
        FailureModel::InterfaceWithoutContract => "Interface must have a contract"@,
        FailureModel::InterfaceLayout => "Interfaces must only contain two files: a self file with contracts and a link to an object"@,
        FailureModel::TargetWithoutContract => "The object \""@ + method.object.name
            + "\" referenced by the interface must contain a contract."@,
        FailureModel::InterfaceMismatch => "The enumeration of interface contracts must be a subset of the enumeration of contracts of the object referenced by the interface"@,
        FailureModel::MethodHiddenByInterface => "The called method \""@ + method.name
            + "\" is not specified in the interface contract. However, it is specified in the objects contract: \""@
            + place_text(method.object.path) + "\""@,
        FailureModel::MethodNotInInterface => "The called method \""@ + method.name
            + "\" is not specified in the interface contract."@,
        FailureModel::UnknownFlag(name) => "A flag was provided that is not in the contract: "@
            + name,
        FailureModel::MissingFlagValue(name) => "The flag \""@ + name
            + "\" must have a value, which is not provided"@,
        FailureModel::TooFewArguments { required, optional } => "The arguments provided are fewer than required by the contract. "@
            + counts_text(required, optional),
        FailureModel::TooManyArguments { required, optional } => "Too many arguments. "@
            + counts_text(required, optional),
        FailureModel::MissingRequiredFlag(name) => "One required flag is missing: "@ + name,
        FailureModel::StdinRequired => "The contract \""@ + method.name
            + "\" requires stdin, which is not provided"@,
        FailureModel::StdinUnexpected => "The contract \""@ + method.name
            + "\" does not imply functionality for stdin, but stdin was passed."@,
        FailureModel::StdoutUnexpected => "The contract "@ + method.name
            + " does not imply functionality for stdout, but stdout is used in pipeline."@,
    }
}

/// Writes the text of a place at the end of `out`.
fn push_place(out: &mut String, place: &Location)
    ensures
        final(out)@ == old(out)@ + place_text(place@),
{
    out.append(place.root.as_str());
    let ghost start = old(out)@;
    let mut i: usize = 0;
    assert(texts(place.segments@).take(0) =~= Seq::empty());
    while i < place.segments.len()
        invariant
            i <= place.segments.len(),
            out@ == start + place_text(
                LocationModel {
                    root: place.root@,
                    segments: texts(place.segments@).take(i as int),
                },
            ),
        decreases place.segments.len() - i,
    {
        let ghost before = out@;
        out.push('/');
        out.append(place.segments[i].as_str());
        proof {
            let longer = texts(place.segments@).take(i + 1);
            assert(longer.drop_last() =~= texts(place.segments@).take(i as int));
            assert(longer.last() == place.segments[i as int]@);
            assert(out@ =~= start + place_text(
                LocationModel { root: place.root@, segments: longer },
            ));
        }
        i += 1;
    }
    assert(texts(place.segments@).take(place.segments.len() as int) =~= texts(place.segments@));
}

/// Writes what is said of the numbers of arguments at the end of `out`.
fn push_counts(out: &mut String, required: usize, optional: usize)
    ensures
        final(out)@ == old(out)@ + counts_text(required as nat, optional as nat),
{
    out.append("The contract requires ");
    push_decimal(out, required);
    out.append(" arguments and ");
    push_decimal(out, optional);
    out.append(" optional ones.");
    assert(out@ =~= old(out)@ + counts_text(required as nat, optional as nat));
}

impl Failure {
    /// The status that the process ends with after this refusal.
    pub fn exit_code(&self) -> (code: i32)
        ensures
            code == exit_code_of(self@),
    {
        match self {
            Failure::MalformedContract { .. } => 2,
            Failure::TooFewArguments { .. } => 2,
            Failure::TooManyArguments { .. } => 2,
            Failure::MissingRequiredFlag(_) => 2,
            Failure::StdinRequired => 2,
            Failure::StdinUnexpected => 2,
            _ => 1,
        }
    }

    /// What the caller is told of this refusal of `method`.
    pub fn message(&self, method: &Method) -> (text: String)
        ensures
            text@ == message_of(self@, method@),
    {
        let mut out = String::new();
        match self {
            Failure::NotADirectory => {
                out.append("Object must be a directory");
            },
            Failure::MalformedContract { line, error } => {
                match error {
                    ContractError::MissingName => {
                        out.append(
                            "Contract must have a name that matches a method name. No name was provided.",
                        );
                    },
                    _ => {
                        out.append("Error while parsing contract: ");
                        out.append(line.as_str());
                    },
                }
            },
            Failure::InterfaceWithoutContract => {
                out.append("Interface must have a contract");
            },
            Failure::InterfaceLayout => {
                out.append(
                    "Interfaces must only contain two files: a self file with contracts and a link to an object",
                );
            },
            Failure::TargetWithoutContract => {
                out.append("The object \"");
                out.append(method.object.name.as_str());
                out.append("\" referenced by the interface must contain a contract.");
            },
            Failure::InterfaceMismatch => {
                out.append(
                    "The enumeration of interface contracts must be a subset of the enumeration of contracts of the object referenced by the interface",
                );
            },
            Failure::MethodHiddenByInterface => {
                out.append("The called method \"");
                out.append(method.name.as_str());
                out.append(
                    "\" is not specified in the interface contract. However, it is specified in the objects contract: \"",
                );
                push_place(&mut out, &method.object.path);
                out.append("\"");
            },
            Failure::MethodNotInInterface => {
                out.append("The called method \"");
                out.append(method.name.as_str());
                out.append("\" is not specified in the interface contract.");
            },
            Failure::UnknownFlag(name) => {
                out.append("A flag was provided that is not in the contract: ");
                out.append(name.as_str());
            },
            Failure::MissingFlagValue(name) => {
                out.append("The flag \"");
                out.append(name.as_str());
                out.append("\" must have a value, which is not provided");
            },
            Failure::TooFewArguments { required, optional } => {
                out.append("The arguments provided are fewer than required by the contract. ");
                push_counts(&mut out, *required, *optional);
            },
            Failure::TooManyArguments { required, optional } => {
                out.append("Too many arguments. ");
                push_counts(&mut out, *required, *optional);
            },
            Failure::MissingRequiredFlag(name) => {
                out.append("One required flag is missing: ");
                out.append(name.as_str());
            },
            Failure::StdinRequired => {
                out.append("The contract \"");
                out.append(method.name.as_str());
                out.append("\" requires stdin, which is not provided");
            },
            Failure::StdinUnexpected => {
                out.append("The contract \"");
                out.append(method.name.as_str());
                out.append("\" does not imply functionality for stdin, but stdin was passed.");
            },
            Failure::StdoutUnexpected => {
                out.append("The contract ");
                out.append(method.name.as_str());
                out.append(
                    " does not imply functionality for stdout, but stdout is used in pipeline.",
                );
            },
        }
        assert(out@ =~= message_of(self@, method@));
        out
    }
}

} // verus!
