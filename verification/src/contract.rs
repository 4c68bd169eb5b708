//! Contracts: what a method declares of its standard streams, its
//! arguments, its flags and its exit codes, and how one is read from a line
//! of text.

use crate::contract_tokens::{
    is_digit, is_sigil, lemma_run_end, lemma_token_at_bounds, lemma_token_text, step, CharClass,
    ContractTokens, Step,
};
use crate::text::{chars_of, find_from, lemma_index_of_contains, same_text, string_of, text_of};
use std::cmp::{Eq, PartialEq};
use std::convert::From;
use std::str::FromStr;
use vstd::prelude::*;
use vstd::std_specs::cmp::{PartialEqSpec, PartialEqSpecImpl};
use vstd::std_specs::convert::{FromSpecImpl, IntoSpec};

verus! {

/// Why a piece of text is no contract, argument or flag.
#[derive(Debug, PartialEq, Eq, Clone, Copy, Structural)]
pub enum ContractError {
    /// The line holds text that begins no token.
    UnrecognizedText,
    /// An exit code does not fit in 32 bits.
    NumberTooLarge,
    /// The line names no method.
    MissingName,
    /// An argument or a flag ends neither in `!` nor in `?`.
    AmbiguousRequirement,
}

/// What a contract says of standard input.
#[derive(Debug, PartialEq, Eq, Clone, Copy, Structural)]
pub enum Stdin {
    /// The method must be given piped input.
    Required,
    /// The method may be given piped input.
    Optional,
    /// The method takes no input.
    Unused,
}

/// The meaning of a piece of text as a statement on standard input.
pub open spec fn stdin_of(text: Seq<char>) -> Stdin {
    if text == "stdin!"@ {
        Stdin::Required
    } else if text == "stdin?"@ {
        Stdin::Optional
    } else {
        Stdin::Unused
    }
}

impl From<&str> for Stdin {
    fn from(value: &str) -> (r: Stdin) {
        if same_text(value, "stdin!") {
            Stdin::Required
        } else if same_text(value, "stdin?") {
            Stdin::Optional
        } else {
            Stdin::Unused
        }
    }
}

impl FromSpecImpl<&str> for Stdin {
    open spec fn obeys_from_spec() -> bool {
        true
    }

    open spec fn from_spec(value: &str) -> Stdin {
        stdin_of(value@)
    }
}

impl From<String> for Stdin {
    fn from(value: String) -> (r: Stdin) {
        Stdin::from(value.as_str())
    }
}

impl FromSpecImpl<String> for Stdin {
    open spec fn obeys_from_spec() -> bool {
        true
    }

    open spec fn from_spec(value: String) -> Stdin {
        stdin_of(value@)
    }
}

impl From<Option<&str>> for Stdin {
    fn from(value: Option<&str>) -> (r: Stdin) {
        match value {
            Some(text) => Stdin::from(text),
            None => Stdin::Unused,
        }
    }
}

impl FromSpecImpl<Option<&str>> for Stdin {
    open spec fn obeys_from_spec() -> bool {
        true
    }

    open spec fn from_spec(value: Option<&str>) -> Stdin {
        match value {
            Some(text) => stdin_of(text@),
            None => Stdin::Unused,
        }
    }
}

impl From<Option<String>> for Stdin {
    fn from(value: Option<String>) -> (r: Stdin) {
        match value {
            Some(text) => Stdin::from(text),
            None => Stdin::Unused,
        }
    }
}

impl FromSpecImpl<Option<String>> for Stdin {
    open spec fn obeys_from_spec() -> bool {
        true
    }

    open spec fn from_spec(value: Option<String>) -> Stdin {
        match value {
            Some(text) => stdin_of(text@),
            None => Stdin::Unused,
        }
    }
}

/// What a contract says of standard output.
#[derive(Debug, PartialEq, Eq, Clone, Copy, Structural)]
pub enum Stdout {
    /// The method writes output that is meant to be used.
    Required,
    /// The method may write output.
    Optional,
    /// The method writes no output.
    Unused,
}

/// The meaning of a piece of text as a statement on standard output.
pub open spec fn stdout_of(text: Seq<char>) -> Stdout {
    if text == "stdout!"@ {
        Stdout::Required
    } else if text == "stdout?"@ {
        Stdout::Optional
    } else {
        Stdout::Unused
    }
}

impl From<&str> for Stdout {
    fn from(value: &str) -> (r: Stdout) {
        if same_text(value, "stdout!") {
            Stdout::Required
        } else if same_text(value, "stdout?") {
            Stdout::Optional
        } else {
            Stdout::Unused
        }
    }
}

impl FromSpecImpl<&str> for Stdout {
    open spec fn obeys_from_spec() -> bool {
        true
    }

    open spec fn from_spec(value: &str) -> Stdout {
        stdout_of(value@)
    }
}

impl From<String> for Stdout {
    fn from(value: String) -> (r: Stdout) {
        Stdout::from(value.as_str())
    }
}

impl FromSpecImpl<String> for Stdout {
    open spec fn obeys_from_spec() -> bool {
        true
    }

    open spec fn from_spec(value: String) -> Stdout {
        stdout_of(value@)
    }
}

impl From<Option<&str>> for Stdout {
    fn from(value: Option<&str>) -> (r: Stdout) {
        match value {
            Some(text) => Stdout::from(text),
            None => Stdout::Unused,
        }
    }
}

impl FromSpecImpl<Option<&str>> for Stdout {
    open spec fn obeys_from_spec() -> bool {
        true
    }

    open spec fn from_spec(value: Option<&str>) -> Stdout {
        match value {
            Some(text) => stdout_of(text@),
            None => Stdout::Unused,
        }
    }
}

impl From<Option<String>> for Stdout {
    fn from(value: Option<String>) -> (r: Stdout) {
        match value {
            Some(text) => Stdout::from(text),
            None => Stdout::Unused,
        }
    }
}

impl FromSpecImpl<Option<String>> for Stdout {
    open spec fn obeys_from_spec() -> bool {
        true
    }

    open spec fn from_spec(value: Option<String>) -> Stdout {
        match value {
            Some(text) => stdout_of(text@),
            None => Stdout::Unused,
        }
    }
}

/// One positional argument of a contract.
#[derive(Debug, PartialEq, Eq, Clone, Copy, Structural)]
pub struct Arg {
    /// Whether the caller must supply the argument.
    pub required: bool,
}

/// The argument that a piece of text declares: required where the text ends
/// in `!`, optional where it ends in `?`, none otherwise.
pub open spec fn arg_of(text: Seq<char>) -> Option<Arg> {
    if text.len() > 0 && is_sigil(text.last()) {
        Some(Arg { required: text.last() == '!' })
    } else {
        None
    }
}

impl Arg {
    /// Reads an argument declaration such as `path!` or `path?`.
    pub fn parse(text: &str) -> (r: Result<Arg, ContractError>)
        ensures
            match arg_of(text@) {
                Some(arg) => r == Ok::<Arg, ContractError>(arg),
                None => r == Err::<Arg, ContractError>(ContractError::AmbiguousRequirement),
            },
    {
        let v = chars_of(text);
        let n = v.len();
        if n > 0 && v[n - 1] == '!' {
            Ok(Arg { required: true })
        } else if n > 0 && v[n - 1] == '?' {
            Ok(Arg { required: false })
        } else {
            Err(ContractError::AmbiguousRequirement)
        }
    }
}

/// A flag of a contract.
#[derive(Debug)]
pub struct Flag {
    name: String,
    required: bool,
    required_value: bool,
}

/// A flag as a mathematical value.
pub struct FlagModel {
    /// The name, leading dashes included.
    pub name: Seq<char>,
    /// Whether the caller must give the flag.
    pub required: bool,
    /// Whether the flag, where given, must carry a value.
    pub required_value: bool,
}

impl View for Flag {
    type V = FlagModel;

    closed spec fn view(&self) -> FlagModel {
        FlagModel {
            name: self.name@,
            required: self.required,
            required_value: self.required_value,
        }
    }
}

/// The flag that a piece of text declares. The text must end in `!`
/// (required) or `?` (optional). Where it holds `=`, the flag requires a
/// value and its name is the text without its last two characters; else the
/// name is the text without its last character.
pub open spec fn flag_of(text: Seq<char>) -> Option<FlagModel> {
    if text.len() > 0 && is_sigil(text.last()) {
        let required_value = text.contains('=');
        let cut: int = if required_value {
            2
        } else {
            1
        };
        Some(
            FlagModel {
                name: text.take(text.len() - cut),
                required: text.last() == '!',
                required_value,
            },
        )
    } else {
        None
    }
}

impl Flag {
    /// Reads a flag declaration such as `--out=!` or `-v?`.
    pub fn parse(text: &str) -> (r: Result<Flag, ContractError>)
        ensures
            match flag_of(text@) {
                Some(flag) => r matches Ok(f) && f@ == flag,
                None => r matches Err(e) && e == ContractError::AmbiguousRequirement,
            },
    {
        let v = chars_of(text);
        let n = v.len();
        if n == 0 || !(v[n - 1] == '!' || v[n - 1] == '?') {
            return Err(ContractError::AmbiguousRequirement);
        }
        let required = v[n - 1] == '!';
        let required_value = find_from(&v, '=', 0) < n;
        proof {
            lemma_index_of_contains(v@, '=');
        }
        let cut: usize = if required_value {
            2
        } else {
            1
        };
        let name = string_of(&v, 0, n - cut);
        Ok(Flag { name, required, required_value })
    }

    /// Whether the caller must give the flag.
    pub fn is_required(&self) -> (r: bool)
        ensures
            r == self@.required,
    {
        self.required
    }

    /// Whether the flag, where given, must carry a value.
    pub fn required_value(&self) -> (r: bool)
        ensures
            r == self@.required_value,
    {
        self.required_value
    }

    /// The name of the flag, leading dashes included.
    pub fn name(&self) -> (r: &String)
        ensures
            r@ == self@.name,
    {
        &self.name
    }
}

impl Clone for Flag {
    fn clone(&self) -> (r: Flag)
        ensures
            r@ == self@,
    {
        Flag {
            name: self.name.clone(),
            required: self.required,
            required_value: self.required_value,
        }
    }
}

impl PartialEq for Flag {
    fn eq(&self, other: &Flag) -> (r: bool) {
        self.name == other.name && self.required == other.required && self.required_value
            == other.required_value
    }
}

impl Eq for Flag {

}

impl PartialEqSpecImpl for Flag {
    open spec fn obeys_eq_spec() -> bool {
        true
    }

    open spec fn eq_spec(&self, other: &Flag) -> bool {
        self@ == other@
    }
}

/// A flag declared with `=` before its mark and the flag declared without
/// it bear the same name and are required alike; they differ in whether
/// they demand a value.
pub proof fn lemma_flag_value_marker(stem: Seq<char>, mark: char)
    requires
        is_sigil(mark),
        !stem.contains('='),
    ensures
        flag_of(stem + seq!['=', mark]) == Some(
            FlagModel { name: stem, required: mark == '!', required_value: true },
        ),
        flag_of(stem.push(mark)) == Some(
            FlagModel { name: stem, required: mark == '!', required_value: false },
        ),
{
    let with = stem + seq!['=', mark];
    let without = stem.push(mark);
    assert(with[stem.len() as int] == '=');
    assert(with.take(with.len() - 2) =~= stem);
    assert(without.take(without.len() - 1) =~= stem);
    assert(!without.contains('=')) by {
        if without.contains('=') {
            let i = choose|i: int| 0 <= i < without.len() && without[i] == '=';
            if i < stem.len() {
                assert(stem[i] == '=');
            }
        }
    }
}

/// The flags of a sequence, by name. Where two flags share a name, the later
/// one stands.
pub open spec fn flag_map(flags: Seq<Flag>) -> Map<Seq<char>, FlagModel>
    decreases flags.len(),
{
    if flags.len() == 0 {
        Map::empty()
    } else {
        flag_map(flags.drop_last()).insert(flags.last()@.name, flags.last()@)
    }
}

/// No two flags of the sequence share a name.
pub open spec fn distinct_names(flags: Seq<Flag>) -> bool {
    forall|i: int, j: int|
        0 <= i < j < flags.len() ==> (#[trigger] flags[i])@.name != (#[trigger] flags[j])@.name
}

/// The names of a flag map are the names of the flags it was made of.
pub proof fn lemma_flag_map_keys(flags: Seq<Flag>)
    ensures
        forall|n: Seq<char>| #[trigger]
            flag_map(flags).contains_key(n) <==> exists|i: int|
                0 <= i < flags.len() && (#[trigger] flags[i])@.name == n,
        flag_map(flags).dom().finite(),
    decreases flags.len(),
{
    if flags.len() > 0 {
        let front = flags.drop_last();
        lemma_flag_map_keys(front);
        assert forall|n: Seq<char>| #[trigger]
            flag_map(flags).contains_key(n) implies exists|i: int|
            0 <= i < flags.len() && (#[trigger] flags[i])@.name == n by {
            if n == flags.last()@.name {
                assert(flags[flags.len() - 1]@.name == n);
            } else {
                assert(flag_map(front).contains_key(n));
                let i = choose|i: int| 0 <= i < front.len() && (#[trigger] front[i])@.name == n;
                assert(flags[i]@.name == n);
            }
        }
        assert forall|n: Seq<char>|
            (exists|i: int|
                0 <= i < flags.len() && (#[trigger] flags[i])@.name == n) implies #[trigger]
            flag_map(flags).contains_key(n) by {
            let i = choose|i: int| 0 <= i < flags.len() && (#[trigger] flags[i])@.name == n;
            if i < flags.len() - 1 {
                assert(front[i]@.name == n);
            }
        }
    }
}

/// Where no two flags share a name, each flag is found under its name.
pub proof fn lemma_flag_map_values(flags: Seq<Flag>, i: int)
    requires
        distinct_names(flags),
        0 <= i < flags.len(),
    ensures
        flag_map(flags).contains_key(flags[i]@.name),
        flag_map(flags)[flags[i]@.name] == flags[i]@,
    decreases flags.len(),
{
    let front = flags.drop_last();
    if i < flags.len() - 1 {
        assert(distinct_names(front)) by {
            assert forall|a: int, b: int| 0 <= a < b < front.len() implies (
            #[trigger] front[a])@.name != (#[trigger] front[b])@.name by {
                assert(flags[a]@.name != flags[b]@.name);
            }
        }
        lemma_flag_map_values(front, i);
        assert(front[i] == flags[i]);
        assert(flags[i]@.name != flags[flags.len() - 1]@.name);
    }
}

/// Two sequences of flags that agree flag by flag make the same map, and
/// the one has distinct names where the other has.
pub proof fn lemma_flag_map_same(a: Seq<Flag>, b: Seq<Flag>)
    requires
        a.len() == b.len(),
        forall|j: int| 0 <= j < a.len() ==> (#[trigger] a[j])@ == b[j]@,
    ensures
        flag_map(a) == flag_map(b),
        distinct_names(b) ==> distinct_names(a),
    decreases a.len(),
{
    if a.len() > 0 {
        lemma_flag_map_same(a.drop_last(), b.drop_last());
        assert(a.last()@ == b.last()@);
    }
    if distinct_names(b) {
        assert forall|i: int, j: int| 0 <= i < j < a.len() implies (#[trigger] a[i])@.name != (
        #[trigger] a[j])@.name by {
            assert(b[i]@.name != b[j]@.name);
        }
    }
}

/// Puts `flag` into `flags` under its name: in the place of the flag that
/// had the name, or at the end.
fn put_flag(flags: &mut Vec<Flag>, flag: Flag)
    requires
        distinct_names(old(flags)@),
    ensures
        distinct_names(final(flags)@),
        flag_map(final(flags)@) =~= flag_map(old(flags)@).insert(flag@.name, flag@),
{
    let ghost before = flags@;
    let ghost model = flag@;
    let mut i: usize = 0;
    while i < flags.len()
        invariant
            i <= flags.len(),
            flags@ == before,
            before == old(flags)@,
            model == flag@,
            distinct_names(before),
            forall|j: int| 0 <= j < i ==> (#[trigger] before[j])@.name != flag@.name,
        decreases flags.len() - i,
    {
        if flags[i].name == flag.name {
            flags.set(i, flag);
            proof {
                let after = flags@;
                assert(distinct_names(after)) by {
                    assert forall|a: int, b: int| 0 <= a < b < after.len() implies (
                    #[trigger] after[a])@.name != (#[trigger] after[b])@.name by {
                        assert(before[a]@.name != before[b]@.name);
                    }
                }
                lemma_flag_map_keys(before);
                lemma_flag_map_keys(after);
                assert forall|n: Seq<char>|
                    flag_map(after).contains_key(n) <==> flag_map(before).insert(
                        model.name,
                        model,
                    ).contains_key(n) by {
                    if flag_map(after).contains_key(n) {
                        let k = choose|k: int|
                            0 <= k < after.len() && (#[trigger] after[k])@.name == n;
                        if k != i {
                            assert(before[k]@.name == n);
                        }
                    }
                    if flag_map(before).contains_key(n) {
                        let k = choose|k: int|
                            0 <= k < before.len() && (#[trigger] before[k])@.name == n;
                        assert(after[k]@.name == n);
                    }
                    if n == model.name {
                        assert(after[i as int]@.name == n);
                    }
                }
                assert forall|n: Seq<char>| flag_map(after).contains_key(n) implies flag_map(
                    after,
                )[n] == flag_map(before).insert(model.name, model)[n] by {
                    let k = choose|k: int|
                        0 <= k < after.len() && (#[trigger] after[k])@.name == n;
                    lemma_flag_map_values(after, k);
                    if k != i {
                        assert(before[k] == after[k]);
                        lemma_flag_map_values(before, k);
                    }
                }
                assert(flag_map(after) =~= flag_map(before).insert(model.name, model));
            }
            return ;
        }
        i += 1;
    }
    flags.push(flag);
    proof {
        let after = flags@;
        assert(after.drop_last() == before);
        assert(distinct_names(after)) by {
            assert forall|a: int, b: int| 0 <= a < b < after.len() implies (
            #[trigger] after[a])@.name != (#[trigger] after[b])@.name by {
                if b < before.len() {
                    assert(before[a]@.name != before[b]@.name);
                } else {
                    assert(before[a]@.name != model.name);
                }
            }
        }
    }
}

/// The place of the flag called `name` in `flags`, if there is one.
pub fn find_flag(flags: &Vec<Flag>, name: &String) -> (r: Option<usize>)
    ensures
        match r {
            Some(i) => i < flags.len() && flags[i as int]@.name == name@,
            None => !flag_map(flags@).contains_key(name@),
        },
{
    let mut i: usize = 0;
    while i < flags.len()
        invariant
            i <= flags.len(),
            forall|j: int| 0 <= j < i ==> (#[trigger] flags[j])@.name != name@,
        decreases flags.len() - i,
    {
        if flags[i].name == *name {
            return Some(i);
        }
        i += 1;
    }
    proof {
        lemma_flag_map_keys(flags@);
    }
    None
}

/// Every flag of `a` stands in `b` under its name, unchanged.
pub open spec fn flags_within(a: Map<Seq<char>, FlagModel>, b: Map<Seq<char>, FlagModel>) -> bool {
    forall|n: Seq<char>| #[trigger] a.contains_key(n) ==> b.contains_key(n) && b[n] == a[n]
}

/// Whether every flag of `a` stands in `b` unchanged.
fn within(a: &Vec<Flag>, b: &Vec<Flag>) -> (r: bool)
    requires
        distinct_names(a@),
        distinct_names(b@),
    ensures
        r == flags_within(flag_map(a@), flag_map(b@)),
{
    let mut i: usize = 0;
    while i < a.len()
        invariant
            i <= a.len(),
            distinct_names(a@),
            distinct_names(b@),
            forall|j: int|
                0 <= j < i ==> flag_map(b@).contains_key((#[trigger] a[j])@.name) && flag_map(
                    b@,
                )[a[j]@.name] == a[j]@,
        decreases a.len() - i,
    {
        proof {
            lemma_flag_map_values(a@, i as int);
        }
        match find_flag(b, &a[i].name) {
            Some(k) => {
                proof {
                    lemma_flag_map_values(b@, k as int);
                }
                if !(a[i].required == b[k].required && a[i].required_value == b[k].required_value) {
                    return false;
                }
            },
            None => {
                return false;
            },
        }
        i += 1;
    }
    proof {
        lemma_flag_map_keys(a@);
        assert forall|n: Seq<char>| #[trigger] flag_map(a@).contains_key(n) implies flag_map(
            b@,
        ).contains_key(n) && flag_map(b@)[n] == flag_map(a@)[n] by {
            let j = choose|j: int| 0 <= j < a.len() && (#[trigger] a[j])@.name == n;
            lemma_flag_map_values(a@, j);
        }
    }
    true
}

/// A contract: the calling convention of one method.
#[derive(Debug)]
pub struct Contract {
    stdin: Stdin,
    args: Vec<Arg>,
    flags: Vec<Flag>,
    stdout: Stdout,
    error_codes: Vec<u32>,
    name: String,
}

/// A contract as a mathematical value.
#[verifier::ext_equal]
pub struct ContractModel {
    /// What the method expects of standard input.
    pub stdin: Stdin,
    /// The positional arguments, in the order of their declaration.
    pub args: Seq<Arg>,
    /// The flags, by name.
    pub flags: Map<Seq<char>, FlagModel>,
    /// What the method does with standard output.
    pub stdout: Stdout,
    /// The exit codes that the method may end with.
    pub error_codes: Seq<u32>,
    /// The name of the method.
    pub name: Seq<char>,
}

impl View for Contract {
    type V = ContractModel;

    closed spec fn view(&self) -> ContractModel {
        ContractModel {
            stdin: self.stdin,
            args: self.args@,
            flags: flag_map(self.flags@),
            stdout: self.stdout,
            error_codes: self.error_codes@,
            name: self.name@,
        }
    }
}

/// The required arguments among `args`, in order.
pub open spec fn required_among(args: Seq<Arg>) -> Seq<Arg> {
    args.filter(|a: Arg| a.required)
}

/// The number that a run of decimal digits writes.
pub open spec fn decimal(digits: Seq<char>) -> nat
    decreases digits.len(),
{
    if digits.len() == 0 {
        0
    } else {
        decimal(digits.drop_last()) * 10 + (digits.last() as nat - '0' as nat) as nat
    }
}

/// Whether every character of `text` is a decimal digit.
pub open spec fn all_digits(text: Seq<char>) -> bool {
    forall|i: int| 0 <= i < text.len() ==> is_digit(#[trigger] text[i])
}

/// The exit code that `text` writes: the value of its digits, where it is
/// made of digits, is not empty and the value fits in 32 bits.
pub open spec fn number_of(text: Seq<char>) -> Option<u32> {
    if text.len() > 0 && all_digits(text) && decimal(text) <= u32::MAX {
        Some(decimal(text) as u32)
    } else {
        None
    }
}

/// The value of a run of digits does not fall when the run grows.
pub proof fn lemma_decimal_grows(digits: Seq<char>, n: int)
    requires
        all_digits(digits),
        0 <= n <= digits.len(),
    ensures
        decimal(digits.take(n)) <= decimal(digits),
    decreases digits.len() - n,
{
    if n < digits.len() {
        lemma_decimal_grows(digits, n + 1);
        assert(digits.take(n + 1).drop_last() == digits.take(n));
        assert(is_digit(digits[n]));
    } else {
        assert(digits.take(n) == digits);
    }
}

/// Reads an exit code.
pub fn parse_number(text: &str) -> (r: Option<u32>)
    ensures
        r == number_of(text@),
{
    let v = chars_of(text);
    if v.len() == 0 {
        return None;
    }
    let mut value: u64 = 0;
    let mut i: usize = 0;
    while i < v.len()
        invariant
            i <= v.len(),
            v@ == text@,
            all_digits(v@.take(i as int)),
            value == decimal(v@.take(i as int)),
            value <= u32::MAX,
        decreases v.len() - i,
    {
        let c = v[i];
        if !('0' <= c && c <= '9') {
            return None;
        }
        let digit: u64 = (c as u32 - '0' as u32) as u64;
        let next: u64 = value * 10 + digit;
        proof {
            assert(v@.take(i + 1).drop_last() == v@.take(i as int));
            assert(all_digits(v@.take(i + 1))) by {
                assert forall|j: int| 0 <= j < i + 1 implies is_digit(
                    #[trigger] v@.take(i + 1)[j],
                ) by {
                    if j < i {
                        assert(is_digit(v@.take(i as int)[j]));
                    }
                }
            }
            assert(next == decimal(v@.take(i + 1)));
        }
        if next > 0xffff_ffff {
            proof {
                if all_digits(v@) {
                    lemma_decimal_grows(v@, i + 1);
                }
            }
            return None;
        }
        value = next;
        i += 1;
    }
    assert(v@.take(v.len() as int) == v@);
    Some(value as u32)
}

/// What has been read of a contract line so far.
#[verifier::ext_equal]
pub struct Draft {
    pub stdin: Stdin,
    pub args: Seq<Arg>,
    pub flags: Map<Seq<char>, FlagModel>,
    pub stdout: Stdout,
    pub error_codes: Seq<u32>,
    pub name: Option<Seq<char>>,
}

/// The draft of a line of which nothing has been read.
pub open spec fn empty_draft() -> Draft {
    Draft {
        stdin: Stdin::Unused,
        args: Seq::empty(),
        flags: Map::empty(),
        stdout: Stdout::Unused,
        error_codes: Seq::empty(),
        name: None,
    }
}

/// The draft after one more token. A statement on a stream or a name
/// replaces the earlier one; an argument or an exit code is added at the
/// end; a flag takes the place of the flag of its name; punctuation and the
/// opening marker change nothing.
pub open spec fn absorb(draft: Draft, kind: ContractTokens, text: Seq<char>) -> Result<
    Draft,
    ContractError,
> {
    match kind {
        ContractTokens::Stdin => Ok(Draft { stdin: stdin_of(text), ..draft }),
        ContractTokens::Stdout => Ok(Draft { stdout: stdout_of(text), ..draft }),
        ContractTokens::Arg => match arg_of(text) {
            Some(arg) => Ok(Draft { args: draft.args.push(arg), ..draft }),
            None => Err(ContractError::AmbiguousRequirement),
        },
        ContractTokens::Flag => match flag_of(text) {
            Some(flag) => Ok(Draft { flags: draft.flags.insert(flag.name, flag), ..draft }),
            None => Err(ContractError::AmbiguousRequirement),
        },
        ContractTokens::Number => match number_of(text) {
            Some(code) => Ok(Draft { error_codes: draft.error_codes.push(code), ..draft }),
            None => Err(ContractError::NumberTooLarge),
        },
        ContractTokens::Name => Ok(Draft { name: Some(text.drop_last()), ..draft }),
        _ => Ok(draft),
    }
}

/// The draft after the rest of the line, from position `from` on, or the
/// first error met on the way.
pub open spec fn parse_from(line: Seq<char>, from: int, draft: Draft) -> Result<
    Draft,
    ContractError,
>
    decreases line.len() - from,
{
    match step(line, from) {
        Step::End => Ok(draft),
        Step::Unrecognized { .. } => Err(ContractError::UnrecognizedText),
        Step::Token { kind, start, end } => {
            if from <= start < end <= line.len() {
                match absorb(draft, kind, line.subrange(start, end)) {
                    Ok(next) => parse_from(line, end, next),
                    Err(error) => Err(error),
                }
            } else {
                Err(ContractError::UnrecognizedText)
            }
        },
    }
}

/// The contract that a line declares, or why it declares none.
pub open spec fn parse_line(line: Seq<char>) -> Result<ContractModel, ContractError> {
    match parse_from(line, 0, empty_draft()) {
        Ok(draft) => match draft.name {
            Some(name) => Ok(
                ContractModel {
                    stdin: draft.stdin,
                    args: draft.args,
                    flags: draft.flags,
                    stdout: draft.stdout,
                    error_codes: draft.error_codes,
                    name,
                },
            ),
            None => Err(ContractError::MissingName),
        },
        Err(error) => Err(error),
    }
}

impl Contract {
    /// No two flags of a contract share a name.
    #[verifier::type_invariant]
    spec fn flags_are_distinct(self) -> bool {
        distinct_names(self.flags@)
    }

    /// A contract of the given parts. Of two flags of one name the later
    /// stands.
    pub fn new<I: Into<Stdin>, O: Into<Stdout>>(
        stdin: I,
        args: Vec<Arg>,
        flags: Vec<Flag>,
        stdout: O,
        error_codes: Vec<u32>,
        name: String,
    ) -> (contract: Contract)
        ensures
            I::obeys_into_spec() ==> contract@.stdin == stdin.into_spec(),
            O::obeys_into_spec() ==> contract@.stdout == stdout.into_spec(),
            contract@.args == args@,
            contract@.flags == flag_map(flags@),
            contract@.error_codes == error_codes@,
            contract@.name == name@,
    {
        let mut kept: Vec<Flag> = Vec::new();
        let mut i: usize = 0;
        while i < flags.len()
            invariant
                i <= flags.len(),
                distinct_names(kept@),
                flag_map(kept@) == flag_map(flags@.take(i as int)),
            decreases flags.len() - i,
        {
            put_flag(&mut kept, flags[i].clone());
            assert(flags@.take(i + 1).drop_last() == flags@.take(i as int));
            i += 1;
        }
        assert(flags@.take(flags.len() as int) == flags@);
        Contract {
            stdin: stdin.into(),
            args,
            flags: kept,
            stdout: stdout.into(),
            error_codes,
            name,
        }
    }

    /// Reads the contract that a line declares.
    ///
    /// The line is read token by token from left to right. The last
    /// statement on standard input, on standard output and the last name
    /// stand; arguments and exit codes are kept in order; of two flags of one
    /// name the later stands. A line without a name, with text that begins no
    /// token, or with an exit code beyond 32 bits is refused.
    pub fn parse(line: &str) -> (r: Result<Contract, ContractError>)
        ensures
            match parse_line(line@) {
                Ok(model) => r matches Ok(contract) && contract@ == model,
                Err(error) => r matches Err(e) && e == error,
            },
    {
        let mut lexer = ContractTokens::lexer(line);
        let mut stdin = Stdin::Unused;
        let mut stdout = Stdout::Unused;
        let mut args: Vec<Arg> = Vec::new();
        let mut flags: Vec<Flag> = Vec::new();
        let mut error_codes: Vec<u32> = Vec::new();
        let mut name: Option<String> = None;
        loop
            invariant_except_break
                parse_from(
                    line@,
                    lexer.end(),
                    Draft {
                        stdin,
                        args: args@,
                        flags: flag_map(flags@),
                        stdout,
                        error_codes: error_codes@,
                        name: text_of(name),
                    },
                ) == parse_from(line@, 0, empty_draft()),
            invariant
                lexer.source() == line@,
                0 <= lexer.end() <= line@.len(),
                distinct_names(flags@),
            ensures
                parse_from(line@, 0, empty_draft()) == Ok::<Draft, ContractError>(
                    Draft {
                        stdin,
                        args: args@,
                        flags: flag_map(flags@),
                        stdout,
                        error_codes: error_codes@,
                        name: text_of(name),
                    },
                ),
            decreases line@.len() - lexer.end(),
        {
            let ghost draft = Draft {
                stdin,
                args: args@,
                flags: flag_map(flags@),
                stdout,
                error_codes: error_codes@,
                name: text_of(name),
            };
            let ghost from = lexer.end();
            match lexer.next() {
                None => {
                    break ;
                },
                Some(Err(_)) => {
                    return Err(ContractError::UnrecognizedText);
                },
                Some(Ok(kind)) => {
                    let text = lexer.slice();
                    assert(from <= lexer.start() < lexer.end()) by {
                        lemma_token_at_bounds(line@, lexer.start());
                    }
                    assert(text@ == line@.subrange(lexer.start(), lexer.end()));
                    match kind {
                        ContractTokens::Stdin => {
                            stdin = Stdin::from(text.as_str());
                        },
                        ContractTokens::Stdout => {
                            stdout = Stdout::from(text.as_str());
                        },
                        ContractTokens::Arg => {
                            match Arg::parse(text.as_str()) {
                                Ok(arg) => {
                                    args.push(arg);
                                },
                                Err(error) => {
                                    return Err(error);
                                },
                            }
                        },
                        ContractTokens::Flag => {
                            match Flag::parse(text.as_str()) {
                                Ok(flag) => {
                                    put_flag(&mut flags, flag);
                                },
                                Err(error) => {
                                    return Err(error);
                                },
                            }
                        },
                        ContractTokens::Number => {
                            match parse_number(text.as_str()) {
                                Some(code) => {
                                    error_codes.push(code);
                                },
                                None => {
                                    return Err(ContractError::NumberTooLarge);
                                },
                            }
                        },
                        ContractTokens::Name => {
                            let v = chars_of(text.as_str());
                            let cut: usize = if v.len() > 0 {
                                v.len() - 1
                            } else {
                                0
                            };
                            assert(v@.subrange(0, cut as int) =~= text@.drop_last());
                            name = Some(string_of(&v, 0, cut));
                        },
                        _ => {},
                    }
                    assert(absorb(draft, kind, text@) == Ok::<Draft, ContractError>(
                        Draft {
                            stdin,
                            args: args@,
                            flags: flag_map(flags@),
                            stdout,
                            error_codes: error_codes@,
                            name: text_of(name),
                        },
                    ));
                },
            }
        }
        match name {
            Some(name) => Ok(Contract { stdin, args, flags, stdout, error_codes, name }),
            None => Err(ContractError::MissingName),
        }
    }

    /// The arguments that the caller must supply, in the order of their
    /// declaration.
    pub fn required_args(&self) -> (r: Vec<Arg>)
        ensures
            r@ == required_among(self@.args),
            r.len() <= self@.args.len(),
            forall|i: int|
                0 <= i < r.len() ==> (#[trigger] r@[i]).required && self@.args.contains(r@[i]),
    {
        let mut out: Vec<Arg> = Vec::new();
        let mut i: usize = 0;
        while i < self.args.len()
            invariant
                i <= self.args.len(),
                out@ == required_among(self.args@.take(i as int)),
            decreases self.args.len() - i,
        {
            let arg = self.args[i];
            proof {
                reveal(Seq::filter);
                assert(self.args@.take(i + 1).drop_last() == self.args@.take(i as int));
            }
            if arg.required {
                out.push(arg);
            }
            i += 1;
        }
        proof {
            reveal(Seq::filter);
            assert(self.args@.take(self.args.len() as int) == self.args@);
            lemma_required_args_within(self.args@);
        }
        out
    }

    /// The arguments, in the order of their declaration.
    pub fn args(&self) -> (r: Vec<Arg>)
        ensures
            r@ == self@.args,
    {
        let mut out: Vec<Arg> = Vec::new();
        let mut i: usize = 0;
        while i < self.args.len()
            invariant
                i <= self.args.len(),
                out@ == self.args@.take(i as int),
            decreases self.args.len() - i,
        {
            out.push(self.args[i]);
            assert(self.args@.take(i + 1) == self.args@.take(i as int).push(self.args@[i as int]));
            i += 1;
        }
        assert(self.args@.take(self.args.len() as int) == self.args@);
        out
    }

    /// The flags, each name once.
    pub fn flags(&self) -> (r: Vec<Flag>)
        ensures
            distinct_names(r@),
            flag_map(r@) == self@.flags,
    {
        proof {
            use_type_invariant(self);
        }
        let mut out: Vec<Flag> = Vec::new();
        let mut i: usize = 0;
        while i < self.flags.len()
            invariant
                i <= self.flags.len(),
                out@.len() == i,
                forall|j: int| 0 <= j < i ==> (#[trigger] out@[j])@ == self.flags@[j]@,
            decreases self.flags.len() - i,
        {
            out.push(self.flags[i].clone());
            i += 1;
        }
        proof {
            lemma_flag_map_same(out@, self.flags@);
        }
        out
    }

    /// The exit codes that the method may end with.
    pub fn error_codes(&self) -> (r: Vec<u32>)
        ensures
            r@ == self@.error_codes,
    {
        let mut out: Vec<u32> = Vec::new();
        let mut i: usize = 0;
        while i < self.error_codes.len()
            invariant
                i <= self.error_codes.len(),
                out@ == self.error_codes@.take(i as int),
            decreases self.error_codes.len() - i,
        {
            out.push(self.error_codes[i]);
            assert(self.error_codes@.take(i + 1) == self.error_codes@.take(i as int).push(
                self.error_codes@[i as int],
            ));
            i += 1;
        }
        assert(self.error_codes@.take(self.error_codes.len() as int) == self.error_codes@);
        out
    }

    /// The name of the method.
    pub fn name(&self) -> (r: &String)
        ensures
            r@ == self@.name,
    {
        &self.name
    }

    /// What the method expects of standard input.
    pub fn stdin(&self) -> (r: &Stdin)
        ensures
            *r == self@.stdin,
    {
        &self.stdin
    }

    /// What the method does with standard output.
    pub fn stdout(&self) -> (r: &Stdout)
        ensures
            *r == self@.stdout,
    {
        &self.stdout
    }
}

/// Whether two vectors hold the same arguments in the same order.
fn same_args(a: &Vec<Arg>, b: &Vec<Arg>) -> (r: bool)
    ensures
        r == (a@ == b@),
{
    if a.len() != b.len() {
        return false;
    }
    let mut i: usize = 0;
    while i < a.len()
        invariant
            i <= a.len(),
            a.len() == b.len(),
            a@.take(i as int) == b@.take(i as int),
        decreases a.len() - i,
    {
        if a[i].required != b[i].required {
            return false;
        }
        assert(a@.take(i + 1) == a@.take(i as int).push(a@[i as int]));
        assert(b@.take(i + 1) == b@.take(i as int).push(b@[i as int]));
        i += 1;
    }
    assert(a@.take(a.len() as int) == a@);
    assert(b@.take(b.len() as int) == b@);
    true
}

/// Whether two vectors hold the same exit codes in the same order.
fn same_codes(a: &Vec<u32>, b: &Vec<u32>) -> (r: bool)
    ensures
        r == (a@ == b@),
{
    if a.len() != b.len() {
        return false;
    }
    let mut i: usize = 0;
    while i < a.len()
        invariant
            i <= a.len(),
            a.len() == b.len(),
            a@.take(i as int) == b@.take(i as int),
        decreases a.len() - i,
    {
        if a[i] != b[i] {
            return false;
        }
        assert(a@.take(i + 1) == a@.take(i as int).push(a@[i as int]));
        assert(b@.take(i + 1) == b@.take(i as int).push(b@[i as int]));
        i += 1;
    }
    assert(a@.take(a.len() as int) == a@);
    assert(b@.take(b.len() as int) == b@);
    true
}

impl PartialEq for Contract {
    fn eq(&self, other: &Contract) -> (r: bool) {
        proof {
            use_type_invariant(self);
            use_type_invariant(other);
        }
        let r = self.stdin == other.stdin && self.stdout == other.stdout && self.name == other.name
            && same_args(&self.args, &other.args) && same_codes(
            &self.error_codes,
            &other.error_codes,
        ) && within(&self.flags, &other.flags) && within(&other.flags, &self.flags);
        proof {
            if r {
                assert(flag_map(self.flags@) =~= flag_map(other.flags@));
            }
        }
        r
    }
}

impl PartialEqSpecImpl for Contract {
    open spec fn obeys_eq_spec() -> bool {
        true
    }

    open spec fn eq_spec(&self, other: &Contract) -> bool {
        self@ == other@
    }
}

impl FromStr for Contract {
    type Err = ContractError;

    fn from_str(line: &str) -> (r: Result<Contract, ContractError>)
        ensures
            match parse_line(line@) {
                Ok(model) => r matches Ok(contract) && contract@ == model,
                Err(error) => r matches Err(e) && e == error,
            },
    {
        Contract::parse(line)
    }
}

/// The required arguments of a contract are arguments of the contract:
/// each of them is required and stands among the arguments, and they are no
/// more than the arguments.
pub proof fn lemma_required_args_within(args: Seq<Arg>)
    ensures
        required_among(args).len() <= args.len(),
        forall|i: int|
            0 <= i < required_among(args).len() ==> (#[trigger] required_among(args)[i]).required
                && args.contains(required_among(args)[i]),
{
    let required = |a: Arg| a.required;
    args.lemma_filter_len(required);
    assert forall|i: int| 0 <= i < required_among(args).len() implies (#[trigger] required_among(
        args,
    )[i]).required && args.contains(required_among(args)[i]) by {
        args.lemma_filter_pred(required, i);
        assert(args.filter(required).contains(args.filter(required)[i]));
        args.lemma_filter_contains_rev(required, args.filter(required)[i]);
    }
}

/// Whether the rest of a line, from position `from` on, can be read: it is
/// cut into tokens to its end, each of its exit codes fits in 32 bits, and
/// it names the method unless a name was read before (`named`).
pub open spec fn well_formed_from(line: Seq<char>, from: int, named: bool) -> bool
    decreases line.len() - from,
{
    match step(line, from) {
        Step::End => named,
        Step::Unrecognized { .. } => false,
        Step::Token { kind, start, end } => {
            &&& from <= start < end <= line.len()
            &&& kind == ContractTokens::Number ==> number_of(line.subrange(start, end)) is Some
            &&& well_formed_from(line, end, named || kind == ContractTokens::Name)
        },
    }
}

/// Whether a line is well formed: tokens to its end, exit codes within 32
/// bits, and a name.
pub open spec fn well_formed(line: Seq<char>) -> bool {
    well_formed_from(line, 0, false)
}

/// The rest of a line is read to a draft with a name exactly when it is
/// well formed.
pub proof fn lemma_parse_from_total(line: Seq<char>, from: int, draft: Draft)
    requires
        0 <= from <= line.len(),
    ensures
        (parse_from(line, from, draft) matches Ok(end) && end.name is Some) <==> well_formed_from(
            line,
            from,
            draft.name is Some,
        ),
    decreases line.len() - from,
{
    match step(line, from) {
        Step::Token { kind, start, end } => {
            lemma_run_end(line, CharClass::Blank, from);
            lemma_token_at_bounds(line, start);
            lemma_token_text(line, start);
            let text = line.subrange(start, end);
            match absorb(draft, kind, text) {
                Ok(next) => {
                    lemma_parse_from_total(line, end, next);
                },
                Err(_) => {},
            }
        },
        _ => {},
    }
}

/// A line declares a contract exactly when it is well formed: reading is
/// total over the well-formed lines, and refuses every other line.
pub proof fn lemma_parse_total(line: Seq<char>)
    ensures
        parse_line(line) is Ok <==> well_formed(line),
{
    lemma_parse_from_total(line, 0, empty_draft());
}

/// Reading is a function of the line: two contracts read from one line are
/// equal.
pub proof fn lemma_parse_deterministic(line: Seq<char>, first: Contract, second: Contract)
    requires
        parse_line(line) == Ok::<ContractModel, ContractError>(first@),
        parse_line(line) == Ok::<ContractModel, ContractError>(second@),
    ensures
        PartialEqSpec::eq_spec(&first, &second),
{
}

} // verus!
