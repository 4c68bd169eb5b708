//! Manifests: the contracts that an object declares, one to a line.

use crate::contract::{parse_line, Contract, ContractError, ContractModel};
use crate::text::{chars_of, find_from, index_from, lemma_texts_push, string_of, texts};
use vstd::prelude::*;

verus! {

/// The contracts of a sequence, by name. Where two contracts share a name,
/// the later one stands.
pub open spec fn contract_map(contracts: Seq<Contract>) -> Map<Seq<char>, ContractModel>
    decreases contracts.len(),
{
    if contracts.len() == 0 {
        Map::empty()
    } else {
        contract_map(contracts.drop_last()).insert(contracts.last()@.name, contracts.last()@)
    }
}

/// A name that none of the contracts bears is no key of their map.
pub proof fn lemma_contract_map_absent(contracts: Seq<Contract>, name: Seq<char>)
    requires
        forall|j: int| 0 <= j < contracts.len() ==> (#[trigger] contracts[j])@.name != name,
    ensures
        !contract_map(contracts).contains_key(name),
    decreases contracts.len(),
{
    if contracts.len() > 0 {
        let front = contracts.drop_last();
        assert forall|j: int| 0 <= j < front.len() implies (#[trigger] front[j])@.name != name by {
            assert(contracts[j]@.name != name);
        }
        lemma_contract_map_absent(front, name);
        assert(contracts[contracts.len() - 1]@.name != name);
    }
}

/// Under a name stands the last contract that bears it.
pub proof fn lemma_contract_map_last(contracts: Seq<Contract>, k: int)
    requires
        0 <= k < contracts.len(),
        forall|j: int|
            k < j < contracts.len() ==> (#[trigger] contracts[j])@.name != contracts[k]@.name,
    ensures
        contract_map(contracts).contains_key(contracts[k]@.name),
        contract_map(contracts)[contracts[k]@.name] == contracts[k]@,
    decreases contracts.len(),
{
    if k < contracts.len() - 1 {
        let front = contracts.drop_last();
        assert forall|j: int| k < j < front.len() implies (#[trigger] front[j])@.name
            != front[k]@.name by {
            assert(contracts[j]@.name != contracts[k]@.name);
        }
        lemma_contract_map_last(front, k);
        assert(contracts[contracts.len() - 1]@.name != contracts[k]@.name);
    }
}

/// Every key of the map is the name of one of the contracts.
pub proof fn lemma_contract_map_keys(contracts: Seq<Contract>, name: Seq<char>)
    requires
        contract_map(contracts).contains_key(name),
    ensures
        exists|j: int| 0 <= j < contracts.len() && (#[trigger] contracts[j])@.name == name,
{
    if forall|j: int| 0 <= j < contracts.len() ==> (#[trigger] contracts[j])@.name != name {
        lemma_contract_map_absent(contracts, name);
    }
}

/// The name of each contract is a key of the map.
pub proof fn lemma_contract_map_holds(contracts: Seq<Contract>, i: int)
    requires
        0 <= i < contracts.len(),
    ensures
        contract_map(contracts).contains_key(contracts[i]@.name),
    decreases contracts.len(),
{
    if i < contracts.len() - 1 {
        lemma_contract_map_holds(contracts.drop_last(), i);
    }
}

/// Where the line that starts at `from` ends: at the next line feed, or at
/// the end of the text.
pub open spec fn line_end(text: Seq<char>, from: int) -> int {
    index_from(text, '\n', from)
}

/// The line that starts at `from`, without its line feed and without the
/// carriage return that may stand before the line feed.
pub open spec fn line_at(text: Seq<char>, from: int) -> Seq<char> {
    let end = line_end(text, from);
    if from < end < text.len() && text[end - 1] == '\r' {
        text.subrange(from, end - 1)
    } else {
        text.subrange(from, end)
    }
}

/// Where the line after the one at `from` starts.
pub open spec fn next_line(text: Seq<char>, from: int) -> int {
    let end = line_end(text, from);
    if end < text.len() {
        end + 1
    } else {
        end
    }
}

/// The lines of `text` from position `from` on that are not empty.
pub open spec fn lines_from(text: Seq<char>, from: int) -> Seq<Seq<char>>
    decreases text.len() - from,
{
    if from < 0 || from >= text.len() {
        Seq::empty()
    } else {
        let line = line_at(text, from);
        let next = next_line(text, from);
        if !(from < next <= text.len()) {
            Seq::empty()
        } else if line.len() == 0 {
            lines_from(text, next)
        } else {
            seq![line] + lines_from(text, next)
        }
    }
}

/// The lines of `text` that are not empty, in order. A line ends at a line
/// feed, or at a carriage return followed by a line feed, or where the text
/// ends.
pub open spec fn lines(text: Seq<char>) -> Seq<Seq<char>> {
    lines_from(text, 0)
}

/// The lines of `text` that are not empty, in order.
pub fn split_lines(text: &str) -> (r: Vec<String>)
    ensures
        texts(r@) == lines(text@),
{
    let v = chars_of(text);
    let mut found: Vec<String> = Vec::new();
    let mut from: usize = 0;
    assert(texts(found@) =~= Seq::empty());
    while from < v.len()
        invariant
            from <= v.len(),
            v@ == text@,
            texts(found@) + lines_from(text@, from as int) == lines(text@),
        decreases v.len() - from,
    {
        let end = find_from(&v, '\n', from);
        let stop: usize = if from < end && end < v.len() && v[end - 1] == '\r' {
            end - 1
        } else {
            end
        };
        let next: usize = if end < v.len() {
            end + 1
        } else {
            end
        };
        if stop > from {
            let line = string_of(&v, from, stop);
            proof {
                lemma_texts_push(found@, line);
                assert((texts(found@) + seq![line@]) + lines_from(text@, next as int) =~= texts(
                    found@,
                ) + (seq![line@] + lines_from(text@, next as int)));
                assert(texts(found@).push(line@) =~= texts(found@) + seq![line@]);
            }
            found.push(line);
        }
        from = next;
    }
    assert(texts(found@) + Seq::<Seq<char>>::empty() =~= texts(found@));
    found
}

/// A manifest line that declares no contract.
pub struct BadLine {
    /// The line.
    pub line: Seq<char>,
    /// What is wrong with it.
    pub error: ContractError,
}

/// The contracts that the lines from the `i`-th on declare, added to
/// `found`. The first line that declares no contract ends the reading.
pub open spec fn read_from(
    lines: Seq<Seq<char>>,
    i: int,
    found: Map<Seq<char>, ContractModel>,
) -> Result<Map<Seq<char>, ContractModel>, BadLine>
    decreases lines.len() - i,
{
    if i < 0 || i >= lines.len() {
        Ok(found)
    } else {
        match parse_line(lines[i]) {
            Ok(contract) => read_from(lines, i + 1, found.insert(contract.name, contract)),
            Err(error) => Err(BadLine { line: lines[i], error }),
        }
    }
}

/// The contracts that a manifest text declares, by name: one contract to a
/// line, empty lines passed over, the later of two contracts of one name.
pub open spec fn read_manifest(text: Seq<char>) -> Result<Map<Seq<char>, ContractModel>, BadLine> {
    read_from(lines(text), 0, Map::empty())
}

/// Every contract of `interface` stands in `target` under its name,
/// unchanged in every part.
pub open spec fn conforms(
    interface: Map<Seq<char>, ContractModel>,
    target: Map<Seq<char>, ContractModel>,
) -> bool {
    forall|name: Seq<char>| #[trigger]
        interface.contains_key(name) ==> target.contains_key(name) && target[name]
            == interface[name]
}

/// The contracts that an object declares, by the name of the method.
#[derive(Debug)]
pub struct Manifest {
    contracts: Vec<Contract>,
}

impl View for Manifest {
    type V = Map<Seq<char>, ContractModel>;

    closed spec fn view(&self) -> Map<Seq<char>, ContractModel> {
        contract_map(self.contracts@)
    }
}

impl Manifest {
    /// Reads a manifest: one contract to a line, empty lines passed over.
    /// Of two contracts of one name the later stands. A line that declares
    /// no contract is handed back with what is wrong with it.
    pub fn parse(text: &str) -> (r: Result<Manifest, (String, ContractError)>)
        ensures
            match read_manifest(text@) {
                Ok(contracts) => r matches Ok(manifest) && manifest@ == contracts,
                Err(bad) => r matches Err((line, error)) && line@ == bad.line && error == bad.error,
            },
    {
        let rows = split_lines(text);
        let mut contracts: Vec<Contract> = Vec::new();
        let mut i: usize = 0;
        while i < rows.len()
            invariant
                i <= rows.len(),
                texts(rows@) == lines(text@),
                read_from(texts(rows@), i as int, contract_map(contracts@)) == read_manifest(text@),
            decreases rows.len() - i,
        {
            let ghost before = contracts@;
            assert(texts(rows@)[i as int] == rows[i as int]@);
            match Contract::parse(rows[i].as_str()) {
                Ok(contract) => {
                    contracts.push(contract);
                    assert(contracts@.drop_last() == before);
                },
                Err(error) => {
                    return Err((rows[i].clone(), error));
                },
            }
            i += 1;
        }
        Ok(Manifest { contracts })
    }

    /// The contract of the method called `name`, if the manifest has one.
    pub fn get(&self, name: &String) -> (r: Option<&Contract>)
        ensures
            match r {
                Some(contract) => self@.contains_key(name@) && self@[name@] == contract@,
                None => !self@.contains_key(name@),
            },
    {
        let mut i: usize = self.contracts.len();
        while i > 0
            invariant
                i <= self.contracts.len(),
                forall|j: int|
                    i <= j < self.contracts.len() ==> (#[trigger] self.contracts[j])@.name
                        != name@,
            decreases i,
        {
            i -= 1;
            if same_name(&self.contracts[i], name) {
                proof {
                    lemma_contract_map_last(self.contracts@, i as int);
                }
                return Some(&self.contracts[i]);
            }
        }
        proof {
            lemma_contract_map_absent(self.contracts@, name@);
        }
        None
    }

    /// Whether the manifest has a contract for the method called `name`.
    pub fn contains_key(&self, name: &String) -> (r: bool)
        ensures
            r == self@.contains_key(name@),
    {
        self.get(name).is_some()
    }

    /// Whether every contract of this manifest stands in `target` under its
    /// name, unchanged in every part.
    pub fn conforms_to(&self, target: &Manifest) -> (r: bool)
        ensures
            r == conforms(self@, target@),
    {
        let mut i: usize = 0;
        while i < self.contracts.len()
            invariant
                i <= self.contracts.len(),
                forall|j: int|
                    0 <= j < i ==> target@.contains_key((#[trigger] self.contracts[j])@.name)
                        && target@[self.contracts[j]@.name] == self@[self.contracts[j]@.name],
            decreases self.contracts.len() - i,
        {
            let name = self.contracts[i].name();
            match (self.get(name), target.get(name)) {
                (Some(own), Some(other)) => {
                    if !own.eq(other) {
                        return false;
                    }
                },
                (Some(_), None) => {
                    return false;
                },
                _ => {},
            }
            proof {
                if !self@.contains_key(name@) {
                    lemma_contract_map_holds(self.contracts@, i as int);
                }
            }
            i += 1;
        }
        proof {
            assert forall|name: Seq<char>| #[trigger]
                self@.contains_key(name) implies target@.contains_key(name) && target@[name]
                == self@[name] by {
                lemma_contract_map_keys(self.contracts@, name);
                let j = choose|j: int|
                    0 <= j < self.contracts.len() && (#[trigger] self.contracts[j])@.name == name;
                assert(target@.contains_key(self.contracts[j]@.name));
            }
        }
        true
    }
}

/// Whether the contract bears the name.
fn same_name(contract: &Contract, name: &String) -> (r: bool)
    ensures
        r == (contract@.name == name@),
{
    *contract.name() == *name
}

} // verus!
