//! Listing the methods of a namespace: what is done with each entry of a
//! directory on the walk through the tree.

use crate::contract::{parse_line, Contract};
use crate::manifest::{lines, split_lines};
use crate::method::{is_interface, is_interface_name};
use crate::text::{chars_of, find_from, lemma_index_of_contains, lemma_texts_push, text_of, texts};
use vstd::prelude::*;

verus! {

/// What stands at a path, behind the link if the path is one.
#[derive(Debug, PartialEq, Eq, Clone, Copy, Structural)]
pub enum Node {
    /// A directory.
    Directory,
    /// A regular file.
    File,
    /// Anything else.
    Other,
}

/// An entry of a directory.
#[derive(Debug, PartialEq, Eq)]
pub struct Entry {
    /// The name of the entry.
    pub name: String,
    /// The path of the entry itself.
    pub path: String,
    /// Whether the entry is a symbolic link.
    pub link: bool,
    /// What the entry is, or what its link leads to.
    pub node: Node,
}

/// An entry as a mathematical value: the fields of `Entry`, with texts in
/// the place of strings.
pub struct EntryModel {
    pub name: Seq<char>,
    pub path: Seq<char>,
    pub link: bool,
    pub node: Node,
}

impl View for Entry {
    type V = EntryModel;

    open spec fn view(&self) -> EntryModel {
        EntryModel { name: self.name@, path: self.path@, link: self.link, node: self.node }
    }
}

/// What the walk does with an entry.
#[derive(Debug, PartialEq, Eq)]
pub enum Visit {
    /// Nothing.
    Skip,
    /// It walks the directory, as the object of the given name.
    Descend(String),
    /// It walks the directory that the link leads to, as the object of the
    /// given name, and leaves the link when it is done.
    Follow(String),
    /// It lists the methods that the manifest of the interface of the given
    /// name declares.
    Interface(String),
    /// It prints the given name of a method.
    Print(String),
}

/// A visit as a mathematical value: the variants of `Visit`, with texts in
/// the place of strings.
pub enum VisitModel {
    Skip,
    Descend(Seq<char>),
    Follow(Seq<char>),
    Interface(Seq<char>),
    Print(Seq<char>),
}

impl View for Visit {
    type V = VisitModel;

    open spec fn view(&self) -> VisitModel {
        match self {
            Visit::Skip => VisitModel::Skip,
            Visit::Descend(object) => VisitModel::Descend(object@),
            Visit::Follow(object) => VisitModel::Follow(object@),
            Visit::Interface(object) => VisitModel::Interface(object@),
            Visit::Print(method) => VisitModel::Print(method@),
        }
    }
}

/// The name of an entry within the object `parent`: the two parted by a
/// dot; the bare name at the top of the namespace.
pub open spec fn qualified_name(parent: Option<Seq<char>>, name: Seq<char>) -> Seq<char> {
    match parent {
        Some(object) => object + seq!['.'] + name,
        None => name,
    }
}

/// What the walk does with an entry of the object `parent`, while the links
/// in `open` are being walked.
///
/// An entry with a dot in its name is passed over. A link to a directory is
/// followed unless it is being walked already. A directory is walked; at the
/// top of the namespace one with the name of an interface is listed from its
/// manifest instead. A link to something that is neither walked nor a file
/// is passed over. Anything else is a method of its object, and is printed
/// where it has one.
pub open spec fn visit_of(
    entry: EntryModel,
    parent: Option<Seq<char>>,
    open: Set<Seq<char>>,
) -> VisitModel {
    let object = qualified_name(parent, entry.name);
    if entry.name.contains('.') {
        VisitModel::Skip
    } else if entry.link && entry.node == Node::Directory && !open.contains(entry.path) {
        VisitModel::Follow(object)
    } else if !entry.link && entry.node == Node::Directory {
        if is_interface_name(object) {
            VisitModel::Interface(object)
        } else {
            VisitModel::Descend(object)
        }
    } else if entry.link && entry.node != Node::File {
        VisitModel::Skip
    } else if parent is Some {
        VisitModel::Print(object)
    } else {
        VisitModel::Skip
    }
}

/// The name of an entry within the object `parent`.
pub fn qualify(parent: &Option<String>, name: &String) -> (r: String)
    ensures
        r@ == qualified_name(text_of(*parent), name@),
{
    match parent {
        Some(object) => {
            let mut out = object.clone();
            out.push('.');
            out.append(name.as_str());
            assert(out@ =~= object@ + seq!['.'] + name@);
            out
        },
        None => name.clone(),
    }
}

/// The links that are being walked.
#[derive(Debug)]
pub struct Links {
    open: Vec<String>,
}

impl View for Links {
    type V = Set<Seq<char>>;

    closed spec fn view(&self) -> Set<Seq<char>> {
        texts(self.open@).to_set()
    }
}

impl Links {
    /// No link is kept twice.
    #[verifier::type_invariant]
    spec fn no_link_twice(self) -> bool {
        texts(self.open@).no_duplicates()
    }

    /// No link.
    pub fn new() -> (r: Links)
        ensures
            r@ == Set::<Seq<char>>::empty(),
    {
        let r = Links { open: Vec::new() };
        assert(texts(r.open@) =~= Seq::empty());
        assert(r@ =~= Set::<Seq<char>>::empty());
        r
    }

    /// The first `count` of the links.
    fn copy(&self, count: usize) -> (r: Vec<String>)
        requires
            count <= self.open.len(),
        ensures
            texts(r@) == texts(self.open@).take(count as int),
    {
        let mut out: Vec<String> = Vec::new();
        let mut i: usize = 0;
        while i < count
            invariant
                i <= count <= self.open.len(),
                texts(out@) =~= texts(self.open@).take(i as int),
            decreases count - i,
        {
            proof {
                lemma_texts_push(out@, self.open[i as int]);
            }
            out.push(self.open[i].clone());
            i += 1;
        }
        out
    }

    /// The place of `path` among the links, if it is one of them.
    fn position(&self, path: &String) -> (r: Option<usize>)
        ensures
            match r {
                Some(i) => i < self.open.len() && self.open[i as int]@ == path@,
                None => !self@.contains(path@),
            },
    {
        let mut i: usize = 0;
        while i < self.open.len()
            invariant
                i <= self.open.len(),
                forall|j: int| 0 <= j < i ==> (#[trigger] self.open[j])@ != path@,
            decreases self.open.len() - i,
        {
            if self.open[i] == *path {
                return Some(i);
            }
            i += 1;
        }
        assert forall|j: int| 0 <= j < texts(self.open@).len() implies texts(self.open@)[j]
            != path@ by {
            assert(self.open[j]@ != path@);
        }
        None
    }

    /// Decides what the walk does with an entry of the object `parent`. A
    /// link that is to be followed is kept as being walked.
    pub fn visit(&mut self, entry: &Entry, parent: &Option<String>) -> (r: Visit)
        ensures
            r@ == visit_of(entry@, text_of(*parent), old(self)@),
            final(self)@ == if r is Follow {
                old(self)@.insert(entry@.path)
            } else {
                old(self)@
            },
    {
        proof {
            use_type_invariant(&*self);
        }
        let name = chars_of(entry.name.as_str());
        proof {
            lemma_index_of_contains(name@, '.');
        }
        if find_from(&name, '.', 0) < name.len() {
            return Visit::Skip;
        }
        let object = qualify(parent, &entry.name);
        let is_directory = match entry.node {
            Node::Directory => true,
            _ => false,
        };
        let is_file = match entry.node {
            Node::File => true,
            _ => false,
        };
        if entry.link && is_directory {
            match self.position(&entry.path) {
                None => {
                    let ghost before = texts(self.open@);
                    let mut open = self.copy(self.open.len());
                    proof {
                        lemma_texts_push(open@, entry.path);
                    }
                    open.push(entry.path.clone());
                    assert(texts(open@) =~= before.push(entry.path@));
                    proof {
                        before.lemma_push_to_set_commute(entry.path@);
                        assert forall|a: int, b: int|
                            0 <= a < texts(open@).len() && 0 <= b < texts(open@).len() && a
                                != b implies texts(open@)[a] != texts(open@)[b] by {
                            if a < before.len() && b < before.len() {
                                assert(before[a] != before[b]);
                            } else if a < before.len() {
                                assert(before.contains(before[a]));
                            } else {
                                assert(before.contains(before[b]));
                            }
                        }
                    }
                    *self = Links { open };
                    return Visit::Follow(object);
                },
                Some(_) => {
                    assert(texts(self.open@).contains(entry.path@)) by {
                        let i = choose|i: int|
                            0 <= i < self.open.len() && self.open[i]@ == entry.path@;
                        assert(texts(self.open@)[i] == entry.path@);
                    }
                },
            }
        }
        if !entry.link && is_directory {
            if is_interface(&object) {
                Visit::Interface(object)
            } else {
                Visit::Descend(object)
            }
        } else if entry.link && !is_file {
            Visit::Skip
        } else if parent.is_some() {
            Visit::Print(object)
        } else {
            Visit::Skip
        }
    }

    /// Takes `path` from the links that are being walked.
    pub fn leave(&mut self, path: &String)
        ensures
            final(self)@ == old(self)@.remove(path@),
    {
        proof {
            use_type_invariant(&*self);
        }
        match self.position(path) {
            Some(i) => {
                let ghost before = texts(self.open@);
                let mut open = self.copy(i);
                let mut k: usize = i + 1;
                while k < self.open.len()
                    invariant
                        i < k <= self.open.len(),
                        before == texts(self.open@),
                        texts(open@) =~= before.take(i as int) + before.subrange(i + 1, k as int),
                    decreases self.open.len() - k,
                {
                    proof {
                        lemma_texts_push(open@, self.open[k as int]);
                    }
                    open.push(self.open[k].clone());
                    k += 1;
                }
                proof {
                    let after = texts(open@);
                    assert(after =~= before.remove(i as int));
                    assert(after.no_duplicates());
                    assert(before[i as int] == path@);
                    assert forall|p: Seq<char>|
                        after.to_set().contains(p) implies before.to_set().remove(path@).contains(
                        p,
                    ) by {
                        let k = choose|k: int| 0 <= k < after.len() && after[k] == p;
                        if k < i {
                            assert(before[k] == p);
                        } else {
                            assert(before[k + 1] == p);
                        }
                    }
                    assert forall|p: Seq<char>|
                        before.to_set().remove(path@).contains(p) implies after.to_set().contains(
                        p,
                    ) by {
                        let k = choose|k: int| 0 <= k < before.len() && before[k] == p;
                        if k < i {
                            assert(after[k] == p);
                        } else {
                            assert(after[k - 1] == p);
                        }
                    }
                    assert(after.to_set() =~= before.to_set().remove(path@));
                }
                *self = Links { open };
            },
            None => {
                assert(self@ =~= self@.remove(path@));
            },
        }
    }
}

/// What the listing of an interface finds.
pub struct Listed {
    /// The names of the methods, in the order of their lines.
    pub names: Seq<Seq<char>>,
    /// The first line that declares no contract, if there is one.
    pub bad: Option<Seq<char>>,
}

/// The names of the methods that the lines from the `i`-th on declare for
/// the interface, added to `found`, up to the first line that declares no
/// contract.
pub open spec fn listed_from(
    interface: Seq<char>,
    lines: Seq<Seq<char>>,
    i: int,
    found: Seq<Seq<char>>,
) -> Listed
    decreases lines.len() - i,
{
    if i < 0 || i >= lines.len() {
        Listed { names: found, bad: None }
    } else {
        match parse_line(lines[i]) {
            Ok(contract) => listed_from(
                interface,
                lines,
                i + 1,
                found.push(qualified_name(Some(interface), contract.name)),
            ),
            Err(_) => Listed { names: found, bad: Some(lines[i]) },
        }
    }
}

/// The methods that an interface offers: for each line of its manifest that
/// is not empty the name that the line declares, under the name of the
/// interface. The listing ends at the first line that declares no contract,
/// and that line is handed back with it.
pub fn interface_methods(interface: &String, manifest: &str) -> (r: (Vec<String>, Option<String>))
    ensures
        texts(r.0@) == listed_from(interface@, lines(manifest@), 0, Seq::empty()).names,
        text_of(r.1) == listed_from(
            interface@,
            lines(manifest@),
            0,
            Seq::empty(),
        ).bad,
{
    let rows = split_lines(manifest);
    let parent = Some(interface.clone());
    let mut names: Vec<String> = Vec::new();
    let mut i: usize = 0;
    assert(texts(names@) =~= Seq::empty());
    while i < rows.len()
        invariant
            i <= rows.len(),
            texts(rows@) == lines(manifest@),
            parent == Some(*interface),
            listed_from(interface@, texts(rows@), i as int, texts(names@)) == listed_from(
                interface@,
                lines(manifest@),
                0,
                Seq::empty(),
            ),
        decreases rows.len() - i,
    {
        assert(texts(rows@)[i as int] == rows[i as int]@);
        match Contract::parse(rows[i].as_str()) {
            Ok(contract) => {
                let name = qualify(&parent, contract.name());
                proof {
                    lemma_texts_push(names@, name);
                }
                names.push(name);
            },
            Err(_) => {
                return (names, Some(rows[i].clone()));
            },
        }
        i += 1;
    }
    (names, None)
}

} // verus!
