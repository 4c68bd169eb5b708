//! Methods: the resolution of a dotted name to a place in the namespace.

use crate::contract::ContractModel;
use crate::manifest::Manifest;
use crate::text::{
    chars_of, lemma_split_without_separator, lemma_texts_push, split, split_at, string_of, texts,
    trim, trimmed,
};
use vstd::prelude::*;

verus! {

/// The pattern that the name of a method must match: two or more segments
/// of word characters and hyphens, parted by dots.
pub const NAME_PATTERN: &'static str = "^[\\w-]+(\\.[\\w-]+)+$";

/// What `Method::new` answers to a name that does not match the pattern.
pub const NAME_MISMATCH: &'static str = "The method call does not match the pattern";

/// The error type of the `regex` crate.
#[verifier::external_type_specification]
#[verifier::external_body]
pub struct ExRegexError(regex::Error);

/// Names whether `regex::Regex::new` accepts a pattern.
pub uninterp spec fn pattern_compiles(pattern: Seq<char>) -> bool;

/// Names the answer of `regex::Regex::is_match` for the regular expression
/// compiled from a pattern and a text: whether the expression matches
/// somewhere in the text.
pub uninterp spec fn pattern_matches(pattern: Seq<char>, text: Seq<char>) -> bool;

/// Compiles `pattern` with `regex::Regex::new` and searches `text` with
/// `regex::Regex::is_match`. The error is that of the compilation; both
/// outcomes depend on the two texts alone.
#[verifier::external_body]
fn is_match(pattern: &str, text: &str) -> (r: Result<bool, regex::Error>)
    ensures
        r is Ok <==> pattern_compiles(pattern@),
        r matches Ok(found) ==> found == pattern_matches(pattern@, text@),
{
    match regex::Regex::new(pattern) {
        Ok(expression) => Ok(expression.is_match(text)),
        Err(error) => Err(error),
    }
}

/// Whether a text matches the pattern for method names.
pub open spec fn matches_name_pattern(text: Seq<char>) -> bool {
    pattern_compiles(NAME_PATTERN@) && pattern_matches(NAME_PATTERN@, text)
}

/// A place in the file system: a root and the segments that lead on from it.
#[derive(Debug, PartialEq, Eq)]
pub struct Location {
    /// The path that the segments start from.
    pub root: String,
    /// The names of the entries that lead on from the root, one by one.
    pub segments: Vec<String>,
}

/// A place in the file system as a mathematical value: the fields of
/// `Location`, with texts in the place of strings.
pub struct LocationModel {
    pub root: Seq<char>,
    pub segments: Seq<Seq<char>>,
}

impl LocationModel {
    /// The place that `more` leads to from this one.
    pub open spec fn join(self, more: Seq<Seq<char>>) -> LocationModel {
        LocationModel { root: self.root, segments: self.segments + more }
    }
}

impl View for Location {
    type V = LocationModel;

    open spec fn view(&self) -> LocationModel {
        LocationModel { root: self.root@, segments: texts(self.segments@) }
    }
}

impl Location {
    /// The place `root` itself.
    pub fn new(root: String) -> (r: Location)
        ensures
            r@ == (LocationModel { root: root@, segments: Seq::empty() }),
    {
        let r = Location { root, segments: Vec::new() };
        assert(texts(r.segments@) =~= Seq::empty());
        r
    }

    /// The place that `more` lead to from this one.
    pub fn join(&self, more: &Vec<String>) -> (r: Location)
        ensures
            r@ == self@.join(texts(more@)),
    {
        assert(texts(more@).take(more.len() as int) == texts(more@));
        self.join_first(more, more.len())
    }

    /// The place that the first `count` of `more` lead to from this one.
    fn join_first(&self, more: &Vec<String>, count: usize) -> (r: Location)
        requires
            count <= more.len(),
        ensures
            r@ == self@.join(texts(more@).take(count as int)),
    {
        let mut segments: Vec<String> = Vec::new();
        let mut i: usize = 0;
        while i < self.segments.len()
            invariant
                i <= self.segments.len(),
                texts(segments@) =~= texts(self.segments@).take(i as int),
            decreases self.segments.len() - i,
        {
            proof {
                lemma_texts_push(segments@, self.segments[i as int]);
            }
            segments.push(self.segments[i].clone());
            i += 1;
        }
        let mut k: usize = 0;
        while k < count
            invariant
                k <= count <= more.len(),
                texts(segments@) =~= texts(self.segments@) + texts(more@).take(k as int),
            decreases count - k,
        {
            proof {
                lemma_texts_push(segments@, more[k as int]);
            }
            segments.push(more[k].clone());
            k += 1;
        }
        Location { root: self.root.clone(), segments }
    }
}

impl Clone for Location {
    fn clone(&self) -> (r: Location)
        ensures
            r@ == self@,
    {
        let nothing: Vec<String> = Vec::new();
        assert(self@.segments + texts(nothing@) =~= self@.segments);
        self.join(&nothing)
    }
}

/// An object: a directory of the namespace, with the contracts it declares
/// once they have been read.
#[derive(Debug)]
pub struct Object {
    /// Where the directory lies.
    pub path: Location,
    /// The name of the directory.
    pub name: String,
    /// The contracts of the manifest, once read; `None` before, and where
    /// the directory holds no manifest.
    pub contracts: Option<Manifest>,
}

/// An object as a mathematical value: the fields of `Object`, with the
/// contracts as a map from the names of the methods.
pub struct ObjectModel {
    pub path: LocationModel,
    pub name: Seq<char>,
    pub contracts: Option<Map<Seq<char>, ContractModel>>,
}

impl View for Object {
    type V = ObjectModel;

    open spec fn view(&self) -> ObjectModel {
        ObjectModel {
            path: self.path@,
            name: self.name@,
            contracts: match self.contracts {
                Some(manifest) => Some(manifest@),
                None => None,
            },
        }
    }
}

/// One invocation of a method.
#[derive(Debug)]
pub struct Method {
    /// Whether input is piped into the process.
    pub stdin: bool,
    /// The name of the method: the last segment of the dotted name.
    pub name: String,
    /// Where the executable of the method lies.
    pub path: Location,
    /// The arguments and flags of the invocation.
    pub args: Vec<String>,
    /// The object that owns the method.
    pub object: Object,
}

/// An invocation as a mathematical value: the fields of `Method`, with
/// texts in the place of strings.
pub struct MethodModel {
    pub stdin: bool,
    pub name: Seq<char>,
    pub path: LocationModel,
    pub args: Seq<Seq<char>>,
    pub object: ObjectModel,
}

impl View for Method {
    type V = MethodModel;

    open spec fn view(&self) -> MethodModel {
        MethodModel {
            stdin: self.stdin,
            name: self.name@,
            path: self.path@,
            args: texts(self.args@),
            object: self.object@,
        }
    }
}

/// The invocation that a dotted name stands for: the last segment names the
/// method, the one before it the object; the object lies where the segments
/// before the last lead from the namespace, the executable where all of
/// them lead. A name of fewer than two segments stands for none.
pub open spec fn resolved(
    name: Seq<char>,
    args: Seq<Seq<char>>,
    stdin: bool,
    namespace: LocationModel,
) -> Option<MethodModel> {
    let segments = split(name, '.');
    if segments.len() >= 2 {
        Some(
            MethodModel {
                stdin,
                name: segments.last(),
                path: namespace.join(segments),
                args,
                object: ObjectModel {
                    path: namespace.join(segments.drop_last()),
                    name: segments[segments.len() - 2],
                    contracts: None,
                },
            },
        )
    } else {
        None
    }
}

/// Whether a name is that of an interface: whether it begins and ends with
/// two underscores.
pub open spec fn is_interface_name(name: Seq<char>) -> bool {
    name.len() >= 2 && name[0] == '_' && name[1] == '_' && name[name.len() - 2] == '_'
        && name[name.len() - 1] == '_'
}

/// Whether `name` is the name of an interface.
pub fn is_interface(name: &String) -> (r: bool)
    ensures
        r == is_interface_name(name@),
{
    let v = chars_of(name.as_str());
    let n = v.len();
    n >= 2 && v[0] == '_' && v[1] == '_' && v[n - 2] == '_' && v[n - 1] == '_'
}

impl Method {
    /// The invocation that the dotted `name` stands for, given whether the
    /// name matched the pattern for method names.
    pub fn resolve(
        name: &str,
        matched: bool,
        args: Vec<String>,
        stdin: bool,
        namespace: &Location,
    ) -> (r: Result<Method, String>)
        ensures
            match resolved(name@, texts(args@), stdin, namespace@) {
                Some(method) if matched => r matches Ok(m) && m@ == method,
                _ => r matches Err(message) && message@ == NAME_MISMATCH@,
            },
            !name@.contains('.') ==> r is Err,
    {
        proof {
            if !name@.contains('.') {
                lemma_single_segment_rejected(name@, texts(args@), stdin, namespace@);
            }
        }
        let segments = split_at(&chars_of(name), '.');
        let n = segments.len();
        if !matched || n < 2 {
            return Err(NAME_MISMATCH.to_owned());
        }
        let object = Object {
            path: namespace.join_first(&segments, n - 1),
            name: segments[n - 2].clone(),
            contracts: None,
        };
        assert(texts(segments@).take(n - 1) == texts(segments@).drop_last());
        assert(texts(segments@).take(n as int) == texts(segments@));
        Ok(
            Method {
                stdin,
                name: segments[n - 1].clone(),
                path: namespace.join_first(&segments, n),
                args,
                object,
            },
        )
    }

    /// The invocation that the dotted `name` stands for.
    ///
    /// White space around the name is dropped. The name must match the
    /// pattern for method names and hold a dot.
    pub fn new(name: String, args: Vec<String>, stdin: bool, namespace: Location) -> (r: Result<
        Method,
        String,
    >)
        ensures
            match resolved(trimmed(name@), texts(args@), stdin, namespace@) {
                Some(method) if matches_name_pattern(trimmed(name@)) => r matches Ok(m) && m@
                    == method,
                _ => r matches Err(message) && message@ == NAME_MISMATCH@,
            },
            !trimmed(name@).contains('.') ==> r is Err,
    {
        let clean = trim(name.as_str());
        let text = string_of(&clean, 0, clean.len());
        assert(text@ == clean@);
        let matched = match is_match(NAME_PATTERN, text.as_str()) {
            Ok(found) => found,
            Err(_) => false,
        };
        Method::resolve(text.as_str(), matched, args, stdin, &namespace)
    }
}

/// A name without a dot stands for no invocation, whatever the pattern
/// says of it.
pub proof fn lemma_single_segment_rejected(
    name: Seq<char>,
    args: Seq<Seq<char>>,
    stdin: bool,
    namespace: LocationModel,
)
    requires
        !name.contains('.'),
    ensures
        resolved(name, args, stdin, namespace) is None,
{
    lemma_split_without_separator(name, '.');
}

} // verus!
