//! Where the namespace lies.

use crate::method::{Location, LocationModel};
use crate::text::{text_of, texts};
use vstd::prelude::*;

verus! {

/// The name of the variable of the environment that may hold the root of
/// the namespace.
pub const NAMESPACE_VARIABLE: &'static str = "IRNIX_NAMESPACE";

/// The place of the namespace where the caller names none.
#[derive(Debug)]
pub struct Config {
    namespace: Location,
}

/// The namespace of a user whose home directory is `home`: the directory
/// `.local/share/irnix` in it.
pub open spec fn default_namespace(home: Seq<char>) -> LocationModel {
    LocationModel { root: home, segments: seq![".local"@, "share"@, "irnix"@] }
}

impl View for Config {
    type V = LocationModel;

    closed spec fn view(&self) -> LocationModel {
        self.namespace@
    }
}

impl Config {
    /// The configuration of a user whose home directory is `home`.
    pub fn new(home: String) -> (r: Config)
        ensures
            r@ == default_namespace(home@),
    {
        let mut segments: Vec<String> = Vec::new();
        segments.push(".local".to_owned());
        segments.push("share".to_owned());
        segments.push("irnix".to_owned());
        assert(texts(segments@) =~= seq![".local"@, "share"@, "irnix"@]);
        Config { namespace: Location { root: home, segments } }
    }

    /// The place of the namespace.
    pub fn into_location(self) -> (r: Location)
        ensures
            r@ == self@,
    {
        self.namespace
    }
}

/// The place of the namespace: the one that the caller names; else the one
/// that the environment names; else the one of the configuration.
pub open spec fn chosen_namespace(
    named: Option<LocationModel>,
    environment: Option<Seq<char>>,
    fallback: LocationModel,
) -> LocationModel {
    match named {
        Some(place) => place,
        None => match environment {
            Some(root) => LocationModel { root, segments: Seq::empty() },
            None => fallback,
        },
    }
}

/// The view of a place that may be missing.
pub open spec fn place_of(named: Option<Location>) -> Option<LocationModel> {
    match named {
        Some(place) => Some(place@),
        None => None,
    }
}

/// The place of the namespace: `namespace` where the caller names one; else
/// the value that the environment holds for it; else the place of the
/// configuration.
pub fn unwrap_namespace(
    namespace: Option<Location>,
    environment: Option<String>,
    fallback: Config,
) -> (r: Location)
    ensures
        r@ == chosen_namespace(
            place_of(namespace),
            text_of(environment),
            fallback@,
        ),
{
    match namespace {
        Some(place) => place,
        None => match environment {
            Some(root) => Location::new(root),
            None => fallback.into_location(),
        },
    }
}

} // verus!
