//! Where card images come from: a local folder or the published collections.
use vstd::prelude::*;
use std::path::PathBuf;
use crate::text::{owned, push_str};

verus! {

#[verifier::external_type_specification]
#[verifier::external_body]
pub struct ExPathBuf(PathBuf);

/// Images read from the folder the collections are unpacked in.
pub struct LocalImageProvider {
    base_path: PathBuf,
}

impl LocalImageProvider {
    /// The folder images are read from.
    pub closed spec fn folder(&self) -> PathBuf {
        self.base_path
    }

    /// Images read from `base_path`.
    pub fn new(base_path: PathBuf) -> (r: LocalImageProvider)
        ensures
            r.folder() == base_path,
    {
        LocalImageProvider { base_path }
    }

    /// The folder images are read from.
    pub fn base_path(&self) -> (r: &PathBuf)
        ensures
            *r == self.folder(),
    {
        &self.base_path
    }
}

/// Images fetched from the published collections.
pub struct RemoteImageProvider;

/// Where the published collections serve an image key.
pub open spec fn remote_url_spec(key: Seq<char>) -> Seq<char> {
    "https://collections.proxynexus.net/"@ + key
}

impl RemoteImageProvider {
    /// The URL of an image key.
    pub fn image_url(&self, key: &str) -> (r: String)
        ensures
            r@ == remote_url_spec(key@),
    {
        let mut u = owned("https://collections.proxynexus.net/");
        push_str(&mut u, key);
        u
    }
}

} // verus!
