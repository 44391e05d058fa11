//! What building a collection reports.
use vstd::prelude::*;
use std::path::PathBuf;
use crate::error::ProxyNexusError;
use crate::text::{owned, push_str};

verus! {

/// How many printings a built collection holds, and the images it took.
#[derive(Debug)]
pub struct BuildReport {
    pub printings_added: usize,
    pub image_paths: Vec<PathBuf>,
}

impl Default for BuildReport {
    fn default() -> (r: BuildReport)
        ensures
            r.printings_added == 0 && r.image_paths@.len() == 0,
    {
        BuildReport { printings_added: 0, image_paths: Vec::new() }
    }
}

/// Whether this build can upscale on a GPU: it is built without upscaling.
pub fn is_gpu_available() -> (r: bool)
    ensures
        !r,
{
    false
}

/// The report of a collection built from `image_paths`; an error when no
/// image was found, as a collection needs one.
pub fn collection_report(image_paths: Vec<PathBuf>) -> (r: Result<BuildReport, ProxyNexusError>)
    ensures
        image_paths@.len() == 0 <==> r is Err,
        r matches Err(e) ==> e matches ProxyNexusError::Internal(m) && m@ == "No images found in images directory"@,
        r matches Ok(rep) ==> rep.printings_added == image_paths@.len() && rep.image_paths@ == image_paths@,
{
    if image_paths.len() == 0 {
        return Err(ProxyNexusError::Internal(owned("No images found in images directory")));
    }
    let n = image_paths.len();
    Ok(BuildReport { printings_added: n, image_paths })
}

/// Where an image sits in a collection file: `images/{file_name}`.
pub fn image_entry_name(file_name: &str) -> (r: String)
    ensures
        r@ == "images/"@ + file_name@,
{
    let mut e = owned("images/");
    push_str(&mut e, file_name);
    e
}

} // verus!
