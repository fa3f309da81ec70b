//! The asset protocol: the UI's bundled files are served over a
//! virtual scheme, 200 with a content type inferred from the file
//! extension when the path is bundled, 404 with an empty body
//! otherwise.

use vstd::prelude::*;

verus! {

/// What the content-type table yields for a file extension.  An
/// unknown or empty extension falls back to a generic byte type.
pub uninterp spec fn mime_of(ext: Seq<u8>) -> Seq<char>;

/// Relies on mime_guess::from_ext with first_or_octet_stream: a
/// static table lookup from file extension to content type, with
/// application/octet-stream as the fallback.
#[verifier::external_body]
pub fn mime_for_extension(ext: &Vec<u8>) -> (r: String)
    ensures
        r@ == mime_of(ext@),
{
    mime_guess::from_ext(core::str::from_utf8(ext.as_slice()).unwrap_or(""))
        .first_or_octet_stream()
        .as_ref()
        .to_string()
}

/// Where the extension of the path's last segment starts: just
/// after the last dot, provided no separator follows it.
pub open spec fn ext_start(p: Seq<u8>, i: int) -> Option<int>
    decreases i,
{
    if i <= 0 {
        None
    } else if p[i - 1] == 46 {
        Some(i)
    } else if p[i - 1] == 47 {
        None
    } else {
        ext_start(p, i - 1)
    }
}

/// The extension of a request path: the bytes after the last dot
/// of its last segment, or nothing at all.
pub open spec fn spec_extension(p: Seq<u8>) -> Seq<u8> {
    match ext_start(p, p.len() as int) {
        Option::Some(s) => p.subrange(s, p.len() as int),
        Option::None => Seq::empty(),
    }
}

/// Extracts a request path's file extension.
pub fn extension_of(path: &Vec<u8>) -> (r: Vec<u8>)
    ensures
        r@ == spec_extension(path@),
{
    let n = path.len();
    let mut i: usize = n;
    while i > 0
        invariant
            i <= n,
            n == path@.len(),
            ext_start(path@, n as int) == ext_start(path@, i as int),
        decreases i,
    {
        if path[i - 1] == 46 {
            let mut out: Vec<u8> = Vec::new();
            let mut j: usize = i;
            while j < n
                invariant
                    i <= j <= n,
                    n == path@.len(),
                    out@ =~= path@.subrange(i as int, j as int),
                decreases n - j,
            {
                out.push(path[j]);
                j += 1;
                proof {
                    assert(out@ =~= path@.subrange(i as int, j as int));
                }
            }
            proof {
                assert(ext_start(path@, n as int) == Some(i as int));
            }
            return out;
        }
        if path[i - 1] == 47 {
            return Vec::new();
        }
        i -= 1;
    }
    Vec::new()
}

/// One response of the asset protocol.
pub struct AssetResponse {
    pub status: u16,
    pub content_type: String,
    pub body: Vec<u8>,
}

/// Builds the asset protocol's response: the looked-up file's bytes
/// under its inferred content type, or an empty 404.
pub fn serve_asset(path: &Vec<u8>, found: Option<Vec<u8>>) -> (r: AssetResponse)
    ensures
        match found {
            Option::Some(body) => {
                &&& r.status == 200
                &&& r.body@ == body@
                &&& r.content_type@ == mime_of(spec_extension(path@))
            },
            Option::None => {
                &&& r.status == 404
                &&& r.body@.len() == 0
                &&& r.content_type@.len() == 0
            },
        },
{
    match found {
        Option::Some(body) => {
            let ext = extension_of(path);
            let content_type = mime_for_extension(&ext);
            AssetResponse { status: 200, content_type, body }
        },
        Option::None => {
            AssetResponse { status: 404, content_type: String::new(), body: Vec::new() }
        },
    }
}

} // verus!
