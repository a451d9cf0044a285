//! The web interface: which asset answers a request.

use vstd::prelude::*;

use crate::dav::handler::{Head, Payload, Response};
use crate::dav::handler;
use crate::dav::store;

verus! {

/// The page that the interface starts from.
pub const INDEX: &'static str = "index.html";

/// Which asset answers a request for a path: the one with that path, where there is one,
/// else the start page, which routes on its own.
pub fn frontend_handler(path: String, known: bool) -> (r: String)
    ensures
        r@ == if known {
            path@
        } else {
            INDEX@
        },
{
    if known {
        path
    } else {
        INDEX.to_string()
    }
}

/// The response that carries an asset.
pub fn serve_file(path: &str, asset: Option<Vec<u8>>) -> (r: Response)
    ensures
        match asset {
            None => r.says(404, "Not found"@),
            Some(data) => {
                &&& r.head() == (Head {
                    content_type: Some(store::mime_of_name(path@)),
                    ..handler::plain_head(200)
                })
                &&& r.payload == Payload::Data(data)
            },
        },
{
    match asset {
        None => Response::message(404, "Not found".to_string()),
        Some(data) => {
            let mut r = Response::bare(200);
            r.content_type = Some(store::mime_from_name(path));
            r.payload = Payload::Data(data);
            r
        },
    }
}

} // verus!
