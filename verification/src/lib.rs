//! The logic of a personal site's backend: blog posts read from Markdown sources,
//! pages of the blog listing, limited project lists, skills and experience, and
//! static file requests.
use vstd::prelude::*;

pub mod api_doc;
pub mod blog;
pub mod dates;
pub mod files;
pub mod listing;
pub mod markdown;
pub mod model;
pub mod text;

pub use api_doc::ApiDoc;

verus! {
}
