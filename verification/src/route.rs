use vstd::prelude::*;
use crate::paths::spec_set_extension;

verus! {

/// A URL prefix put in front of generated links.
pub struct RoutePrefix(pub String);

/// A custom path mapping, for routes that none of the fixed policies
/// express; implementors are the embedding program's own.
pub trait RouteFn {
    /// The destination path for a source path.
    fn route(&self, path: &str) -> (r: String);
}

/// How a resource's file system path maps to its destination path.
pub enum Route {
    /// Keep the file system path and the destination identical.
    Id,
    /// Disregard the file system path and always use this constant value.
    Const(String),
    /// Replace the extension in the file system path with this value.
    SetExtension(&'static str),
    /// A custom mapping.
    Custom(Box<dyn RouteFn>),
}

/// The destination a fixed route policy yields; a custom route's result is
/// its implementor's business.
pub open spec fn spec_route(r: Route, path: Seq<char>) -> Seq<char> {
    match r {
        Route::Id => path,
        Route::Const(s) => s@,
        Route::SetExtension(e) => spec_set_extension(path, e@),
        Route::Custom(_) => path,
    }
}

impl Route {
    /// The destination path for a source path.
    pub fn apply(&self, path: &str) -> (r: String)
        ensures
            !(self is Custom) ==> r@ == spec_route(*self, path@),
    {
        match self {
            Route::Id => path.to_owned(),
            Route::Const(s) => s.clone(),
            Route::SetExtension(e) => crate::paths::set_extension(path, e),
            Route::Custom(f) => f.route(path),
        }
    }
}

} // verus!
