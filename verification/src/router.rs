//! The pages of the client and the paths that lead to them.

use crate::json::read_word;
use vstd::prelude::*;
use vstd::string::is_ascii_spec_bytes;
use vstd::string::StringSliceAdditionalSpecFns;

verus! {

/// A page of the client.
#[derive(Debug, Clone, Copy, PartialEq, Eq, Structural)]
pub enum AppRoute {
    /// The login page, at `/`.
    Login,
    /// The page of comments, at `/comments`.
    Comments,
    /// The page for every other path, at `/404`.
    NotFound,
}

/// What stands on a page.
#[derive(Debug, Clone, Copy, PartialEq, Eq, Structural)]
pub enum Page {
    /// The login form.
    Login,
    /// The comments.
    Comments,
    /// The notice that there is no such page.
    NotFound,
}

/// What stands on the page of a route.
pub fn switch(route: AppRoute) -> (page: Page)
    ensures
        page == (match route {
            AppRoute::Login => Page::Login,
            AppRoute::Comments => Page::Comments,
            AppRoute::NotFound => Page::NotFound,
        }),
{
    match route {
        AppRoute::Login => Page::Login,
        AppRoute::Comments => Page::Comments,
        AppRoute::NotFound => Page::NotFound,
    }
}

/// The path of a route, in UTF-8 bytes.
pub open spec fn path_of(route: AppRoute) -> Seq<u8> {
    match route {
        AppRoute::Login => "/".spec_bytes(),
        AppRoute::Comments => "/comments".spec_bytes(),
        AppRoute::NotFound => "/404".spec_bytes(),
    }
}

/// The route that a path leads to: the route whose path it is, and the
/// page for unknown paths otherwise.
pub open spec fn route_of(path: Seq<u8>) -> AppRoute {
    if path == path_of(AppRoute::Login) {
        AppRoute::Login
    } else if path == path_of(AppRoute::Comments) {
        AppRoute::Comments
    } else {
        AppRoute::NotFound
    }
}

impl AppRoute {
    /// The path of the route.
    pub fn to_path(self) -> (path: &'static str)
        ensures
            path.spec_bytes() == path_of(self),
    {
        match self {
            AppRoute::Login => "/",
            AppRoute::Comments => "/comments",
            AppRoute::NotFound => "/404",
        }
    }

    /// The route that a path leads to.
    pub fn recognize(path: &str) -> (route: AppRoute)
        ensures
            route == route_of(path.spec_bytes()),
    {
        let bytes = path.as_bytes();
        if same_word(bytes, "/") {
            AppRoute::Login
        } else if same_word(bytes, "/comments") {
            AppRoute::Comments
        } else {
            AppRoute::NotFound
        }
    }
}

/// Whether the bytes are those of the word.
pub(crate) fn same_word(bytes: &[u8], word: &str) -> (r: bool)
    ensures
        r == (bytes@ == word.spec_bytes()),
{
    match read_word(bytes, 0, word) {
        Some(end) => {
            proof {
                assert(bytes@.subrange(0, bytes@.len() as int) =~= bytes@);
            }
            end == bytes.len()
        },
        None => {
            proof {
                if bytes@ == word.spec_bytes() {
                    assert(bytes@.subrange(0, bytes@.len() as int) =~= bytes@);
                }
            }
            false
        },
    }
}

/// Every route is the one that its own path leads to.
pub proof fn lemma_route_of_path(route: AppRoute)
    ensures
        route_of(path_of(route)) == route,
{
    reveal_strlit("/");
    reveal_strlit("/comments");
    reveal_strlit("/404");
    is_ascii_spec_bytes("/");
    is_ascii_spec_bytes("/comments");
    is_ascii_spec_bytes("/404");
}

} // verus!
