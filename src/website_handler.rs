//! The decisions of the static-site handler: which request is answered by
//! which file or page, and where a file may be read from.
use vstd::prelude::*;
use vstd::string::*;
use crate::method::Method;
use crate::text::same_text;

verus! {

/// Whether `std::path::Path::starts_with` finds `base` as a leading run of
/// whole components of `path`.
pub uninterp spec fn path_starts_with(path: Seq<char>, base: Seq<char>) -> bool;

/// Relies on `std::path::Path::starts_with`: a component-wise prefix test
/// whose answer depends on the two texts alone.
#[verifier::external_body]
fn path_has_base(path: &str, base: &str) -> (r: bool)
    ensures
        r == path_starts_with(path@, base@),
{
    std::path::Path::new(path).starts_with(base)
}

/// How a request is to be answered.
#[derive(Debug)]
pub enum Route {
    /// With the contents of this file under the public directory, or "not
    /// found" when it cannot be read.
    File(String),
    /// With this fixed page.
    Page(String),
    /// With "not found".
    NotFound,
}

/// The mathematical value of a [`Route`].
pub enum RouteView {
    File(Seq<char>),
    Page(Seq<char>),
    NotFound,
}

impl View for Route {
    type V = RouteView;

    open spec fn view(&self) -> RouteView {
        match self {
            Route::File(f) => RouteView::File(f@),
            Route::Page(p) => RouteView::Page(p@),
            Route::NotFound => RouteView::NotFound,
        }
    }
}

/// The route of a request: only `GET` is served; `/` and `/hello` name
/// fixed files, `/test` a fixed page, and any other path the file of that
/// name.
pub open spec fn route_of(method: Method, path: Seq<char>) -> RouteView {
    if method != Method::GET {
        RouteView::NotFound
    } else if path == "/"@ {
        RouteView::File("index.html"@)
    } else if path == "/test"@ {
        RouteView::Page("<h1>Test page</h1>"@)
    } else if path == "/hello"@ {
        RouteView::File("hello.html"@)
    } else {
        RouteView::File(path)
    }
}

/// Serves files from one public directory.
#[derive(Debug)]
pub struct WebsiteHandler {
    public_path: String,
}

impl View for WebsiteHandler {
    type V = Seq<char>;

    /// The public directory.
    closed spec fn view(&self) -> Seq<char> {
        self.public_path@
    }
}

impl WebsiteHandler {
    pub fn new(public_path: String) -> (r: Self)
        ensures
            r@ == public_path@,
    {
        WebsiteHandler { public_path }
    }

    pub fn public_path(&self) -> (r: &str)
        ensures
            r@ == self@,
    {
        self.public_path.as_str()
    }

    /// Where `file_path` is looked for: the public directory, `/`, then
    /// `file_path`.
    pub fn file_location(&self, file_path: &str) -> (r: String)
        ensures
            r@ == self@ + seq!['/'] + file_path@,
    {
        let mut location = String::from_str(self.public_path.as_str());
        proof {
            reveal_strlit("/");
        }
        location.append("/");
        location.append(file_path);
        location
    }

    /// Whether a canonical file path lies inside the public directory.
    pub fn is_inside(&self, canonical: &str) -> (r: bool)
        ensures
            r == path_starts_with(canonical@, self@),
    {
        path_has_base(canonical, self.public_path.as_str())
    }

    /// How to answer a request with this method and path.
    pub fn route(&self, method: Method, path: &str) -> (r: Route)
        ensures
            r@ == route_of(method, path@),
    {
        if method != Method::GET {
            Route::NotFound
        } else if same_text(path, "/") {
            Route::File(String::from_str("index.html"))
        } else if same_text(path, "/test") {
            Route::Page(String::from_str("<h1>Test page</h1>"))
        } else if same_text(path, "/hello") {
            Route::File(String::from_str("hello.html"))
        } else {
            Route::File(String::from_str(path))
        }
    }
}

} // verus!
