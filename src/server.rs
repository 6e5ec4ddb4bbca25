//! The route table: registration in order, and dispatch to the first matching route.
use vstd::prelude::*;
use crate::method::HttpMethod;
use crate::request::HttpRequest;
use crate::response::HttpResponse;
use crate::route::{glob_match, HttpRoute};

verus! {

/// Whether `route` accepts `request`.
pub open spec fn route_accepts<F>(route: HttpRoute<F>, request: HttpRequest) -> bool {
    route.method == request.method && glob_match(request.uri.path@, route.path_pattern@)
}

/// Routes in registration order, and directories to serve files from.
pub struct HttpServer<F> {
    routes: Vec<HttpRoute<F>>,
    static_directories: Vec<String>,
}

impl<F: Fn(HttpRequest) -> HttpResponse> HttpServer<F> {
    pub closed spec fn routes(&self) -> Seq<HttpRoute<F>> {
        self.routes@
    }

    pub closed spec fn static_directories(&self) -> Seq<String> {
        self.static_directories@
    }

    pub fn new() -> (r: Self)
        ensures
            r.routes().len() == 0,
            r.static_directories().len() == 0,
    {
        HttpServer { routes: Vec::new(), static_directories: Vec::new() }
    }

    /// Registers a handler for `GET` requests whose path matches `path_pattern`.
    pub fn get(&mut self, path_pattern: String, callback: F)
        ensures
            final(self).routes() == old(self).routes().push(
                (HttpRoute { method: HttpMethod::GET, path_pattern, callback }),
            ),
            final(self).static_directories() == old(self).static_directories(),
    {
        self.routes.push(HttpRoute { method: HttpMethod::GET, path_pattern, callback });
    }

    /// Registers a handler for `POST` requests whose path matches `path_pattern`.
    pub fn post(&mut self, path_pattern: String, callback: F)
        ensures
            final(self).routes() == old(self).routes().push(
                (HttpRoute { method: HttpMethod::POST, path_pattern, callback }),
            ),
            final(self).static_directories() == old(self).static_directories(),
    {
        self.routes.push(HttpRoute { method: HttpMethod::POST, path_pattern, callback });
    }

    /// Adds a directory whose files answer `GET` requests that no route takes.
    pub fn serve_static(&mut self, directory_path: String)
        ensures
            final(self).routes() == old(self).routes(),
            final(self).static_directories() == old(self).static_directories().push(directory_path),
    {
        self.static_directories.push(directory_path);
    }

    /// The directories given to `serve_static`, in order.
    pub fn static_directory_list(&self) -> (r: &Vec<String>)
        ensures
            r@ == self.static_directories(),
    {
        &self.static_directories
    }

    /// The index of the first route, in registration order, that accepts `request`.
    pub fn route_index(&self, request: &HttpRequest) -> (r: Option<usize>)
        ensures
            r is Some ==> r->0 < self.routes().len() && route_accepts(self.routes()[r->0 as int], *request)
                && forall|j: int| 0 <= j < r->0 ==> !route_accepts(#[trigger] self.routes()[j], *request),
            r is None ==> forall|j: int| 0 <= j < self.routes().len() ==> !route_accepts(
                #[trigger] self.routes()[j],
                *request,
            ),
    {
        let mut i: usize = 0;
        while i < self.routes.len()
            invariant
                i <= self.routes@.len(),
                forall|j: int| 0 <= j < i ==> !route_accepts(#[trigger] self.routes@[j], *request),
            decreases self.routes@.len() - i,
        {
            if self.routes[i].matches(request) {
                return Some(i);
            }
            i = i + 1;
        }
        None
    }

    /// Hands `request` to the handler of the first route that accepts it and returns
    /// that handler's response; gives the request back when no route accepts it.
    pub fn handle_request(&self, request: HttpRequest) -> (r: Result<HttpResponse, HttpRequest>)
        requires
            forall|i: int, q: HttpRequest| 0 <= i < self.routes().len() ==> #[trigger] self.routes()[i].callback.requires((q,)),
        ensures
            r is Err ==> r->Err_0 == request && forall|j: int| 0 <= j < self.routes().len() ==> !route_accepts(
                #[trigger] self.routes()[j],
                request,
            ),
            r is Ok ==> exists|i: int| {
                &&& 0 <= i < self.routes().len()
                &&& route_accepts(#[trigger] self.routes()[i], request)
                &&& forall|j: int| 0 <= j < i ==> !route_accepts(#[trigger] self.routes()[j], request)
                &&& self.routes()[i].callback.ensures((request,), r->Ok_0)
            },
    {
        match self.route_index(&request) {
            Some(i) => {
                let ghost req = request;
                let response = (self.routes[i].callback)(request);
                assert(self.routes()[i as int].callback.ensures((req,), response));
                Ok(response)
            },
            None => Err(request),
        }
    }
}

} // verus!
