//! The route table: which `(method, base path)` pairs a node answers, and
//! what a handler hands back.  `OPTIONS` is always answered; an unregistered
//! pair is not routed at all.

use vstd::prelude::*;
use vstd::string::StrSliceExecFns;
use crate::ctx::Method;
use crate::maps::str_eq;

verus! {

/// What one route handler returns: a status and an optional body.
pub struct APIHandlerResponse {
    pub status: u16,
    pub body: Option<Vec<u8>>,
}

impl APIHandlerResponse {
    pub fn new(status: u16, body: Option<Vec<u8>>) -> (r: APIHandlerResponse)
        ensures
            r.status == status,
            r.body == body,
    {
        APIHandlerResponse { status, body }
    }
}

pub open spec fn has_path(paths: Seq<String>, p: Seq<char>) -> bool {
    exists|i: int| 0 <= i < paths.len() && paths[i]@ == p
}

/// The part of a registered pattern before any query string.
pub open spec fn base_path(p: Seq<char>) -> Seq<char> {
    if exists|i: int| 0 <= i < p.len() && p[i] == '?' {
        p.take(choose|i: int| 0 <= i < p.len() && p[i] == '?' && (forall|j: int| 0 <= j < i ==> p[j] != '?'))
    } else {
        p
    }
}

fn find_query_mark(path: &str) -> (r: Option<usize>)
    ensures
        match r {
            Some(i) => i < path@.len() && path@[i as int] == '?' && (forall|j: int|
                0 <= j < i ==> path@[j] != '?'),
            None => forall|j: int| 0 <= j < path@.len() ==> path@[j] != '?',
        },
{
    let n = path.unicode_len();
    let mut i: usize = 0;
    while i < n
        invariant
            i <= n == path@.len(),
            forall|j: int| 0 <= j < i ==> path@[j] != '?',
        decreases n - i,
    {
        if path.get_char(i) == '?' {
            return Some(i);
        }
        i = i + 1;
    }
    None
}

/// Cut a registered pattern down to its base path.
pub fn get_base_path(path: &str) -> (r: String)
    ensures
        r@ == base_path(path@),
{
    match find_query_mark(path) {
        Some(i) => {
            let s = path.substring_char(0, i);
            proof {
                let w = choose|w: int|
                    0 <= w < path@.len() && path@[w] == '?' && (forall|j: int|
                        0 <= j < w ==> path@[j] != '?');
                assert(w == i as int);
            }
            s.to_owned()
        },
        None => {
            proof {
                assert(base_path(path@) == path@);
            }
            path.to_owned()
        },
    }
}

/// The registered routes of one node, by HTTP method.
pub struct Router {
    pub posts: Vec<String>,
    pub gets: Vec<String>,
    pub puts: Vec<String>,
    pub deletes: Vec<String>,
}

/// Whether a request is routed: `OPTIONS` always is; anything else must have
/// been registered for its method.
pub open spec fn routed(r: Router, method: Method, path: Seq<char>) -> bool {
    match method {
        Method::Options => true,
        Method::Post => has_path(r.posts@, path),
        Method::Get => has_path(r.gets@, path),
        Method::Put => has_path(r.puts@, path),
        Method::Delete => has_path(r.deletes@, path),
        _ => false,
    }
}

fn vec_has_path(paths: &Vec<String>, path: &str) -> (r: bool)
    ensures
        r == has_path(paths@, path@),
{
    let mut i: usize = 0;
    while i < paths.len()
        invariant
            i <= paths@.len(),
            forall|j: int| 0 <= j < i ==> paths@[j]@ != path@,
        decreases paths@.len() - i,
    {
        if str_eq(paths[i].as_str(), path) {
            proof {
                assert(paths@[i as int]@ == path@);
            }
            return true;
        }
        i = i + 1;
    }
    proof {
        if has_path(paths@, path@) {
            let w = choose|w: int| 0 <= w < paths@.len() && paths@[w]@ == path@;
            assert(false);
        }
    }
    false
}

impl Router {
    pub fn new() -> (r: Router)
        ensures
            r.posts@.len() == 0 && r.gets@.len() == 0 && r.puts@.len() == 0 && r.deletes@.len()
                == 0,
    {
        Router { posts: Vec::new(), gets: Vec::new(), puts: Vec::new(), deletes: Vec::new() }
    }

    pub fn post(&mut self, path: String)
        ensures
            final(self).posts@ == old(self).posts@.push(final(self).posts@.last()),
            final(self).posts@.last()@ == base_path(path@),
            final(self).gets == old(self).gets,
            final(self).puts == old(self).puts,
            final(self).deletes == old(self).deletes,
    {
        let b = get_base_path(path.as_str());
        self.posts.push(b);
    }

    pub fn get(&mut self, path: String)
        ensures
            final(self).gets@ == old(self).gets@.push(final(self).gets@.last()),
            final(self).gets@.last()@ == base_path(path@),
            final(self).posts == old(self).posts,
            final(self).puts == old(self).puts,
            final(self).deletes == old(self).deletes,
    {
        let b = get_base_path(path.as_str());
        self.gets.push(b);
    }

    pub fn put(&mut self, path: String)
        ensures
            final(self).puts@ == old(self).puts@.push(final(self).puts@.last()),
            final(self).puts@.last()@ == base_path(path@),
            final(self).posts == old(self).posts,
            final(self).gets == old(self).gets,
            final(self).deletes == old(self).deletes,
    {
        let b = get_base_path(path.as_str());
        self.puts.push(b);
    }

    pub fn delete(&mut self, path: String)
        ensures
            final(self).deletes@ == old(self).deletes@.push(final(self).deletes@.last()),
            final(self).deletes@.last()@ == base_path(path@),
            final(self).posts == old(self).posts,
            final(self).gets == old(self).gets,
            final(self).puts == old(self).puts,
    {
        let b = get_base_path(path.as_str());
        self.deletes.push(b);
    }

    /// Whether this router answers the pair at all; `OPTIONS` always does.
    pub fn contains(&self, method: Method, path: &str) -> (r: bool)
        ensures
            r == routed(*self, method, path@),
    {
        match method {
            Method::Options => true,
            Method::Post => vec_has_path(&self.posts, path),
            Method::Get => vec_has_path(&self.gets, path),
            Method::Put => vec_has_path(&self.puts, path),
            Method::Delete => vec_has_path(&self.deletes, path),
            _ => false,
        }
    }
}

} // verus!
