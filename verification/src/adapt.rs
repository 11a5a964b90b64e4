//! The request adapter: turns a scanned, borrowed request view into an
//! owned request with a closed method enumeration and a case-insensitive
//! header map. Copying happens only here, never during scanning.
use vstd::prelude::*;

use crate::headers::HeaderMap;
use crate::scan::{Header, ParseError, Request, req_wf};
use crate::text::{copy_range, lower_range, to_lower};

verus! {

/// The closed set of recognized request methods; any other verb is
/// rejected at adaptation time, by design.
#[derive(Clone, Copy, PartialEq, Eq, Structural, Debug)]
pub enum Method {
    Get,
    Post,
    Put,
    Delete,
    Head,
    Options,
    Connect,
    Patch,
    Trace,
}

/// The method denoted by a verb's exact bytes, if it is one of the nine
/// recognized verbs.
pub open spec fn spec_method_of(s: Seq<u8>) -> Option<Method> {
    if s == seq![71u8, 69u8, 84u8] {  // GET
        Some(Method::Get)
    } else if s == seq![80u8, 79u8, 83u8, 84u8] {  // POST
        Some(Method::Post)
    } else if s == seq![80u8, 85u8, 84u8] {  // PUT
        Some(Method::Put)
    } else if s == seq![68u8, 69u8, 76u8, 69u8, 84u8, 69u8] {  // DELETE
        Some(Method::Delete)
    } else if s == seq![72u8, 69u8, 65u8, 68u8] {  // HEAD
        Some(Method::Head)
    } else if s == seq![79u8, 80u8, 84u8, 73u8, 79u8, 78u8, 83u8] {  // OPTIONS
        Some(Method::Options)
    } else if s == seq![67u8, 79u8, 78u8, 78u8, 69u8, 67u8, 84u8] {  // CONNECT
        Some(Method::Connect)
    } else if s == seq![80u8, 65u8, 84u8, 67u8, 72u8] {  // PATCH
        Some(Method::Patch)
    } else if s == seq![84u8, 82u8, 65u8, 67u8, 69u8] {  // TRACE
        Some(Method::Trace)
    } else {
        None
    }
}

/// Decides which recognized verb `buffer[start..end]` spells, if any.
pub fn method_of_range(buffer: &[u8], start: usize, end: usize) -> (r: Option<Method>)
    requires
        start <= end,
        end <= buffer.len(),
    ensures
        r == spec_method_of(buffer@.subrange(start as int, end as int)),
{
    let ghost s = buffer@.subrange(start as int, end as int);
    let n = end - start;
    if n == 3 && buffer[start] == 71 && buffer[start + 1] == 69 && buffer[start + 2] == 84 {
        proof {
            assert(s =~= seq![71u8, 69u8, 84u8]);
        }
        return Some(Method::Get);
    }
    if n == 4 && buffer[start] == 80 && buffer[start + 1] == 79 && buffer[start + 2] == 83
        && buffer[start + 3] == 84 {
        proof {
            assert(s =~= seq![80u8, 79u8, 83u8, 84u8]);
        }
        return Some(Method::Post);
    }
    if n == 3 && buffer[start] == 80 && buffer[start + 1] == 85 && buffer[start + 2] == 84 {
        proof {
            assert(s =~= seq![80u8, 85u8, 84u8]);
        }
        return Some(Method::Put);
    }
    if n == 6 && buffer[start] == 68 && buffer[start + 1] == 69 && buffer[start + 2] == 76
        && buffer[start + 3] == 69 && buffer[start + 4] == 84 && buffer[start + 5] == 69 {
        proof {
            assert(s =~= seq![68u8, 69u8, 76u8, 69u8, 84u8, 69u8]);
        }
        return Some(Method::Delete);
    }
    if n == 4 && buffer[start] == 72 && buffer[start + 1] == 69 && buffer[start + 2] == 65
        && buffer[start + 3] == 68 {
        proof {
            assert(s =~= seq![72u8, 69u8, 65u8, 68u8]);
        }
        return Some(Method::Head);
    }
    if n == 7 && buffer[start] == 79 && buffer[start + 1] == 80 && buffer[start + 2] == 84
        && buffer[start + 3] == 73 && buffer[start + 4] == 79 && buffer[start + 5] == 78
        && buffer[start + 6] == 83 {
        proof {
            assert(s =~= seq![79u8, 80u8, 84u8, 73u8, 79u8, 78u8, 83u8]);
        }
        return Some(Method::Options);
    }
    if n == 7 && buffer[start] == 67 && buffer[start + 1] == 79 && buffer[start + 2] == 78
        && buffer[start + 3] == 78 && buffer[start + 4] == 69 && buffer[start + 5] == 67
        && buffer[start + 6] == 84 {
        proof {
            assert(s =~= seq![67u8, 79u8, 78u8, 78u8, 69u8, 67u8, 84u8]);
        }
        return Some(Method::Connect);
    }
    if n == 5 && buffer[start] == 80 && buffer[start + 1] == 65 && buffer[start + 2] == 84
        && buffer[start + 3] == 67 && buffer[start + 4] == 72 {
        proof {
            assert(s =~= seq![80u8, 65u8, 84u8, 67u8, 72u8]);
        }
        return Some(Method::Patch);
    }
    if n == 5 && buffer[start] == 84 && buffer[start + 1] == 82 && buffer[start + 2] == 65
        && buffer[start + 3] == 67 && buffer[start + 4] == 69 {
        proof {
            assert(s =~= seq![84u8, 82u8, 65u8, 67u8, 69u8]);
        }
        return Some(Method::Trace);
    }
    proof {
        assert(s.len() == n);
        assert(forall|j: int| 0 <= j < s.len() ==> s[j] == buffer@[start + j]);
    }
    None
}

/// The header mapping the adapter owes: every scanned header inserted in
/// input order under its lower-cased name, so a later duplicate name
/// overwrites the earlier value.
pub open spec fn spec_adapted_headers(s: Seq<u8>, hs: Seq<Header>, i: int) -> Map<
    Seq<u8>,
    Seq<u8>,
>
    decreases i,
{
    if i <= 0 {
        Map::empty()
    } else {
        spec_adapted_headers(s, hs, i - 1).insert(
            to_lower(s.subrange(hs[i - 1].name_start as int, hs[i - 1].name_end as int)),
            s.subrange(hs[i - 1].value_start as int, hs[i - 1].value_end as int),
        )
    }
}

/// An owned, application-level request: its fields have independent
/// storage and outlive the scan buffer. Textual fields hold UTF-8 bytes.
#[derive(Debug)]
pub struct HttpRequest {
    pub method: Method,
    pub path: Vec<u8>,
    pub version: Vec<u8>,
    pub headers: HeaderMap,
    pub body: Vec<u8>,
}

impl HttpRequest {
    /// Adapts a scanned request view into an owned request: the method
    /// must spell one of the nine recognized verbs, else
    /// `InvalidMethod`; path, version and body are copied out; every
    /// header is inserted under its lower-cased name, later duplicates
    /// overwriting earlier ones.
    pub fn try_from(buffer: &[u8], headers: &Vec<Header>, req: &Request) -> (r: Result<
        HttpRequest,
        ParseError,
    >)
        requires
            req_wf(*req, headers@, buffer@),
        ensures
            (match r {
                Ok(hr) => {
                    &&& spec_method_of(
                        buffer@.subrange(req.method_start as int, req.method_end as int),
                    ) == Some(hr.method)
                    &&& hr.path@ == buffer@.subrange(req.path_start as int, req.path_end as int)
                    &&& hr.version@ == buffer@.subrange(
                        req.version_start as int,
                        req.version_end as int,
                    )
                    &&& hr.body@ == buffer@.subrange(req.body_start as int, req.body_end as int)
                    &&& hr.headers@ == spec_adapted_headers(
                        buffer@,
                        headers@,
                        headers@.len() as int,
                    )
                    &&& hr.headers.wf()
                },
                Err(e) => e == ParseError::InvalidMethod && spec_method_of(
                    buffer@.subrange(req.method_start as int, req.method_end as int),
                ) is None,
            }),
    {
        let method = match method_of_range(buffer, req.method_start, req.method_end) {
            Some(m) => m,
            None => {
                return Err(ParseError::InvalidMethod);
            },
        };
        let mut hm = HeaderMap::new();
        let mut i: usize = 0;
        while i < headers.len()
            invariant
                i <= headers@.len(),
                req_wf(*req, headers@, buffer@),
                hm.wf(),
                hm@ == spec_adapted_headers(buffer@, headers@, i as int),
            decreases headers@.len() - i,
        {
            let h = headers[i];
            let name = lower_range(buffer, h.name_start, h.name_end);
            let value = copy_range(buffer, h.value_start, h.value_end);
            hm.insert(name, value);
            i = i + 1;
        }
        let path = copy_range(buffer, req.path_start, req.path_end);
        let version = copy_range(buffer, req.version_start, req.version_end);
        let body = copy_range(buffer, req.body_start, req.body_end);
        Ok(HttpRequest { method, path, version, headers: hm, body })
    }
}

} // verus!
