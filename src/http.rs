use vstd::prelude::*;

verus! {

/// The status codes a response can carry.
#[derive(PartialEq, Debug, Eq, Clone, Copy, Structural)]
pub enum StatusCodes {
    OK,
    Created,
    NotFound,
    InternalServerError,
}

/// The request methods a route can be registered under.
#[derive(PartialEq, Debug, Eq, Clone, Copy, Structural)]
pub enum HttpMethod {
    Get,
    Post,
    Put,
    Delete,
}

/// The wire token of a method.
pub open spec fn method_token(m: HttpMethod) -> Seq<char> {
    match m {
        HttpMethod::Get => "GET"@,
        HttpMethod::Post => "POST"@,
        HttpMethod::Put => "PUT"@,
        HttpMethod::Delete => "DELETE"@,
    }
}

/// The method a token names; an unknown token falls back to `GET`.
pub open spec fn method_of_token(s: Seq<char>) -> HttpMethod {
    if s == "POST"@ {
        HttpMethod::Post
    } else if s == "PUT"@ {
        HttpMethod::Put
    } else if s == "DELETE"@ {
        HttpMethod::Delete
    } else {
        HttpMethod::Get
    }
}

impl HttpMethod {
    /// The wire token of this method (`GET`, `POST`, `PUT`, `DELETE`).
    pub fn to_string(&self) -> (r: String)
        ensures
            r@ == method_token(*self),
    {
        match self {
            HttpMethod::Get => String::from_str("GET"),
            HttpMethod::Post => String::from_str("POST"),
            HttpMethod::Put => String::from_str("PUT"),
            HttpMethod::Delete => String::from_str("DELETE"),
        }
    }
}

impl From<&str> for HttpMethod {
    fn from(method: &str) -> (r: HttpMethod) {
        if crate::text::str_eq(method, "POST") {
            HttpMethod::Post
        } else if crate::text::str_eq(method, "PUT") {
            HttpMethod::Put
        } else if crate::text::str_eq(method, "DELETE") {
            HttpMethod::Delete
        } else {
            HttpMethod::Get
        }
    }
}

impl vstd::std_specs::convert::FromSpecImpl<&str> for HttpMethod {
    open spec fn obeys_from_spec() -> bool {
        true
    }

    open spec fn from_spec(method: &str) -> HttpMethod {
        method_of_token(method@)
    }
}

} // verus!
