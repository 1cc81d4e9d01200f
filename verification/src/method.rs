//! The HTTP methods a route can be declared for.
use vstd::prelude::*;
use crate::text::{join2, str_eq};

verus! {

/// One of the five request methods that routes are declared for.
#[derive(Clone, Copy, Debug, PartialEq, Eq, Hash, Structural)]
pub enum Method {
    Get,
    Post,
    Put,
    Delete,
    Patch,
}

/// The method that a lowercase token stands for, if any.
pub open spec fn method_of_token(token: Seq<char>) -> Option<Method> {
    if token == "get"@ {
        Some(Method::Get)
    } else if token == "post"@ {
        Some(Method::Post)
    } else if token == "put"@ {
        Some(Method::Put)
    } else if token == "delete"@ {
        Some(Method::Delete)
    } else if token == "patch"@ {
        Some(Method::Patch)
    } else {
        None
    }
}

impl Method {
    /// The lowercase token by which the method is written in documents, in
    /// the store and on the wire.
    pub open spec fn token(self) -> Seq<char> {
        match self {
            Method::Get => "get"@,
            Method::Post => "post"@,
            Method::Put => "put"@,
            Method::Delete => "delete"@,
            Method::Patch => "patch"@,
        }
    }

    /// The method's lowercase token.
    pub fn as_str(&self) -> (r: &'static str)
        ensures
            r@ == self.token(),
    {
        match self {
            Method::Get => "get",
            Method::Post => "post",
            Method::Put => "put",
            Method::Delete => "delete",
            Method::Patch => "patch",
        }
    }

    /// The method's lowercase token, as an owned string.
    pub fn to_string(&self) -> (r: String)
        ensures
            r@ == self.token(),
    {
        self.as_str().to_owned()
    }

    /// Reads a method from its lowercase token. Any other text is rejected
    /// with `unknown method: <text>`.
    pub fn try_from(value: &str) -> (r: Result<Method, String>)
        ensures
            match r {
                Ok(m) => method_of_token(value@) == Some(m),
                Err(e) => method_of_token(value@) is None && e@ == "unknown method: "@ + value@,
            },
    {
        if str_eq(value, "get") {
            Ok(Method::Get)
        } else if str_eq(value, "post") {
            Ok(Method::Post)
        } else if str_eq(value, "put") {
            Ok(Method::Put)
        } else if str_eq(value, "delete") {
            Ok(Method::Delete)
        } else if str_eq(value, "patch") {
            Ok(Method::Patch)
        } else {
            Err(join2("unknown method: ", value))
        }
    }
}

/// Reading a method's own token gives the method back: the five tokens are
/// pairwise different.
pub proof fn lemma_token_round_trip(m: Method)
    ensures
        method_of_token(m.token()) == Some(m),
{
    reveal_strlit("get");
    reveal_strlit("post");
    reveal_strlit("put");
    reveal_strlit("delete");
    reveal_strlit("patch");
    assert("get"@.len() == 3 && "get"@[0] == 'g');
    assert("put"@.len() == 3 && "put"@[0] == 'p');
    assert("post"@.len() == 4);
    assert("patch"@.len() == 5);
    assert("delete"@.len() == 6);
}

} // verus!
