//! Requests and replies.

use vstd::prelude::*;

verus! {

/// How this program names itself to servers.
pub const USER_AGENT: &'static str = "uvr/0.1.0";

/// A request to get what a URL names.
#[derive(Debug, PartialEq, Eq)]
pub struct Request {
    pub url: String,
    pub headers: Vec<(String, String)>,
}

/// What a [`Request`] holds.
#[verifier::ext_equal]
pub struct Ask {
    pub url: Seq<char>,
    pub headers: Seq<(Seq<char>, Seq<char>)>,
}

impl DeepView for Request {
    type V = Ask;

    open spec fn deep_view(&self) -> Ask {
        Ask { url: self.url@, headers: self.headers.deep_view() }
    }
}

impl Request {
    /// A request without headers.
    pub fn get(url: String) -> (r: Self)
        ensures
            r.deep_view() == (Ask { url: url@, headers: seq![] }),
    {
        let r = Request { url, headers: Vec::new() };
        assert(r.headers.deep_view() =~= seq![]);
        r
    }

    /// Adds a header.
    pub fn add_header(&mut self, name: &str, value: &str)
        ensures
            final(self).deep_view() == (Ask {
                url: old(self).url@,
                headers: old(self).headers.deep_view().push((name@, value@)),
            }),
    {
        let ghost before = self.headers.deep_view();
        self.headers.push((name.to_owned(), value.to_owned()));
        assert(self.headers.deep_view() =~= before.push((name@, value@)));
    }
}

/// A status that tells of success.
pub open spec fn is_success(status: u16) -> bool {
    200 <= status <= 299
}

/// What a server replied.
#[derive(Debug, PartialEq, Eq)]
pub struct Reply {
    pub status: u16,
    /// The status as it is shown, such as `404 Not Found`.
    pub status_text: String,
    pub body: String,
}

/// A status of success is one from 200 to 299.
pub proof fn law_success(status: u16)
    ensures
        is_success(status) == (status / 100 == 2),
{
}

} // verus!
