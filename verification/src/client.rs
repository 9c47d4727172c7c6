//! The client facade: base URL, the fixed header set, and the cached
//! runtime catalog.

use vstd::prelude::*;
use vstd::string::StringExecFns;

use crate::Runtime;
use crate::RuntimeView;

verus! {

/// An ordered set of HTTP header (name, value) pairs.
#[derive(Debug)]
pub struct Headers {
    /// The header pairs, in insertion order.
    pub entries: Vec<(String, String)>,
}

impl View for Headers {
    type V = Seq<(Seq<char>, Seq<char>)>;

    open spec fn view(&self) -> Seq<(Seq<char>, Seq<char>)> {
        self.entries@.map_values(|e: (String, String)| (e.0@, e.1@))
    }
}

/// The value of the first entry carrying the given name, if any.
pub open spec fn header_lookup(h: Seq<(Seq<char>, Seq<char>)>, name: Seq<char>) -> Option<
    Seq<char>,
>
    decreases h.len(),
{
    if h.len() == 0 {
        None
    } else if h[0].0 == name {
        Some(h[0].1)
    } else {
        header_lookup(h.drop_first(), name)
    }
}

impl Headers {
    /// Whether some entry carries the given header name.
    pub fn contains_key(&self, name: &str) -> (b: bool)
        ensures
            b == (header_lookup(self@, name@) is Some),
    {
        let key = String::from_str(name);
        let mut i: usize = 0;
        let n = self.entries.len();
        proof {
            assert(self@.subrange(0, n as int) =~= self@);
        }
        while i < n
            invariant
                n == self.entries@.len(),
                i <= n,
                key@ == name@,
                header_lookup(self@, name@) == header_lookup(
                    self@.subrange(i as int, n as int),
                    name@,
                ),
            decreases n - i,
        {
            proof {
                assert(self@.subrange(i as int, n as int)[0] == self@[i as int]);
            }
            if self.entries[i].0 == key {
                return true;
            }
            proof {
                assert(self@.subrange(i as int, n as int).drop_first() =~= self@.subrange(
                    i as int + 1,
                    n as int,
                ));
            }
            i = i + 1;
        }
        proof {
            assert(self@.subrange(n as int, n as int).len() == 0);
        }
        false
    }

    /// The value of the first entry carrying the given header name,
    /// if any.
    pub fn get(&self, name: &str) -> (r: Option<String>)
        ensures
            match r {
                Some(v) => header_lookup(self@, name@) == Some(v@),
                None => header_lookup(self@, name@) is None,
            },
    {
        let key = String::from_str(name);
        let mut i: usize = 0;
        let n = self.entries.len();
        proof {
            assert(self@.subrange(0, n as int) =~= self@);
        }
        while i < n
            invariant
                n == self.entries@.len(),
                i <= n,
                key@ == name@,
                header_lookup(self@, name@) == header_lookup(
                    self@.subrange(i as int, n as int),
                    name@,
                ),
            decreases n - i,
        {
            proof {
                assert(self@.subrange(i as int, n as int)[0] == self@[i as int]);
            }
            if self.entries[i].0 == key {
                return Some(self.entries[i].1.clone());
            }
            proof {
                assert(self@.subrange(i as int, n as int).drop_first() =~= self@.subrange(
                    i as int + 1,
                    n as int,
                ));
            }
            i = i + 1;
        }
        proof {
            assert(self@.subrange(n as int, n as int).len() == 0);
        }
        None
    }
}

/// The fixed headers every request carries: content negotiation and an
/// identifying user agent.
pub open spec fn base_headers() -> Seq<(Seq<char>, Seq<char>)> {
    seq![("Accept"@, "application/json"@), ("User-Agent"@, "piston-rs"@)]
}

/// The header set for a client: the base headers, plus an
/// authorization entry carrying the key verbatim when one is given.
pub open spec fn headers_for(key: Option<&str>) -> Seq<(Seq<char>, Seq<char>)> {
    match key {
        None => base_headers(),
        Some(k) => base_headers().push(("Authorization"@, k@)),
    }
}

/// What the header set holds: without a key it carries the content
/// negotiation and user agent entries and no authorization entry;
/// with a key it carries the same two and an authorization entry with
/// the key verbatim.
pub proof fn lemma_header_assembly(key: &str)
    ensures
        header_lookup(headers_for(None), "Accept"@) == Some("application/json"@),
        header_lookup(headers_for(None), "User-Agent"@) == Some("piston-rs"@),
        header_lookup(headers_for(None), "Authorization"@) is None,
        header_lookup(headers_for(Some(key)), "Accept"@) == Some("application/json"@),
        header_lookup(headers_for(Some(key)), "User-Agent"@) == Some("piston-rs"@),
        header_lookup(headers_for(Some(key)), "Authorization"@) == Some(key@),
{
    reveal_strlit("Accept");
    reveal_strlit("User-Agent");
    reveal_strlit("Authorization");
    reveal_with_fuel(header_lookup, 5);
    let base = base_headers();
    let with = base.push(("Authorization"@, key@));
    assert(base.drop_first() =~= seq![("User-Agent"@, "piston-rs"@)]);
    assert(base.drop_first().drop_first() =~= Seq::<(Seq<char>, Seq<char>)>::empty());
    assert(with.drop_first() =~= seq![("User-Agent"@, "piston-rs"@)].push(
        ("Authorization"@, key@),
    ));
    assert(with.drop_first().drop_first() =~= seq![("Authorization"@, key@)]);
    assert("Accept"@.len() == 6 && "User-Agent"@.len() == 10 && "Authorization"@.len() == 13);
}

/// The base URL of the Piston V2 API.
pub open spec fn piston_url() -> Seq<char> {
    "https://emkc.org/api/v2/piston"@
}

/// A client used to build requests against the remote service: it
/// owns the base URL, the fixed header set, and the runtime catalog
/// last stored, replaced wholesale whenever it is fetched anew.
#[derive(Debug)]
pub struct Client {
    url: String,
    headers: Headers,
    runtimes: Vec<Runtime>,
}

/// The mathematical value of a [`Client`].
#[verifier::ext_equal]
pub struct ClientView {
    pub url: Seq<char>,
    pub headers: Seq<(Seq<char>, Seq<char>)>,
    pub runtimes: Seq<RuntimeView>,
}

impl View for Client {
    type V = ClientView;

    closed spec fn view(&self) -> ClientView {
        ClientView {
            url: self.url@,
            headers: self.headers@,
            runtimes: self.runtimes@.map_values(|r: Runtime| r@),
        }
    }
}

impl Default for Client {
    /// Creates a new client without credentials. Alias for
    /// [`Client::new`].
    fn default() -> (c: Self)
        ensures
            c@.url == piston_url(),
            c@.headers == headers_for(None),
            c@.runtimes.len() == 0,
    {
        Client::new()
    }
}

impl Client {
    /// Generates the headers a client constructed with the given
    /// optional key uses; see [`headers_for`].
    pub fn generate_headers(key: Option<&str>) -> (h: Headers)
        ensures
            h@ == headers_for(key),
    {
        let mut entries: Vec<(String, String)> = Vec::new();
        entries.push((String::from_str("Accept"), String::from_str("application/json")));
        entries.push((String::from_str("User-Agent"), String::from_str("piston-rs")));
        if let Some(k) = key {
            entries.push((String::from_str("Authorization"), String::from_str(k)));
        }
        let h = Headers { entries };
        proof {
            assert(h@ =~= headers_for(key));
        }
        h
    }

    /// Creates a new client without credentials: no authorization
    /// header is sent.
    pub fn new() -> (c: Self)
        ensures
            c@.url == piston_url(),
            c@.headers == headers_for(None),
            c@.runtimes.len() == 0,
    {
        let c = Client {
            url: String::from_str("https://emkc.org/api/v2/piston"),
            headers: Client::generate_headers(None),
            runtimes: Vec::new(),
        };
        proof {
            assert(c@.runtimes =~= Seq::<RuntimeView>::empty());
        }
        c
    }

    /// Creates a new client that sends the given API key verbatim in
    /// an authorization header.
    pub fn with_key(key: &str) -> (c: Self)
        ensures
            c@.url == piston_url(),
            c@.headers == headers_for(Some(key)),
            c@.runtimes.len() == 0,
    {
        let c = Client {
            url: String::from_str("https://emkc.org/api/v2/piston"),
            headers: Client::generate_headers(Some(key)),
            runtimes: Vec::new(),
        };
        proof {
            assert(c@.runtimes =~= Seq::<RuntimeView>::empty());
        }
        c
    }

    /// The base URL this client sends requests to.
    pub fn get_url(&self) -> (u: String)
        ensures
            u@ == self@.url,
    {
        self.url.clone()
    }

    /// A copy of the headers this client sends with each request.
    pub fn get_headers(&self) -> (h: Headers)
        ensures
            h@ == self@.headers,
    {
        let mut entries: Vec<(String, String)> = Vec::new();
        let n = self.headers.entries.len();
        let mut i: usize = 0;
        while i < n
            invariant
                n == self.headers.entries@.len(),
                i <= n,
                entries@.len() == i as int,
                forall|j: int| 0 <= j < i as int ==> entries@[j] == self.headers.entries@[j],
            decreases n - i,
        {
            let name = self.headers.entries[i].0.clone();
            let value = self.headers.entries[i].1.clone();
            entries.push((name, value));
            i = i + 1;
        }
        proof {
            assert(entries@ =~= self.headers.entries@);
        }
        let h = Headers { entries };
        proof {
            assert(h@ =~= self@.headers);
        }
        h
    }

    /// Replaces the stored runtime catalog with the given one,
    /// discarding whatever was stored before: two stores in a row
    /// leave exactly the second catalog, never an accumulation.
    pub fn store_runtimes(&mut self, runtimes: Vec<Runtime>)
        ensures
            final(self)@ == (ClientView {
                runtimes: runtimes@.map_values(|r: Runtime| r@),
                ..old(self)@
            }),
    {
        self.runtimes = runtimes;
    }

    /// The runtime catalog last stored on this client.
    pub fn get_runtimes(&self) -> (r: &Vec<Runtime>)
        ensures
            r@.map_values(|rt: Runtime| rt@) == self@.runtimes,
    {
        &self.runtimes
    }
}

} // verus!
