//! URL splitter for the `http` scheme: host, port, path and searchpart of
//! an absolute URL, with defaults for the parts that are absent.

use vstd::prelude::*;

use crate::chars::{chars_to_string, find_char, find_char_vec, str_to_chars, sub_vec};

verus! {

/// The scheme prefix this splitter accepts.
pub open spec fn http_prefix() -> Seq<char> {
    "http://"@
}

/// `s` begins with `http://`.
pub open spec fn has_http_scheme(s: Seq<char>) -> bool {
    s.len() >= 7 && s.take(7) == http_prefix()
}

/// `s` with every leading repetition of `http://` removed, as
/// `str::trim_start_matches` leaves it.
pub open spec fn strip_scheme(s: Seq<char>) -> Seq<char>
    decreases s.len(),
{
    if s.len() >= 7 && s.take(7) == http_prefix() {
        strip_scheme(s.skip(7))
    } else {
        s
    }
}

/// The authority: the stripped URL up to its first `/`, or all of it.
pub open spec fn authority_of(s: Seq<char>) -> Seq<char> {
    let t = strip_scheme(s);
    match find_char(t, '/') {
        Some(i) => t.take(i),
        None => t,
    }
}

/// What follows the first `/` of the stripped URL, if any.
pub open spec fn tail_of(s: Seq<char>) -> Option<Seq<char>> {
    let t = strip_scheme(s);
    match find_char(t, '/') {
        Some(i) => Some(t.skip(i + 1)),
        None => None,
    }
}

/// The host: the authority up to its first `:`, or all of it.
pub open spec fn host_of(s: Seq<char>) -> Seq<char> {
    let a = authority_of(s);
    match find_char(a, ':') {
        Some(i) => a.take(i),
        None => a,
    }
}

/// The port: what follows the first `:` of the authority, or `80`.
pub open spec fn port_of(s: Seq<char>) -> Seq<char> {
    let a = authority_of(s);
    match find_char(a, ':') {
        Some(i) => a.skip(i + 1),
        None => "80"@,
    }
}

/// The path: the tail up to its first `?`, or all of it; empty without a
/// tail.
pub open spec fn path_of(s: Seq<char>) -> Seq<char> {
    match tail_of(s) {
        None => Seq::empty(),
        Some(t) => match find_char(t, '?') {
            Some(i) => t.take(i),
            None => t,
        },
    }
}

/// The searchpart: what follows the first `?` of the tail; empty without a
/// tail or without a `?`.
pub open spec fn searchpart_of(s: Seq<char>) -> Seq<char> {
    match tail_of(s) {
        None => Seq::empty(),
        Some(t) => match find_char(t, '?') {
            Some(i) => t.skip(i + 1),
            None => Seq::empty(),
        },
    }
}

/// Mathematical image of a [`Url`].
pub struct UrlModel {
    pub url: Seq<char>,
    pub host: Seq<char>,
    pub port: Seq<char>,
    pub path: Seq<char>,
    pub searchpart: Seq<char>,
}

/// An absolute URL and, once [`Url::parse`] has run, its parts.
#[derive(Debug, Clone, PartialEq)]
pub struct Url {
    url: String,
    host: String,
    port: String,
    path: String,
    searchpart: String,
}

impl View for Url {
    type V = UrlModel;

    closed spec fn view(&self) -> UrlModel {
        UrlModel {
            url: self.url@,
            host: self.host@,
            port: self.port@,
            path: self.path@,
            searchpart: self.searchpart@,
        }
    }
}

/// True when `v` holds `http://` at index `start`.
fn has_prefix_at(v: &Vec<char>, start: usize) -> (r: bool)
    requires
        start <= v.len(),
    ensures
        r == (v@.len() - start >= 7 && v@.skip(start as int).take(7) == http_prefix()),
{
    proof {
        reveal_strlit("http://");
    }
    if v.len() - start >= 7 {
        let r = v[start] == 'h' && v[start + 1] == 't' && v[start + 2] == 't' && v[start + 3]
            == 'p' && v[start + 4] == ':' && v[start + 5] == '/' && v[start + 6] == '/';
        proof {
            let t = v@.skip(start as int).take(7);
            assert(forall|k: int| 0 <= k < 7 ==> t[k] == v@[start + k]);
            if r {
                assert(t =~= http_prefix());
            } else if t == http_prefix() {
                assert(t[0] == 'h' && t[1] == 't' && t[2] == 't' && t[3] == 'p' && t[4] == ':'
                    && t[5] == '/' && t[6] == '/');
                assert(false);
            }
        }
        r
    } else {
        false
    }
}

/// `v` with every leading repetition of `http://` removed.
fn strip_scheme_vec(v: &Vec<char>) -> (r: Vec<char>)
    ensures
        r@ == strip_scheme(v@),
{
    let mut start: usize = 0;
    proof {
        assert(v@.skip(0) =~= v@);
    }
    while has_prefix_at(v, start)
        invariant
            start <= v.len(),
            strip_scheme(v@) == strip_scheme(v@.skip(start as int)),
        decreases v.len() - start,
    {
        proof {
            assert(v@.skip(start as int).skip(7) =~= v@.skip(start + 7));
        }
        start = start + 7;
    }
    sub_vec(v, start, v.len())
}

impl Url {
    /// The host part found by the last [`Url::parse`].
    pub fn host(&self) -> (r: String)
        ensures
            r@ == self@.host,
    {
        self.host.clone()
    }

    /// The port part found by the last [`Url::parse`].
    pub fn port(&self) -> (r: String)
        ensures
            r@ == self@.port,
    {
        self.port.clone()
    }

    /// The path part found by the last [`Url::parse`].
    pub fn path(&self) -> (r: String)
        ensures
            r@ == self@.path,
    {
        self.path.clone()
    }

    /// The searchpart found by the last [`Url::parse`].
    pub fn searchpart(&self) -> (r: String)
        ensures
            r@ == self@.searchpart,
    {
        self.searchpart.clone()
    }

    /// A URL holder over `url`, with all parts still empty.
    pub fn new(url: String) -> (r: Self)
        ensures
            r@.url == url@,
            r@.host == Seq::<char>::empty(),
            r@.port == Seq::<char>::empty(),
            r@.path == Seq::<char>::empty(),
            r@.searchpart == Seq::<char>::empty(),
    {
        Url {
            url,
            host: String::new(),
            port: String::new(),
            path: String::new(),
            searchpart: String::new(),
        }
    }

    /// Splits the URL. For a `http://` URL the four parts are filled in as
    /// the spec functions [`host_of`], [`port_of`], [`path_of`] and
    /// [`searchpart_of`] state, and a copy of the filled holder is
    /// returned; any other scheme leaves the holder unchanged and is
    /// rejected with a scheme-not-supported error.
    pub fn parse(&mut self) -> (r: Result<Url, String>)
        ensures
            has_http_scheme(old(self)@.url) ==> ({
                &&& final(self)@.url == old(self)@.url
                &&& final(self)@.host == host_of(old(self)@.url)
                &&& final(self)@.port == port_of(old(self)@.url)
                &&& final(self)@.path == path_of(old(self)@.url)
                &&& final(self)@.searchpart == searchpart_of(old(self)@.url)
                &&& (r matches Ok(u) && u@ == final(self)@)
            }),
            !has_http_scheme(old(self)@.url) ==> ({
                &&& final(self)@ == old(self)@
                &&& (r matches Err(e) && e@ == "Only HTTP scheme is supported"@)
            }),
    {
        if !self.is_http() {
            return Err(String::from_str("Only HTTP scheme is supported"));
        }
        self.host = self.extract_host();
        self.port = self.extract_port();
        self.path = self.extract_path();
        self.searchpart = self.extract_searchpart();
        Ok(
            Url {
                url: self.url.clone(),
                host: self.host.clone(),
                port: self.port.clone(),
                path: self.path.clone(),
                searchpart: self.searchpart.clone(),
            },
        )
    }

    /// The URL begins with the one supported scheme.
    fn is_http(&mut self) -> (r: bool)
        ensures
            final(self)@ == old(self)@,
            r == has_http_scheme(old(self)@.url),
    {
        let v = str_to_chars(self.url.as_str());
        proof {
            assert(v@.skip(0) =~= v@);
            assert(v@.take(7) =~= v@.skip(0).take(7));
        }
        has_prefix_at(&v, 0)
    }

    /// The host part of the URL.
    fn extract_host(&self) -> (r: String)
        ensures
            r@ == host_of(self@.url),
    {
        let v = str_to_chars(self.url.as_str());
        let t = strip_scheme_vec(&v);
        let authority = match find_char_vec(&t, '/', 0) {
            Some(i) => sub_vec(&t, 0, i),
            None => sub_vec(&t, 0, t.len()),
        };
        proof {
            lemma_skip0_take(t@);
        }
        let host = match find_char_vec(&authority, ':', 0) {
            Some(i) => sub_vec(&authority, 0, i),
            None => sub_vec(&authority, 0, authority.len()),
        };
        proof {
            lemma_skip0_take(authority@);
        }
        chars_to_string(&host)
    }

    /// The port part of the URL, `80` when none is written.
    fn extract_port(&self) -> (r: String)
        ensures
            r@ == port_of(self@.url),
    {
        let v = str_to_chars(self.url.as_str());
        let t = strip_scheme_vec(&v);
        let authority = match find_char_vec(&t, '/', 0) {
            Some(i) => sub_vec(&t, 0, i),
            None => sub_vec(&t, 0, t.len()),
        };
        proof {
            lemma_skip0_take(t@);
        }
        match find_char_vec(&authority, ':', 0) {
            Some(i) => {
                proof {
                    lemma_skip0_take(authority@);
                    assert(authority@.subrange(i + 1, authority@.len() as int) =~= authority@.skip(
                        i + 1,
                    ));
                }
                let port = sub_vec(&authority, i + 1, authority.len());
                chars_to_string(&port)
            },
            None => {
                proof {
                    lemma_skip0_take(authority@);
                }
                String::from_str("80")
            },
        }
    }

    /// The path part of the URL, empty when none is written.
    fn extract_path(&self) -> (r: String)
        ensures
            r@ == path_of(self@.url),
    {
        let v = str_to_chars(self.url.as_str());
        let t = strip_scheme_vec(&v);
        match find_char_vec(&t, '/', 0) {
            Some(i) => {
                proof {
                    lemma_skip0_take(t@);
                    assert(t@.subrange(i + 1, t@.len() as int) =~= t@.skip(i + 1));
                }
                let tail = sub_vec(&t, i + 1, t.len());
                let path = match find_char_vec(&tail, '?', 0) {
                    Some(j) => sub_vec(&tail, 0, j),
                    None => sub_vec(&tail, 0, tail.len()),
                };
                proof {
                    lemma_skip0_take(tail@);
                }
                chars_to_string(&path)
            },
            None => {
                proof {
                    lemma_skip0_take(t@);
                }
                String::new()
            },
        }
    }

    /// The searchpart of the URL, empty when none is written.
    fn extract_searchpart(&self) -> (r: String)
        ensures
            r@ == searchpart_of(self@.url),
    {
        let v = str_to_chars(self.url.as_str());
        let t = strip_scheme_vec(&v);
        match find_char_vec(&t, '/', 0) {
            Some(i) => {
                proof {
                    lemma_skip0_take(t@);
                    assert(t@.subrange(i + 1, t@.len() as int) =~= t@.skip(i + 1));
                }
                let tail = sub_vec(&t, i + 1, t.len());
                match find_char_vec(&tail, '?', 0) {
                    Some(j) => {
                        proof {
                            lemma_skip0_take(tail@);
                            assert(tail@.subrange(j + 1, tail@.len() as int) =~= tail@.skip(j + 1));
                        }
                        let sp = sub_vec(&tail, j + 1, tail.len());
                        chars_to_string(&sp)
                    },
                    None => {
                        proof {
                            lemma_skip0_take(tail@);
                        }
                        String::new()
                    },
                }
            },
            None => {
                proof {
                    lemma_skip0_take(t@);
                }
                String::new()
            },
        }
    }
}

/// Skipping nothing changes nothing, and a subrange from the start is a
/// take.
proof fn lemma_skip0_take(s: Seq<char>)
    ensures
        s.skip(0) == s,
        forall|i: int| 0 <= i <= s.len() ==> s.subrange(0, i) == #[trigger] s.take(i),
{
    assert(s.skip(0) =~= s);
    assert forall|i: int| 0 <= i <= s.len() implies s.subrange(0, i) == #[trigger] s.take(i) by {
        assert(s.subrange(0, i) =~= s.take(i));
    }
}

} // verus!
