//! `melogold://` links. Parsing only lays a link out in fields. Checking the server's address
//! and everything that goes to the server is the part of the screen that opened the link. A link
//! never signs in or approves anything by itself.
use vstd::prelude::*;
use crate::chars::{
    chars_eq, chars_of, eq_ignore_ascii_case, eq_ignore_case, lit, lower_ascii, lowercase_ascii, slice_chars, string_of,
    trim, trimmed,
};

verus! {

/// A `melogold://` link, laid out.
#[derive(Debug, PartialEq, Eq)]
pub enum MelogoldLink {
    /// `melogold://server?v=1&url=…&sid=…`: the "Server" screen with the address filled in, to confirm.
    Server { url: String, server_id: Option<String> },
    /// `melogold://link?mode=invite…`: "Sign in from another device" with an explicit "Connect" button.
    Invite { server: String, server_id: String, token: String },
    /// `melogold://link?mode=request…`: not carried out, only explained.
    Request { server: String, server_id: String },
    /// Our scheme, but not something we can read: another version, missing fields, an unknown host.
    Unsupported,
}

/// A link as plain values.
pub enum LinkView {
    Server { url: Seq<char>, server_id: Option<Seq<char>> },
    Invite { server: Seq<char>, server_id: Seq<char>, token: Seq<char> },
    Request { server: Seq<char>, server_id: Seq<char> },
    Unsupported,
}

/// What a URL parser reads out of an address: the host, and the query's pairs, percent-decoded.
pub struct UrlParts {
    pub host: Option<String>,
    pub query: Vec<(String, String)>,
}

/// The parts as plain values.
pub open spec fn parts_view(p: UrlParts) -> (Option<Seq<char>>, Seq<(Seq<char>, Seq<char>)>) {
    (
        match p.host {
            Some(h) => Some(h@),
            None => None,
        },
        p.query@.map_values(|kv: (String, String)| (kv.0@, kv.1@)),
    )
}

/// The parts, where the address parsed, as plain values.
pub open spec fn opt_parts_view(p: Option<UrlParts>) -> Option<(Option<Seq<char>>, Seq<(Seq<char>, Seq<char>)>)> {
    match p {
        Some(x) => Some(parts_view(x)),
        None => None,
    }
}

impl MelogoldLink {
    pub open spec fn view(&self) -> LinkView {
        match self {
            MelogoldLink::Server { url, server_id } => LinkView::Server {
                url: url@,
                server_id: match server_id {
                    Some(s) => Some(s@),
                    None => None,
                },
            },
            MelogoldLink::Invite { server, server_id, token } => LinkView::Invite { server: server@, server_id: server_id@, token: token@ },
            MelogoldLink::Request { server, server_id } => LinkView::Request { server: server@, server_id: server_id@ },
            MelogoldLink::Unsupported => LinkView::Unsupported,
        }
    }
}

/// What `url::Url::parse` makes of `text`: `None` where it is no absolute URL, else the host
/// and the decoded query pairs.
pub uninterp spec fn url_parts_of(text: Seq<char>) -> Option<(Option<Seq<char>>, Seq<(Seq<char>, Seq<char>)>)>;

/// `url::Url::parse`, then `host_str` and `query_pairs` of the result. Claimed: the parts are the
/// named function of the text, nothing more.
#[verifier::external_body]
pub(crate) fn parse_url(text: &str) -> (r: Option<UrlParts>)
    ensures
        match r {
            Some(p) => url_parts_of(text@) == Some(parts_view(p)),
            None => url_parts_of(text@) is None,
        },
{
    match url::Url::parse(text) {
        Ok(u) => Some(UrlParts {
            host: u.host_str().map(|h| h.to_string()),
            query: u.query_pairs().map(|(k, v)| (k.into_owned(), v.into_owned())).collect(),
        }),
        Err(_) => None,
    }
}

/// Our scheme at the start of `text`, in any case.
pub open spec fn is_link_text(text: Seq<char>) -> bool {
    let t = trim(text);
    t.len() >= 11 && eq_ignore_case(t.take(11), "melogold://"@)
}

pub fn is_melogold_link(text: &str) -> (r: bool)
    ensures
        r == is_link_text(text@),
{
    let t = trimmed(text);
    proof {
        reveal_strlit("melogold://");
    }
    if t.len() < 11 {
        return false;
    }
    let head = slice_chars(&t, 0, 11);
    assert(head@ =~= t@.take(11));
    eq_ignore_ascii_case(&head, &lit("melogold://"))
}

/// The value of the first query pair named `name`.
pub open spec fn query_value(q: Seq<(Seq<char>, Seq<char>)>, name: Seq<char>) -> Option<Seq<char>>
    decreases q.len(),
{
    if q.len() == 0 {
        None
    } else if q[0].0 == name {
        Some(q[0].1)
    } else {
        query_value(q.drop_first(), name)
    }
}

/// A value, unless it is missing or empty.
pub open spec fn non_empty(v: Option<Seq<char>>) -> Option<Seq<char>> {
    match v {
        Some(s) => if s.len() > 0 { Some(s) } else { None },
        None => None,
    }
}

/// The link that a parsed address stands for.
pub open spec fn link_of(parts: Option<(Option<Seq<char>>, Seq<(Seq<char>, Seq<char>)>)>) -> LinkView {
    match parts {
        None => LinkView::Unsupported,
        Some((host, q)) => if query_value(q, "v"@) matches Some(v) && v != "1"@ {
            LinkView::Unsupported
        } else {
            match host {
                Some(h) => if lower_ascii(h) == "server"@ {
                    match non_empty(query_value(q, "url"@)) {
                        Some(url) => LinkView::Server { url, server_id: non_empty(query_value(q, "sid"@)) },
                        None => LinkView::Unsupported,
                    }
                } else if lower_ascii(h) == "link"@ {
                    match (query_value(q, "mode"@), non_empty(query_value(q, "server"@)), non_empty(query_value(q, "sid"@))) {
                        (Some(mode), Some(server), Some(server_id)) => if mode == "invite"@ {
                            match non_empty(query_value(q, "token"@)) {
                                Some(token) => LinkView::Invite { server, server_id, token },
                                None => LinkView::Unsupported,
                            }
                        } else if mode == "request"@ {
                            LinkView::Request { server, server_id }
                        } else {
                            LinkView::Unsupported
                        },
                        _ => LinkView::Unsupported,
                    }
                } else {
                    LinkView::Unsupported
                },
                None => LinkView::Unsupported,
            }
        },
    }
}

fn query(q: &Vec<(String, String)>, name: &str) -> (r: Option<String>)
    ensures
        match r {
            Some(v) => query_value(q@.map_values(|kv: (String, String)| (kv.0@, kv.1@)), name@) == Some(v@),
            None => query_value(q@.map_values(|kv: (String, String)| (kv.0@, kv.1@)), name@) is None,
        },
{
    let ghost all = q@.map_values(|kv: (String, String)| (kv.0@, kv.1@));
    let n = lit(name);
    let mut i: usize = 0;
    assert(all.skip(0) =~= all);
    while i < q.len()
        invariant
            i <= q.len(),
            all == q@.map_values(|kv: (String, String)| (kv.0@, kv.1@)),
            query_value(all, name@) == query_value(all.skip(i as int), name@),
            n@ == name@,
        decreases q.len() - i,
    {
        assert(all.skip(i as int)[0] == all[i as int]);
        assert(all.skip(i as int).drop_first() =~= all.skip(i + 1));
        let key = chars_of(q[i].0.as_str());
        if chars_eq(&key, &n) {
            return Some(string_of(&chars_of(q[i].1.as_str())));
        }
        i = i + 1;
    }
    None
}

fn non_empty_string(v: Option<String>) -> (r: Option<String>)
    ensures
        match r {
            Some(s) => non_empty(match v {
                Some(t) => Some(t@),
                None => None,
            }) == Some(s@),
            None => non_empty(match v {
                Some(t) => Some(t@),
                None => None,
            }) is None,
        },
{
    match v {
        Some(s) => if chars_of(s.as_str()).len() > 0 { Some(s) } else { None },
        None => None,
    }
}

fn is_text(s: &String, t: &str) -> (r: bool)
    ensures
        r == (s@ == t@),
{
    chars_eq(&chars_of(s.as_str()), &lit(t))
}

/// The link that a parsed address stands for (`None`: the address did not parse).
pub fn link_from_url(parts: Option<UrlParts>) -> (r: MelogoldLink)
    ensures
        r.view() == link_of(match parts {
            Some(p) => Some(parts_view(p)),
            None => None,
        }),
{
    let p = match parts {
        Some(p) => p,
        None => return MelogoldLink::Unsupported,
    };
    let ghost q = parts_view(p).1;
    if let Some(v) = query(&p.query, "v") {
        if !is_text(&v, "1") {
            return MelogoldLink::Unsupported;
        }
    }
    let host = match &p.host {
        Some(h) => lowercase_ascii(&chars_of(h.as_str())),
        None => return MelogoldLink::Unsupported,
    };
    if chars_eq(&host, &lit("server")) {
        match non_empty_string(query(&p.query, "url")) {
            Some(url) => MelogoldLink::Server { url, server_id: non_empty_string(query(&p.query, "sid")) },
            None => MelogoldLink::Unsupported,
        }
    } else if chars_eq(&host, &lit("link")) {
        let mode = query(&p.query, "mode");
        let server = non_empty_string(query(&p.query, "server"));
        let sid = non_empty_string(query(&p.query, "sid"));
        match (mode, server, sid) {
            (Some(mode), Some(server), Some(server_id)) => if is_text(&mode, "invite") {
                match non_empty_string(query(&p.query, "token")) {
                    Some(token) => MelogoldLink::Invite { server, server_id, token },
                    None => MelogoldLink::Unsupported,
                }
            } else if is_text(&mode, "request") {
                MelogoldLink::Request { server, server_id }
            } else {
                MelogoldLink::Unsupported
            },
            _ => MelogoldLink::Unsupported,
        }
    } else {
        MelogoldLink::Unsupported
    }
}

/// Parses `melogold://…`; any other text gives `None`.
pub fn parse(text: &str) -> (r: Option<MelogoldLink>)
    ensures
        match r {
            None => !is_link_text(text@),
            Some(link) => is_link_text(text@) && link.view() == link_of(url_parts_of(trim(text@))),
        },
{
    let t = string_of(&trimmed(text));
    if !is_melogold_link(text) {
        return None;
    }
    Some(link_from_url(parse_url(t.as_str())))
}


/// What text handed to the window (a command-line argument, a second start) opens.
#[derive(Debug, PartialEq, Eq)]
pub enum Opened {
    /// Blank text: nothing.
    Nothing,
    /// A server or invitation link: the "Settings" section and a note naming the server's host.
    ServerLink { host: String },
    /// A request link: explained, not carried out.
    LinkRequest,
    /// Our scheme, but unreadable.
    LinkUnsupported,
    /// Anything else goes to the search field, trimmed.
    Search(String),
}

/// The host of a server's address, or the address itself where it has none.
pub open spec fn host_or_address(url: Seq<char>) -> Seq<char> {
    match url_parts_of(url) {
        Some((Some(h), _)) => h,
        _ => url,
    }
}

/// What text opens, as plain values.
pub enum OpenedView {
    Nothing,
    ServerLink(Seq<char>),
    LinkRequest,
    LinkUnsupported,
    Search(Seq<char>),
}

/// What `text` opens.
pub open spec fn opened_of(text: Seq<char>) -> OpenedView {
    let t = trim(text);
    if t.len() == 0 {
        OpenedView::Nothing
    } else if is_link_text(text) {
        match link_of(url_parts_of(t)) {
            LinkView::Server { url, .. } => OpenedView::ServerLink(host_or_address(url)),
            LinkView::Invite { server, .. } => OpenedView::ServerLink(host_or_address(server)),
            LinkView::Request { .. } => OpenedView::LinkRequest,
            LinkView::Unsupported => OpenedView::LinkUnsupported,
        }
    } else {
        OpenedView::Search(t)
    }
}

impl Opened {
    pub open spec fn view(&self) -> OpenedView {
        match self {
            Opened::Nothing => OpenedView::Nothing,
            Opened::ServerLink { host } => OpenedView::ServerLink(host@),
            Opened::LinkRequest => OpenedView::LinkRequest,
            Opened::LinkUnsupported => OpenedView::LinkUnsupported,
            Opened::Search(t) => OpenedView::Search(t@),
        }
    }
}

fn host_of(url: String) -> (r: String)
    ensures
        r@ == host_or_address(url@),
{
    match parse_url(url.as_str()) {
        Some(parts) => match parts.host {
            Some(h) => h,
            None => url,
        },
        None => url,
    }
}

/// What text handed to the window opens: a `melogold://` link, else a search.
pub fn open_text(text: &str) -> (r: Opened)
    ensures
        r.view() == opened_of(text@),
{
    let t = trimmed(text);
    if t.len() == 0 {
        return Opened::Nothing;
    }
    match parse(text) {
        Some(link) => match link {
            MelogoldLink::Server { url, .. } => Opened::ServerLink { host: host_of(url) },
            MelogoldLink::Invite { server, .. } => Opened::ServerLink { host: host_of(server) },
            MelogoldLink::Request { .. } => Opened::LinkRequest,
            MelogoldLink::Unsupported => Opened::LinkUnsupported,
        },
        None => Opened::Search(string_of(&t)),
    }
}

} // verus!
