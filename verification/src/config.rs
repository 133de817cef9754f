//! Persisted host/port and launch-mode settings.

use vstd::prelude::*;
use vstd::string::*;
use crate::numbers::{decimal, decimal_of};
use crate::text::{
    chars_of, first_word, opt_view, first_word_of, has_char, has_ws, is_text, push_chars, push_str,
    leading_word, starts_with, starts_with_of, slice_of, string_of, trim, trim_end, trim_of, trim_start,
};

verus! {

/// How the shell reaches DSH web.
#[derive(Debug, Clone, Copy, PartialEq, Eq, Structural)]
pub enum LaunchMode {
    /// Spawn a local dsh web process.
    Local,
    /// Navigate to an already-running server.
    Connect,
}

/// Settings stored in the Tauri store as config.
#[derive(Debug, Clone)]
pub struct DshConfig {
    /// Bind or connect host.
    pub host: String,
    /// Listen or connect port. 0 asks the OS for a free port on local launch.
    pub port: u16,
    /// Start or connect automatically when the window opens.
    pub auto_start: bool,
    /// Spawn locally, or only navigate.
    pub launch_mode: LaunchMode,
}

impl Default for DshConfig {
    fn default() -> (r: Self)
        ensures
            r.host@ == "127.0.0.1"@,
            r.port == 3080,
            r.auto_start,
            r.launch_mode == LaunchMode::Local,
    {
        DshConfig {
            host: String::from_str("127.0.0.1"),
            port: 3080,
            auto_start: true,
            launch_mode: LaunchMode::Local,
        }
    }
}

/// The text holds a whitespace character.
pub open spec fn holds_ws(s: Seq<char>) -> bool {
    exists|t: int| 0 <= t < s.len() && crate::text::is_ws(#[trigger] s[t])
}

/// Why `validate` rejects a configuration, or `None` when it accepts it.
pub open spec fn config_error(c: DshConfig) -> Option<Seq<char>> {
    let host = trim(c.host@);
    if host.len() == 0 {
        Some("host must not be empty"@)
    } else if holds_ws(host) || host.contains('/') || host.contains(':') {
        Some("host must be a hostname or IPv4 literal, without a scheme or port"@)
    } else if c.launch_mode == LaunchMode::Local && host == "0.0.0.0"@ {
        Some("host 0.0.0.0 is not supported: dsh web refuses all-interfaces binds; use 127.0.0.1"@)
    } else if c.launch_mode == LaunchMode::Connect && c.port == 0 {
        Some("connect mode needs an explicit nonzero port"@)
    } else {
        None
    }
}

/// What `validate` lets through: a trimmed host that is not empty and holds no
/// whitespace, no `/` and no `:` (no scheme, path or port); never `0.0.0.0` for a
/// local launch; always a nonzero port in connect mode.
pub proof fn law_accepted_config(c: DshConfig)
    requires
        config_error(c) is None,
    ensures
        trim(c.host@).len() > 0,
        forall|k: int| 0 <= k < trim(c.host@).len() ==> {
            let ch = #[trigger] trim(c.host@)[k];
            ch != '/' && ch != ':' && !crate::text::is_ws(ch)
        },
        c.launch_mode == LaunchMode::Local ==> trim(c.host@) != "0.0.0.0"@,
        c.launch_mode == LaunchMode::Connect ==> c.port != 0,
{
    let host = trim(c.host@);
    assert forall|k: int| 0 <= k < host.len() implies {
        let ch = #[trigger] host[k];
        ch != '/' && ch != ':' && !crate::text::is_ws(ch)
    } by {
        assert(!holds_ws(host));
        assert(!host.contains('/'));
        assert(!host.contains(':'));
    }
}

/// `http://host:port/` for the trimmed host.
pub open spec fn url_for(host: Seq<char>, port: u16) -> Seq<char> {
    "http://"@ + trim(host) + ":"@ + decimal(port as nat) + "/"@
}

/// Error text of `web_url` while the port is still 0.
pub open spec fn unassigned_port_error() -> Seq<char> {
    "cannot build a URL until dsh web reports its assigned port"@
}

impl DshConfig {
    /// Reject values the shell or dsh web cannot use.
    pub fn validate(&self) -> (r: Result<(), String>)
        ensures
            match r {
                Ok(()) => config_error(*self) is None,
                Err(e) => config_error(*self) == Some(e@),
            },
    {
        let host = trim_of(&chars_of(self.host.as_str()));
        if host.len() == 0 {
            return Err(String::from_str("host must not be empty"));
        }
        if has_ws(&host) || has_char(&host, '/') || has_char(&host, ':') {
            return Err(
                String::from_str("host must be a hostname or IPv4 literal, without a scheme or port"),
            );
        }
        if self.launch_mode == LaunchMode::Local && is_text(&host, "0.0.0.0") {
            return Err(
                String::from_str(
                    "host 0.0.0.0 is not supported: dsh web refuses all-interfaces binds; use 127.0.0.1",
                ),
            );
        }
        if self.launch_mode == LaunchMode::Connect && self.port == 0 {
            return Err(String::from_str("connect mode needs an explicit nonzero port"));
        }
        Ok(())
    }

    /// http://host:port/ for a concrete port.
    pub fn web_url(&self) -> (r: Result<String, String>)
        ensures
            match r {
                Ok(u) => self.port != 0 && u@ == url_for(self.host@, self.port),
                Err(e) => self.port == 0 && e@ == unassigned_port_error(),
            },
    {
        if self.port == 0 {
            return Err(String::from_str("cannot build a URL until dsh web reports its assigned port"));
        }
        let mut url: Vec<char> = Vec::new();
        push_str(&mut url, "http://");
        push_chars(&mut url, &trim_of(&chars_of(self.host.as_str())));
        push_str(&mut url, ":");
        push_chars(&mut url, &decimal_of(self.port as u64));
        push_str(&mut url, "/");
        Ok(string_of(&url))
    }
}

/// The listen URL that a `dsh web` stdout line announces, if any.
pub open spec fn ready_url(line: Seq<char>) -> Option<Seq<char>> {
    let t = trim(line);
    let prefix = "dsh web: "@;
    if !starts_with(t, prefix) {
        None
    } else {
        match first_word(t.subrange(prefix.len() as int, t.len() as int)) {
            None => None,
            Some(url) => if starts_with(url, "http://"@) || starts_with(url, "https://"@) {
                Some(url)
            } else {
                None
            },
        }
    }
}

/// Extract the listen URL from one dsh web stdout line.
pub fn parse_ready_line(line: &str) -> (r: Option<String>)
    ensures
        opt_view(r) == ready_url(line@),
{
    let t = trim_of(&chars_of(line));
    let prefix = chars_of("dsh web: ");
    if !starts_with_of(&t, &prefix) {
        return None;
    }
    let rest = slice_of(&t, prefix.len(), t.len());
    let url = match first_word_of(&rest) {
        Some(u) => u,
        None => return None,
    };
    if starts_with_of(&url, &chars_of("http://")) || starts_with_of(&url, &chars_of("https://")) {
        Some(string_of(&url))
    } else {
        None
    }
}

/// --host / --port suffix after the launcher tokens.
pub fn web_launch_args(host: &str, port: u16) -> (r: [String; 4])
    ensures
        r@[0]@ == "--host"@,
        r@[1]@ == host@,
        r@[2]@ == "--port"@,
        r@[3]@ == decimal(port as nat),
{
    [
        String::from_str("--host"),
        String::from_str(host),
        String::from_str("--port"),
        string_of(&decimal_of(port as u64)),
    ]
}

} // verus!

verus! {

proof fn lemma_trim_end_keeps(a: Seq<char>, b: Seq<char>)
    requires
        a.len() > 0,
        !crate::text::is_ws(a.last()),
    ensures
        trim_end(a + b) == a + trim_end(b),
    decreases b.len(),
{
    let ab = a + b;
    if b.len() > 0 && crate::text::is_ws(b.last()) {
        assert(ab.last() == b.last());
        assert(ab.drop_last() =~= a + b.drop_last());
        lemma_trim_end_keeps(a, b.drop_last());
    } else {
        assert(ab.last() == if b.len() > 0 { b.last() } else { a.last() });
    }
}

proof fn lemma_trim_end_first(b: Seq<char>)
    ensures
        trim_end(b).len() <= b.len(),
        trim_end(b) == b.subrange(0, trim_end(b).len() as int),
    decreases b.len(),
{
    if b.len() > 0 && crate::text::is_ws(b.last()) {
        lemma_trim_end_first(b.drop_last());
        assert(b.drop_last().subrange(0, trim_end(b).len() as int) =~= b.subrange(0, trim_end(b).len() as int));
    } else {
        assert(b.subrange(0, b.len() as int) =~= b);
    }
}

proof fn lemma_leading_word_of(u: Seq<char>, w: Seq<char>)
    requires
        forall|i: int| 0 <= i < u.len() ==> !crate::text::is_ws(#[trigger] u[i]),
        w.len() == 0 || crate::text::is_ws(w[0]),
    ensures
        leading_word(u + w) == u.len(),
    decreases u.len(),
{
    if u.len() > 0 {
        assert((u + w)[0] == u[0]);
        assert((u + w).drop_first() =~= u.drop_first() + w);
        lemma_leading_word_of(u.drop_first(), w);
    } else {
        assert(u + w =~= w);
    }
}

/// A `dsh web: <url>` line, optionally followed by more text after whitespace,
/// announces exactly `<url>` when it is an http(s) URL without whitespace.
pub proof fn law_ready_line_reads_announced_url(url: Seq<char>, tail: Seq<char>)
    requires
        starts_with(url, "http://"@) || starts_with(url, "https://"@),
        forall|i: int| 0 <= i < url.len() ==> !crate::text::is_ws(#[trigger] url[i]),
        tail.len() == 0 || crate::text::is_ws(tail[0]),
    ensures
        ready_url("dsh web: "@ + url + tail) == Some(url),
{
    reveal_strlit("dsh web: ");
    reveal_strlit("http://");
    reveal_strlit("https://");
    let prefix = "dsh web: "@;
    let line = prefix + url + tail;
    assert(url.len() >= 7);
    assert(line[0] == 'd');
    assert(trim_start(line) == line);
    let pu = prefix + url;
    assert(pu.last() == url.last());
    lemma_trim_end_keeps(pu, tail);
    assert(line =~= pu + tail);
    let t = pu + trim_end(tail);
    assert(trim(line) == t);
    assert(t.subrange(0, prefix.len() as int) =~= prefix);
    let rest = t.subrange(prefix.len() as int, t.len() as int);
    let w = trim_end(tail);
    assert(rest =~= url + w);
    lemma_trim_end_first(tail);
    if w.len() > 0 {
        assert(w[0] == tail[0]);
    }
    if starts_with(url, "http://"@) {
        assert(url[0] == url.subrange(0, 7)[0]);
    } else {
        assert(url[0] == url.subrange(0, 8)[0]);
    }
    assert(url[0] == 'h');
    assert(rest[0] == 'h');
    assert(trim_start(rest) == rest);
    lemma_leading_word_of(url, w);
    assert(rest.subrange(0, url.len() as int) =~= url);
}

} // verus!

verus! {

/// The URL of a configuration that `validate` accepts, with a concrete port, is read
/// back from a ready line that announces it.
pub proof fn law_ready_line_reads_config_url(c: DshConfig, tail: Seq<char>)
    requires
        config_error(c) is None,
        c.port != 0,
        tail.len() == 0 || crate::text::is_ws(tail[0]),
    ensures
        ready_url("dsh web: "@ + url_for(c.host@, c.port) + tail) == Some(url_for(c.host@, c.port)),
{
    reveal_strlit("http://");
    reveal_strlit(":");
    reveal_strlit("/");
    let host = trim(c.host@);
    let d = decimal(c.port as nat);
    crate::numbers::lemma_decimal(c.port as nat);
    let u = url_for(c.host@, c.port);
    assert(u =~= "http://"@ + host + ":"@ + d + "/"@);
    assert forall|i: int| 0 <= i < u.len() implies !crate::text::is_ws(#[trigger] u[i]) by {
        if i < 7 {
            assert(u[i] == "http://"@[i]);
        } else if i < 7 + host.len() {
            assert(u[i] == host[i - 7]);
            if crate::text::is_ws(host[i - 7]) {
                assert(holds_ws(host));
            }
        } else if i < 8 + host.len() {
        } else if i < 8 + host.len() + d.len() {
            assert(u[i] == d[i - 8 - host.len()]);
            assert(crate::numbers::is_digit(d[i - 8 - host.len()]));
        } else {
        }
    }
    assert(u.subrange(0, 7) =~= "http://"@);
    law_ready_line_reads_announced_url(u, tail);
}

} // verus!

verus! {

// ---------------------------------------------------------------- URLs of the running server

/// `url::Url::parse` on `base`, then `Url::set_query(Some(query))`, read back as text;
/// or the parse error's message.
pub uninterp spec fn url_with_query_of(base: Seq<char>, query: Seq<char>) -> Result<Seq<char>, Seq<char>>;

/// `url::Url::parse` on `url`, then `Url::host_str` and `Url::port_or_known_default`;
/// `None` when the text does not parse or either is missing.
pub uninterp spec fn url_host_port_of(url: Seq<char>) -> Option<(Seq<char>, u16)>;

/// `Url::parse(base)`, `Url::set_query(Some(query))` and `Url::to_string`. What comes
/// back depends on the two texts alone; it is named here, not described.
#[verifier::external_body]
fn url_with_query(base: &str, query: &str) -> (r: Result<String, String>)
    ensures
        match r {
            Ok(u) => url_with_query_of(base@, query@) == Ok::<Seq<char>, Seq<char>>(u@),
            Err(e) => url_with_query_of(base@, query@) == Err::<Seq<char>, Seq<char>>(e@),
        },
{
    match url::Url::parse(base) {
        Ok(mut parsed) => {
            parsed.set_query(Some(query));
            Ok(parsed.to_string())
        },
        Err(error) => Err(error.to_string()),
    }
}

/// `Url::parse(url)`, `Url::host_str` and `Url::port_or_known_default`. What comes
/// back depends on the text alone; it is named here, not described.
#[verifier::external_body]
fn url_host_port(url: &str) -> (r: Option<(String, u16)>)
    ensures
        match r {
            Some((host, port)) => url_host_port_of(url@) == Some((host@, port)),
            None => url_host_port_of(url@) is None,
        },
{
    let parsed = url::Url::parse(url).ok()?;
    let host = parsed.host_str()?.to_string();
    let port = parsed.port_or_known_default()?;
    Some((host, port))
}

/// The address of the web UI's settings page: `base` with the query `settings=1`.
pub fn settings_page_url(base: &str) -> (r: Result<String, String>)
    ensures
        match r {
            Ok(u) => url_with_query_of(base@, "settings=1"@) == Ok::<Seq<char>, Seq<char>>(u@),
            Err(e) => url_with_query_of(base@, "settings=1"@) == Err::<Seq<char>, Seq<char>>(e@),
        },
{
    url_with_query(base, "settings=1")
}

/// Host and port to ask for the index page of the server at `url`.
pub fn index_target(url: &str) -> (r: Option<(String, u16)>)
    ensures
        match r {
            Some((host, port)) => url_host_port_of(url@) == Some((host@, port)),
            None => url_host_port_of(url@) is None,
        },
{
    url_host_port(url)
}

/// The HTTP request for the index page of `host:port`.
pub open spec fn index_request_text(host: Seq<char>, port: u16) -> Seq<char> {
    "GET / HTTP/1.1\r\nHost: "@ + host + ":"@ + decimal(port as nat)
        + "\r\nConnection: close\r\nAccept: text/html\r\n\r\n"@
}

/// `GET /` for `host:port`, closing the connection after the answer.
pub fn index_request(host: &str, port: u16) -> (r: String)
    ensures
        r@ == index_request_text(host@, port),
{
    let mut out: Vec<char> = Vec::new();
    push_str(&mut out, "GET / HTTP/1.1\r\nHost: ");
    push_str(&mut out, host);
    push_str(&mut out, ":");
    push_chars(&mut out, &decimal_of(port as u64));
    push_str(&mut out, "\r\nConnection: close\r\nAccept: text/html\r\n\r\n");
    string_of(out.as_slice())
}

} // verus!
