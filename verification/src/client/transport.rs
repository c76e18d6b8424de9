//! How a client picks the transport of its control and tunnel channel (TCP
//! or QCP): forced by configuration, or, in `auto` mode, the one that last
//! completed an authenticated connection to the same server, remembered in a
//! local cache for a time-to-live.
//!
//! The cache file itself is read and written by the application; here it is
//! a value, and updates return the new value to write.

use crate::text::{
    chars_of, decimal, decimal_of, extend_chars, lowercase, lowercase_range, push_str, range_eq,
    string_from_chars, trim, trim_bounds,
};
use vstd::prelude::*;

verus! {

broadcast use vstd::string::group_string_axioms;

/// The version of the cache file format.
pub const CACHE_VERSION: u32 = 1;

/// A failure text kept in the cache is cut to this many characters.
pub const MAX_ERROR_CHARS: usize = 240;

/// A transport between client and server.
#[derive(Debug, Clone, Copy, PartialEq, Eq, Structural)]
pub enum TransportKind {
    Tcp,
    Qcp,
}

pub open spec fn kind_name(k: TransportKind) -> Seq<char> {
    match k {
        TransportKind::Tcp => "tcp"@,
        TransportKind::Qcp => "qcp"@,
    }
}

pub open spec fn other_kind(k: TransportKind) -> TransportKind {
    match k {
        TransportKind::Tcp => TransportKind::Qcp,
        TransportKind::Qcp => TransportKind::Tcp,
    }
}

impl TransportKind {
    pub fn as_str(self) -> (s: &'static str)
        ensures
            s@ == kind_name(self),
    {
        match self {
            TransportKind::Tcp => "tcp",
            TransportKind::Qcp => "qcp",
        }
    }

    /// The other transport.
    pub fn alternate(self) -> (k: TransportKind)
        ensures
            k == other_kind(self),
    {
        match self {
            TransportKind::Tcp => TransportKind::Qcp,
            TransportKind::Qcp => TransportKind::Tcp,
        }
    }
}

/// The configured transport: one of the two, or chosen automatically.
#[derive(Debug, Clone, Copy, PartialEq, Eq, Structural)]
pub enum TransportMode {
    Auto,
    Tcp,
    Qcp,
}

/// A transport setting that names no transport.
#[derive(Debug)]
pub struct InvalidTransport {
    /// The setting, trimmed and lower-cased.
    pub value: String,
}

impl InvalidTransport {
    pub open spec fn spec_message(value: Seq<char>) -> Seq<char> {
        "invalid transport '"@ + value + "': expected auto, tcp, or qcp"@
    }

    /// The error's text.
    pub fn message(&self) -> (m: String)
        ensures
            m@ == InvalidTransport::spec_message(self.value@),
    {
        let mut c: Vec<char> = Vec::new();
        push_str(&mut c, "invalid transport '");
        push_str(&mut c, self.value.as_str());
        push_str(&mut c, "': expected auto, tcp, or qcp");
        string_from_chars(c.as_slice())
    }
}

/// A setting as it is compared: trimmed, ASCII lower-cased.
pub open spec fn mode_text(value: Seq<char>) -> Seq<char> {
    lowercase(trim(value))
}

pub open spec fn parse_mode(value: Seq<char>) -> Option<TransportMode> {
    let t = mode_text(value);
    if t == "auto"@ {
        Some(TransportMode::Auto)
    } else if t == "tcp"@ || t == ""@ {
        Some(TransportMode::Tcp)
    } else if t == "qcp"@ {
        Some(TransportMode::Qcp)
    } else {
        None
    }
}

fn text_is(t: &Vec<char>, lit: &str) -> (b: bool)
    ensures
        b == (t@ == lit@),
{
    let l = chars_of(lit);
    proof {
        assert(t@.subrange(0, t@.len() as int) == t@);
    }
    range_eq(t.as_slice(), 0, t.len(), l.as_slice())
}

impl TransportMode {
    /// Reads a transport setting: `auto`, `tcp` (also the empty setting) or
    /// `qcp`, ignoring case and surrounding white space.
    pub fn parse(value: &str) -> (r: Result<TransportMode, InvalidTransport>)
        ensures
            match parse_mode(value@) {
                Some(m) => r matches Ok(x) && x == m,
                None => r matches Err(e) && e.value@ == mode_text(value@),
            },
    {
        let c = chars_of(value);
        let (a, b) = trim_bounds(c.as_slice(), 0, c.len());
        proof {
            assert(c@.subrange(0, c@.len() as int) == c@);
        }
        let t = lowercase_range(c.as_slice(), a, b);
        if text_is(&t, "auto") {
            Ok(TransportMode::Auto)
        } else if text_is(&t, "tcp") || text_is(&t, "") {
            Ok(TransportMode::Tcp)
        } else if text_is(&t, "qcp") {
            Ok(TransportMode::Qcp)
        } else {
            Err(InvalidTransport { value: string_from_chars(t.as_slice()) })
        }
    }

    pub fn is_auto(self) -> (b: bool)
        ensures
            b == (self == TransportMode::Auto),
    {
        match self {
            TransportMode::Auto => true,
            _ => false,
        }
    }
}

/// Why a transport was chosen.
#[derive(Debug, Clone, Copy, PartialEq, Eq, Structural)]
pub enum ChoiceSource {
    Forced,
    Cache,
    Probe,
    Fallback,
}

impl ChoiceSource {
    pub fn as_str(self) -> (s: &'static str)
        ensures
            s@ == (match self {
                ChoiceSource::Forced => "forced"@,
                ChoiceSource::Cache => "cache"@,
                ChoiceSource::Probe => "probe"@,
                ChoiceSource::Fallback => "fallback"@,
            }),
    {
        match self {
            ChoiceSource::Forced => "forced",
            ChoiceSource::Cache => "cache",
            ChoiceSource::Probe => "probe",
            ChoiceSource::Fallback => "fallback",
        }
    }
}

/// A transport to try, and why.
#[derive(Debug, Clone, Copy, PartialEq, Eq, Structural)]
pub struct TransportChoice {
    pub kind: TransportKind,
    pub source: ChoiceSource,
}

/// What the cache remembers of one server.
#[derive(Debug)]
pub struct CacheEntry {
    pub selected: String,
    pub updated_at_unix: u64,
    pub last_success_at_unix: u64,
    pub qcp_error: Option<String>,
    pub tcp_error: Option<String>,
}

pub struct EntryView {
    pub selected: Seq<char>,
    pub updated_at_unix: u64,
    pub last_success_at_unix: u64,
    pub qcp_error: Option<Seq<char>>,
    pub tcp_error: Option<Seq<char>>,
}

pub open spec fn opt_text(o: Option<String>) -> Option<Seq<char>> {
    match o {
        Some(s) => Some(s@),
        None => None,
    }
}

impl View for CacheEntry {
    type V = EntryView;

    open spec fn view(&self) -> EntryView {
        EntryView {
            selected: self.selected@,
            updated_at_unix: self.updated_at_unix,
            last_success_at_unix: self.last_success_at_unix,
            qcp_error: opt_text(self.qcp_error),
            tcp_error: opt_text(self.tcp_error),
        }
    }
}

/// The contents of the cache file: entries by key, first match wins.
#[derive(Debug)]
pub struct CacheFile {
    pub version: u32,
    pub entries: Vec<(String, CacheEntry)>,
}

pub struct CacheFileView {
    pub version: u32,
    pub entries: Seq<(Seq<char>, EntryView)>,
}

impl View for CacheFile {
    type V = CacheFileView;

    open spec fn view(&self) -> CacheFileView {
        CacheFileView {
            version: self.version,
            entries: self.entries@.map_values(|e: (String, CacheEntry)| (e.0@, e.1@)),
        }
    }
}

pub open spec fn empty_entry() -> EntryView {
    EntryView {
        selected: Seq::empty(),
        updated_at_unix: 0,
        last_success_at_unix: 0,
        qcp_error: None,
        tcp_error: None,
    }
}

pub open spec fn empty_cache() -> CacheFileView {
    CacheFileView { version: 0, entries: Seq::empty() }
}

/// The index of the first entry with `key`.
pub open spec fn find_key(es: Seq<(Seq<char>, EntryView)>, key: Seq<char>) -> Option<int>
    decreases es.len(),
{
    if es.len() == 0 {
        None
    } else if es[0].0 == key {
        Some(0)
    } else {
        match find_key(es.drop_first(), key) {
            Some(i) => Some(i + 1),
            None => None,
        }
    }
}

/// The entries with the one for `key` replaced by `e` (added when absent).
pub open spec fn put_entry(es: Seq<(Seq<char>, EntryView)>, key: Seq<char>, e: EntryView) -> Seq<(Seq<char>, EntryView)> {
    match find_key(es, key) {
        Some(i) => es.update(i, (key, e)),
        None => es.push((key, e)),
    }
}

pub open spec fn entry_of(es: Seq<(Seq<char>, EntryView)>, key: Seq<char>) -> EntryView {
    match find_key(es, key) {
        Some(i) => es[i].1,
        None => empty_entry(),
    }
}

pub open spec fn parse_kind_spec(v: Seq<char>) -> Option<TransportKind> {
    if v == "tcp"@ {
        Some(TransportKind::Tcp)
    } else if v == "qcp"@ {
        Some(TransportKind::Qcp)
    } else {
        None
    }
}

pub open spec fn saturating_sub(a: u64, b: u64) -> u64 {
    if a >= b {
        (a - b) as u64
    } else {
        0
    }
}

/// The transport the cache recommends for `key` at `now`: the last one that
/// succeeded, if that was within `ttl` seconds.
pub open spec fn preferred_kind(ttl: u64, cache: Option<CacheFileView>, key: Seq<char>, now: u64) -> Option<
    TransportKind,
> {
    if ttl == 0 {
        None
    } else {
        match cache {
            None => None,
            Some(c) => if c.version != CACHE_VERSION {
                None
            } else {
                match find_key(c.entries, key) {
                    None => None,
                    Some(i) => if saturating_sub(now, c.entries[i].1.updated_at_unix) > ttl {
                        None
                    } else {
                        parse_kind_spec(c.entries[i].1.selected)
                    },
                }
            },
        }
    }
}

pub open spec fn choices_spec(mode: TransportMode, preferred: Option<TransportKind>) -> Seq<TransportChoice> {
    match mode {
        TransportMode::Tcp => seq![TransportChoice { kind: TransportKind::Tcp, source: ChoiceSource::Forced }],
        TransportMode::Qcp => seq![TransportChoice { kind: TransportKind::Qcp, source: ChoiceSource::Forced }],
        TransportMode::Auto => match preferred {
            Some(k) => seq![
                TransportChoice { kind: k, source: ChoiceSource::Cache },
                TransportChoice { kind: other_kind(k), source: ChoiceSource::Fallback },
            ],
            None => seq![
                TransportChoice { kind: TransportKind::Qcp, source: ChoiceSource::Probe },
                TransportChoice { kind: TransportKind::Tcp, source: ChoiceSource::Fallback },
            ],
        },
    }
}

pub open spec fn cache_view(c: Option<CacheFile>) -> Option<CacheFileView> {
    match c {
        Some(c) => Some(c@),
        None => None,
    }
}

pub open spec fn base_cache(cache: Option<CacheFileView>) -> CacheFileView {
    match cache {
        Some(c) => c,
        None => empty_cache(),
    }
}

/// The cache after a complete connection over `kind` at `now`.
pub open spec fn success_cache(cache: Option<CacheFileView>, key: Seq<char>, kind: TransportKind, now: u64) -> CacheFileView {
    let c = base_cache(cache);
    let old = entry_of(c.entries, key);
    let e = EntryView {
        selected: kind_name(kind),
        updated_at_unix: now,
        last_success_at_unix: now,
        qcp_error: if kind == TransportKind::Qcp {
            None
        } else {
            old.qcp_error
        },
        tcp_error: if kind == TransportKind::Tcp {
            None
        } else {
            old.tcp_error
        },
    };
    CacheFileView { version: CACHE_VERSION, entries: put_entry(c.entries, key, e) }
}

/// The cache after a failure over `kind`, described by `text`.
pub open spec fn failure_cache(cache: Option<CacheFileView>, key: Seq<char>, kind: TransportKind, text: Seq<char>) -> CacheFileView {
    let c = base_cache(cache);
    let old = entry_of(c.entries, key);
    let e = match kind {
        TransportKind::Qcp => EntryView { qcp_error: Some(text), ..old },
        TransportKind::Tcp => EntryView { tcp_error: Some(text), ..old },
    };
    CacheFileView { version: CACHE_VERSION, entries: put_entry(c.entries, key, e) }
}

/// The cache key of a server: endpoints and ports only, never credentials.
pub open spec fn key_text(server: Seq<char>, server_name: Seq<char>, port: u16) -> Seq<char> {
    "v1|server="@ + server + "|server_name="@ + server_name + "|qcp_tunnel_port="@ + decimal(
        port as nat,
    )
}

/// The first `MAX_ERROR_CHARS` characters of `t`.
pub open spec fn compact_text(t: Seq<char>) -> Seq<char> {
    if t.len() <= MAX_ERROR_CHARS {
        t
    } else {
        t.take(MAX_ERROR_CHARS as int)
    }
}

/// `tcp` or `qcp`, as a cache entry names them.
pub fn parse_kind(value: &str) -> (r: Option<TransportKind>)
    ensures
        r == parse_kind_spec(value@),
{
    let c = chars_of(value);
    if text_is(&c, "tcp") {
        Some(TransportKind::Tcp)
    } else if text_is(&c, "qcp") {
        Some(TransportKind::Qcp)
    } else {
        None
    }
}

/// A failure's text as the cache keeps it.
pub fn compact_error(text: &str) -> (r: String)
    ensures
        r@ == compact_text(text@),
{
    let c = chars_of(text);
    let n = if c.len() <= MAX_ERROR_CHARS {
        c.len()
    } else {
        MAX_ERROR_CHARS
    };
    let mut out: Vec<char> = Vec::new();
    let mut i: usize = 0;
    while i < n
        invariant
            0 <= i <= n <= c@.len(),
            out@ == c@.take(i as int),
        decreases n - i,
    {
        out.push(c[i]);
        proof {
            assert(c@.take(i + 1) == c@.take(i as int).push(c@[i as int]));
        }
        i = i + 1;
    }
    proof {
        assert(c@.take(c@.len() as int) == c@);
    }
    string_from_chars(out.as_slice())
}

proof fn lemma_find_key_skip(es: Seq<(Seq<char>, EntryView)>, key: Seq<char>, i: int)
    requires
        0 <= i <= es.len(),
        forall|j: int| 0 <= j < i ==> (#[trigger] es[j]).0 != key,
    ensures
        find_key(es, key) == match find_key(es.skip(i), key) {
            Some(k) => Some(k + i),
            None => None::<int>,
        },
    decreases i,
{
    if i == 0 {
        assert(es.skip(0) == es);
        match find_key(es, key) {
            Some(k) => {},
            None => {},
        }
    } else {
        assert(es[0].0 != key);
        lemma_find_key_skip(es.drop_first(), key, i - 1);
        assert(es.drop_first().skip(i - 1) == es.skip(i));
        assert forall|j: int| 0 <= j < i - 1 implies (#[trigger] es.drop_first()[j]).0 != key by {
            assert(es.drop_first()[j] == es[j + 1]);
        }
    }
}

proof fn lemma_find_key_bounds(es: Seq<(Seq<char>, EntryView)>, key: Seq<char>)
    ensures
        match find_key(es, key) {
            Some(i) => 0 <= i < es.len() && es[i].0 == key && forall|j: int|
                0 <= j < i ==> (#[trigger] es[j]).0 != key,
            None => forall|j: int| 0 <= j < es.len() ==> (#[trigger] es[j]).0 != key,
        },
    decreases es.len(),
{
    if es.len() > 0 {
        lemma_find_key_bounds(es.drop_first(), key);
        if es[0].0 != key {
            match find_key(es.drop_first(), key) {
                Some(i) => {
                    assert forall|j: int| 0 <= j < i + 1 implies (#[trigger] es[j]).0 != key by {
                        if j > 0 {
                            assert(es[j] == es.drop_first()[j - 1]);
                        }
                    }
                },
                None => {
                    assert forall|j: int| 0 <= j < es.len() implies (#[trigger] es[j]).0 != key by {
                        if j > 0 {
                            assert(es[j] == es.drop_first()[j - 1]);
                        }
                    }
                },
            }
        }
    }
}

/// `find_key` is the first index whose key matches.
proof fn lemma_find_key_first(es: Seq<(Seq<char>, EntryView)>, key: Seq<char>, i: int)
    requires
        0 <= i < es.len(),
        es[i].0 == key,
        forall|j: int| 0 <= j < i ==> (#[trigger] es[j]).0 != key,
    ensures
        find_key(es, key) == Some(i),
{
    lemma_find_key_skip(es, key, i);
    assert(es.skip(i)[0] == es[i]);
}

proof fn lemma_put_entry_found(es: Seq<(Seq<char>, EntryView)>, key: Seq<char>, e: EntryView)
    ensures
        find_key(put_entry(es, key, e), key) is Some,
        put_entry(es, key, e)[find_key(put_entry(es, key, e), key)->0] == (key, e),
{
    lemma_find_key_bounds(es, key);
    let p = put_entry(es, key, e);
    match find_key(es, key) {
        Some(i) => {
            assert forall|j: int| 0 <= j < i implies (#[trigger] p[j]).0 != key by {
                assert(p[j] == es[j]);
            }
            lemma_find_key_first(p, key, i);
        },
        None => {
            let n = es.len() as int;
            assert forall|j: int| 0 <= j < n implies (#[trigger] p[j]).0 != key by {
                assert(p[j] == es[j]);
            }
            lemma_find_key_first(p, key, n);
        },
    }
}

/// A client-side cache of transport outcomes, read from and written to
/// `path` by the application, trusted for `ttl_secs` seconds.
#[derive(Debug)]
pub struct TransportCache {
    pub path: String,
    pub ttl_secs: u64,
}

impl TransportCache {
    pub fn new(path: &str, ttl_secs: u64) -> (c: TransportCache)
        ensures
            c.path@ == path@,
            c.ttl_secs == ttl_secs,
    {
        TransportCache { path: path.to_string(), ttl_secs }
    }

    pub fn path(&self) -> (p: &str)
        ensures
            p@ == self.path@,
    {
        self.path.as_str()
    }

    /// The cache key of a server and its QCP tunnel port.
    pub fn key(server: &str, server_name: &str, qcp_tunnel_port: u16) -> (k: String)
        ensures
            k@ == key_text(server@, server_name@, qcp_tunnel_port),
    {
        let mut c: Vec<char> = Vec::new();
        push_str(&mut c, "v1|server=");
        push_str(&mut c, server);
        push_str(&mut c, "|server_name=");
        push_str(&mut c, server_name);
        push_str(&mut c, "|qcp_tunnel_port=");
        let d = decimal_of(qcp_tunnel_port as u64);
        extend_chars(&mut c, d.as_slice());
        string_from_chars(c.as_slice())
    }

    /// The transport to prefer for `key` at `now` (seconds since the epoch),
    /// given the cache file's contents (`None` when it could not be read).
    pub fn preferred(&self, cache: Option<&CacheFile>, key: &str, now: u64) -> (r: Option<TransportKind>)
        ensures
            r == preferred_kind(
                self.ttl_secs,
                match cache {
                    Some(c) => Some(c@),
                    None => None,
                },
                key@,
                now,
            ),
    {
        if self.ttl_secs == 0 {
            return None;
        }
        let c = match cache {
            Some(c) => c,
            None => return None,
        };
        if c.version != CACHE_VERSION {
            return None;
        }
        match find_entry(&c.entries, key) {
            None => None,
            Some(i) => {
                let e = &c.entries[i].1;
                let age = if now >= e.updated_at_unix {
                    now - e.updated_at_unix
                } else {
                    0
                };
                if age > self.ttl_secs {
                    None
                } else {
                    parse_kind(e.selected.as_str())
                }
            },
        }
    }

    /// The transports to try, in order.
    pub fn choices(&self, mode: TransportMode, cache: Option<&CacheFile>, key: &str, now: u64) -> (v: Vec<TransportChoice>)
        ensures
            v@ == choices_spec(
                mode,
                preferred_kind(
                    self.ttl_secs,
                    match cache {
                        Some(c) => Some(c@),
                        None => None,
                    },
                    key@,
                    now,
                ),
            ),
    {
        let mut v: Vec<TransportChoice> = Vec::new();
        match mode {
            TransportMode::Tcp => {
                v.push(TransportChoice { kind: TransportKind::Tcp, source: ChoiceSource::Forced });
            },
            TransportMode::Qcp => {
                v.push(TransportChoice { kind: TransportKind::Qcp, source: ChoiceSource::Forced });
            },
            TransportMode::Auto => {
                match self.preferred(cache, key, now) {
                    Some(k) => {
                        v.push(TransportChoice { kind: k, source: ChoiceSource::Cache });
                        v.push(TransportChoice { kind: k.alternate(), source: ChoiceSource::Fallback });
                    },
                    None => {
                        v.push(TransportChoice { kind: TransportKind::Qcp, source: ChoiceSource::Probe });
                        v.push(
                            TransportChoice { kind: TransportKind::Tcp, source: ChoiceSource::Fallback },
                        );
                    },
                }
            },
        }
        proof {
            assert(v@ =~= choices_spec(
                mode,
                preferred_kind(
                    self.ttl_secs,
                    match cache {
                        Some(c) => Some(c@),
                        None => None,
                    },
                    key@,
                    now,
                ),
            ));
        }
        v
    }

    /// The cache contents to write after a complete connection over `kind`
    /// at `now`, given the current contents (`None` when unreadable).
    pub fn note_success(&self, cache: Option<CacheFile>, key: &str, kind: TransportKind, now: u64) -> (c: CacheFile)
        ensures
            c@ == success_cache(
                match cache {
                    Some(c) => Some(c@),
                    None => None,
                },
                key@,
                kind,
                now,
            ),
    {
        let ghost cin = cache_view(cache);
        let base = match cache {
            Some(c) => c,
            None => CacheFile { version: 0, entries: Vec::new() },
        };
        proof {
            assert(base@.entries =~= base_cache(cin).entries);
        }
        let mut entries = base.entries;
        let ghost old_e = entry_of(base_cache(cin).entries, key@);
        let (qcp_error, tcp_error) = match find_entry(&entries, key) {
            Some(i) => (copy_text(&entries[i].1.qcp_error), copy_text(&entries[i].1.tcp_error)),
            None => (None, None),
        };
        assert(opt_text(qcp_error) == old_e.qcp_error && opt_text(tcp_error) == old_e.tcp_error);
        let e = CacheEntry {
            selected: kind.as_str().to_string(),
            updated_at_unix: now,
            last_success_at_unix: now,
            qcp_error: match kind {
                TransportKind::Qcp => None,
                TransportKind::Tcp => qcp_error,
            },
            tcp_error: match kind {
                TransportKind::Tcp => None,
                TransportKind::Qcp => tcp_error,
            },
        };
        put(&mut entries, key, e);
        CacheFile { version: CACHE_VERSION, entries }
    }

    /// The cache contents to write after a failure over `kind`, whose text is
    /// `error` (kept to `MAX_ERROR_CHARS` characters).
    pub fn note_failure(&self, cache: Option<CacheFile>, key: &str, kind: TransportKind, error: &str) -> (c: CacheFile)
        ensures
            c@ == failure_cache(
                match cache {
                    Some(c) => Some(c@),
                    None => None,
                },
                key@,
                kind,
                compact_text(error@),
            ),
    {
        let ghost cin = cache_view(cache);
        let base = match cache {
            Some(c) => c,
            None => CacheFile { version: 0, entries: Vec::new() },
        };
        proof {
            assert(base@.entries =~= base_cache(cin).entries);
        }
        let mut entries = base.entries;
        let old = match find_entry(&entries, key) {
            Some(i) => copy_entry(&entries[i].1),
            None => CacheEntry {
                selected: String::new(),
                updated_at_unix: 0,
                last_success_at_unix: 0,
                qcp_error: None,
                tcp_error: None,
            },
        };
        assert(old@ == entry_of(base_cache(cin).entries, key@));
        let text = compact_error(error);
        let e = match kind {
            TransportKind::Qcp => CacheEntry { qcp_error: Some(text), ..old },
            TransportKind::Tcp => CacheEntry { tcp_error: Some(text), ..old },
        };
        put(&mut entries, key, e);
        CacheFile { version: CACHE_VERSION, entries }
    }
}

fn copy_text(o: &Option<String>) -> (r: Option<String>)
    ensures
        opt_text(r) == opt_text(*o),
{
    match o {
        Some(s) => Some(s.clone()),
        None => None,
    }
}

fn copy_entry(e: &CacheEntry) -> (r: CacheEntry)
    ensures
        r@ == e@,
{
    CacheEntry {
        selected: e.selected.clone(),
        updated_at_unix: e.updated_at_unix,
        last_success_at_unix: e.last_success_at_unix,
        qcp_error: copy_text(&e.qcp_error),
        tcp_error: copy_text(&e.tcp_error),
    }
}

/// The index of the first entry for `key`.
fn find_entry(entries: &Vec<(String, CacheEntry)>, key: &str) -> (r: Option<usize>)
    ensures
        match r {
            Some(i) => i < entries@.len() && find_key(
                entries@.map_values(|e: (String, CacheEntry)| (e.0@, e.1@)),
                key@,
            ) == Some(i as int),
            None => find_key(entries@.map_values(|e: (String, CacheEntry)| (e.0@, e.1@)), key@) is None,
        },
{
    let ghost es = entries@.map_values(|e: (String, CacheEntry)| (e.0@, e.1@));
    let mut i: usize = 0;
    while i < entries.len()
        invariant
            es == entries@.map_values(|e: (String, CacheEntry)| (e.0@, e.1@)),
            0 <= i <= entries@.len(),
            forall|j: int| 0 <= j < i ==> (#[trigger] es[j]).0 != key@,
        decreases entries@.len() - i,
    {
        if crate::text::str_eq(entries[i].0.as_str(), key) {
            proof {
                lemma_find_key_first(es, key@, i as int);
            }
            return Some(i);
        }
        i = i + 1;
    }
    proof {
        lemma_find_key_skip(es, key@, es.len() as int);
        assert(es.skip(es.len() as int) =~= Seq::<(Seq<char>, EntryView)>::empty());
    }
    None
}

/// Replaces the entry for `key` with `e`, or adds it.
fn put(entries: &mut Vec<(String, CacheEntry)>, key: &str, e: CacheEntry)
    ensures
        final(entries)@.map_values(|x: (String, CacheEntry)| (x.0@, x.1@)) == put_entry(
            old(entries)@.map_values(|x: (String, CacheEntry)| (x.0@, x.1@)),
            key@,
            e@,
        ),
{
    let ghost es = entries@.map_values(|x: (String, CacheEntry)| (x.0@, x.1@));
    match find_entry(entries, key) {
        Some(i) => {
            entries.set(i, (key.to_string(), e));
            proof {
                assert(entries@.map_values(|x: (String, CacheEntry)| (x.0@, x.1@)) =~= es.update(
                    i as int,
                    (key@, e@),
                ));
            }
        },
        None => {
            entries.push((key.to_string(), e));
            proof {
                assert(entries@.map_values(|x: (String, CacheEntry)| (x.0@, x.1@)) =~= es.push(
                    (key@, e@),
                ));
            }
        },
    }
}

/// After a complete connection over `kind` is recorded, a client in `auto`
/// mode tries `kind` first (and the other transport second) for as long as
/// the entry is younger than the time-to-live.
pub proof fn lemma_success_is_tried_first(
    ttl: u64,
    cache: Option<CacheFileView>,
    key: Seq<char>,
    kind: TransportKind,
    at: u64,
    now: u64,
)
    requires
        ttl > 0,
        saturating_sub(now, at) <= ttl,
    ensures
        preferred_kind(ttl, Some(success_cache(cache, key, kind, at)), key, now) == Some(kind),
        choices_spec(
            TransportMode::Auto,
            preferred_kind(ttl, Some(success_cache(cache, key, kind, at)), key, now),
        )[0] == (TransportChoice { kind, source: ChoiceSource::Cache }),
{
    let c = base_cache(cache);
    let old = entry_of(c.entries, key);
    let e = EntryView {
        selected: kind_name(kind),
        updated_at_unix: at,
        last_success_at_unix: at,
        qcp_error: if kind == TransportKind::Qcp {
            None
        } else {
            old.qcp_error
        },
        tcp_error: if kind == TransportKind::Tcp {
            None
        } else {
            old.tcp_error
        },
    };
    lemma_put_entry_found(c.entries, key, e);
    reveal_strlit("tcp");
    reveal_strlit("qcp");
    assert("tcp"@ != "qcp"@) by {
        assert("tcp"@[0] != "qcp"@[0]);
    }
}

/// With a time-to-live of zero the cache is never used: `auto` probes QCP
/// first and falls back to TCP.
pub proof fn lemma_zero_ttl_probes_qcp(cache: Option<CacheFileView>, key: Seq<char>, now: u64)
    ensures
        choices_spec(TransportMode::Auto, preferred_kind(0, cache, key, now)) == seq![
            TransportChoice { kind: TransportKind::Qcp, source: ChoiceSource::Probe },
            TransportChoice { kind: TransportKind::Tcp, source: ChoiceSource::Fallback },
        ],
{
}


/// In automatic mode both transports are tried, each once: there are two
/// choices, of different kinds, and a transport remembered in the cache is
/// tried first (from the cache) with the other one as the fallback.
pub proof fn lemma_auto_tries_both_transports(preferred: Option<TransportKind>)
    ensures
        choices_spec(TransportMode::Auto, preferred).len() == 2,
        choices_spec(TransportMode::Auto, preferred)[0].kind != choices_spec(TransportMode::Auto, preferred)[1].kind,
        choices_spec(TransportMode::Auto, preferred)[1].source == ChoiceSource::Fallback,
        preferred matches Some(k) ==> choices_spec(TransportMode::Auto, preferred)[0] == (TransportChoice {
            kind: k,
            source: ChoiceSource::Cache,
        }),
{
}

/// A forced transport is the only one tried.
pub proof fn lemma_forced_mode_tries_one_transport(preferred: Option<TransportKind>)
    ensures
        choices_spec(TransportMode::Tcp, preferred).len() == 1,
        choices_spec(TransportMode::Tcp, preferred)[0].kind == TransportKind::Tcp,
        choices_spec(TransportMode::Qcp, preferred).len() == 1,
        choices_spec(TransportMode::Qcp, preferred)[0].kind == TransportKind::Qcp,
{
}

} // verus!
