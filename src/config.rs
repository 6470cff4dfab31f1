//! Configuration: the layered override map, the list of top-level domains, and
//! the settings that name the bootstrap documents and the cache lifetime.

use vstd::prelude::*;
use vstd::string::StringExecFns;
use crate::bootstrap::{is_label_start, normalized_domain, strip_dots, suffix_from};
use crate::text::{
    chars_of, lower_of, lowercase, opt_view, slice_chars, string_of, substring, trim_chars,
    trimmed_seq,
};
use crate::urls::{parse_url, parsed_url};

verus! {

/// The RDAP server that answers for top-level domains themselves.
pub const IANA_RDAP_URL: &'static str = "https://rdap.iana.org/";

/// The map of `(key, value)` pairs taken in order, a later pair replacing an earlier one.
pub open spec fn pairs_map(es: Seq<(String, String)>) -> Map<Seq<char>, Seq<char>>
    decreases es.len(),
{
    if es.len() == 0 {
        Map::empty()
    } else {
        pairs_map(es.drop_last()).insert(es.last().0@, es.last().1@)
    }
}

/// Domain suffix (a TLD or a second-level label pair) to RDAP server URL.
#[derive(Debug, Clone)]
pub struct TldOverrides {
    entries: Vec<(String, String)>,
}

impl View for TldOverrides {
    type V = Map<Seq<char>, Seq<char>>;

    closed spec fn view(&self) -> Map<Seq<char>, Seq<char>> {
        pairs_map(self.entries@)
    }
}

proof fn lemma_pairs_map_append(a: Seq<(String, String)>, b: Seq<(String, String)>)
    ensures
        pairs_map(a + b) == pairs_map(a).union_prefer_right(pairs_map(b)),
    decreases b.len(),
{
    if b.len() == 0 {
        assert(a + b =~= a);
        assert(pairs_map(a).union_prefer_right(pairs_map(b)) =~= pairs_map(a));
    } else {
        lemma_pairs_map_append(a, b.drop_last());
        assert((a + b).drop_last() =~= a + b.drop_last());
        assert(pairs_map(a + b) =~= pairs_map(a).union_prefer_right(pairs_map(b)));
    }
}

impl TldOverrides {
    /// An empty map.
    pub fn new() -> (r: Self)
        ensures
            r@ == Map::<Seq<char>, Seq<char>>::empty(),
    {
        TldOverrides { entries: Vec::new() }
    }

    /// Maps `key` to `value`, replacing what `key` had.
    pub fn insert(&mut self, key: String, value: String)
        ensures
            final(self)@ == old(self)@.insert(key@, value@),
    {
        let ghost before = self.entries@;
        self.entries.push((key, value));
        assert(self.entries@.drop_last() =~= before);
    }

    /// What `key` maps to.
    pub fn get(&self, key: &str) -> (r: Option<String>)
        ensures
            r is Some <==> self@.contains_key(key@),
            r matches Some(v) ==> self@[key@] == v@,
    {
        let es = &self.entries;
        let wanted = String::from_str(key);
        let mut i: usize = es.len();
        assert(es@.subrange(0, i as int) =~= es@);
        while i > 0
            invariant
                wanted@ == key@,
                i <= es@.len(),
                self@.contains_key(key@) == pairs_map(es@.subrange(0, i as int)).contains_key(key@),
                self@.contains_key(key@) ==> self@[key@] == pairs_map(es@.subrange(0, i as int))[key@],
            decreases i,
        {
            assert(es@.subrange(0, i as int).drop_last() =~= es@.subrange(0, i - 1));
            if es[i - 1].0 == wanted {
                return Some(es[i - 1].1.clone());
            }
            i = i - 1;
        }
        None
    }

    /// Lays `layer` over this map: its keys win.
    pub fn merge(&mut self, layer: &TldOverrides)
        ensures
            final(self)@ == old(self)@.union_prefer_right(layer@),
    {
        let ghost before = self.entries@;
        let mut i: usize = 0;
        while i < layer.entries.len()
            invariant
                i <= layer.entries@.len(),
                self.entries@ == before + layer.entries@.subrange(0, i as int),
            decreases layer.entries@.len() - i,
        {
            let (k, v) = (layer.entries[i].0.clone(), layer.entries[i].1.clone());
            self.entries.push((k, v));
            assert(self.entries@ =~= before + layer.entries@.subrange(0, i + 1));
            i = i + 1;
        }
        assert(layer.entries@.subrange(0, i as int) =~= layer.entries@);
        proof {
            lemma_pairs_map_append(before, layer.entries@);
        }
    }
}

} // verus!

verus! {

/// `m` has `key`, and what it maps to parses as a URL.
pub open spec fn override_usable(m: Map<Seq<char>, Seq<char>>, key: Seq<char>) -> bool {
    m.contains_key(key) && parsed_url(m[key]) is Some
}

/// The suffix of `d` from `k` is the longest suffix with a usable override.
pub open spec fn longest_override(m: Map<Seq<char>, Seq<char>>, d: Seq<char>, k: int) -> bool {
    is_label_start(d, k) && override_usable(m, suffix_from(d, k)) && forall|k2: int|
        0 <= k2 < k && is_label_start(d, k2) ==> !override_usable(m, #[trigger] suffix_from(d, k2))
}

/// The URL of the longest suffix of `d` with a usable override, if any.
pub open spec fn override_for(m: Map<Seq<char>, Seq<char>>, d: Seq<char>) -> Option<Seq<char>> {
    if exists|k: int| longest_override(m, d, k) {
        let k = choose|k: int| longest_override(m, d, k);
        parsed_url(m[suffix_from(d, k)])
    } else {
        None
    }
}

/// The override server for a domain: the URL of the longest suffix of the
/// domain (trailing dots removed, lower-cased) that the map holds with a URL
/// that parses, or none. A shorter suffix is never chosen over a longer one.
pub fn lookup_tld_override(overrides: &TldOverrides, domain: &str) -> (r: Option<String>)
    ensures
        r matches Some(u) ==> exists|k: int|
            longest_override(overrides@, normalized_domain(domain@), k) && parsed_url(
                overrides@[#[trigger] suffix_from(normalized_domain(domain@), k)],
            ) == Some(u@),
        r is None ==> forall|k: int|
            is_label_start(normalized_domain(domain@), k) ==> !override_usable(
                overrides@,
                #[trigger] suffix_from(normalized_domain(domain@), k),
            ),
        opt_view(r) == override_for(overrides@, normalized_domain(domain@)),
{
    let cs = chars_of(domain);
    let stripped = strip_dots(&cs);
    let plain = string_of(stripped.as_slice());
    let low = lowercase(plain.as_str());
    let d = chars_of(low.as_str());
    let n = d.len();
    let mut k: usize = 0;
    while k <= n
        invariant
            n == d@.len(),
            d@ == normalized_domain(domain@),
            k <= n + 1,
            forall|k2: int| 0 <= k2 < k && is_label_start(d@, k2) ==> !override_usable(
                overrides@,
                #[trigger] suffix_from(d@, k2),
            ),
        decreases n + 1 - k,
    {
        if k == 0 || d[k - 1] == '.' {
            let key = substring(&d, k, n);
            match overrides.get(key.as_str()) {
                Some(v) => match parse_url(v.as_str()) {
                    Some(u) => {
                        assert(longest_override(overrides@, d@, k as int));
                        proof {
                            let k2 = choose|k2: int| longest_override(overrides@, d@, k2);
                            assert(k2 == k as int) by {
                                if k2 < k as int {
                                    assert(!override_usable(overrides@, suffix_from(d@, k2)));
                                } else if k2 > k as int {
                                    assert(!override_usable(overrides@, suffix_from(d@, k as int)));
                                }
                            }
                        }
                        return Some(u);
                    },
                    None => {},
                },
                None => {},
            }
        }
        if k == n {
            assert forall|k2: int| is_label_start(d@, k2) implies !override_usable(
                overrides@,
                #[trigger] suffix_from(d@, k2),
            ) by {
                if k2 <= n as int {
                }
            }
            return None;
        }
        k = k + 1;
    }
    None
}

/// The override map in force: the first of the user's downloaded map, the
/// system-wide map and the built-in map that is present, with the user's
/// local map laid over it.
pub fn load_tld_overrides(
    user: Option<TldOverrides>,
    system: Option<TldOverrides>,
    builtin: TldOverrides,
    local: Option<TldOverrides>,
) -> (r: TldOverrides)
    ensures
        ({
            let base = match user {
                Some(u) => u@,
                None => match system {
                    Some(s) => s@,
                    None => builtin@,
                },
            };
            match local {
                Some(l) => r@ == base.union_prefer_right(l@),
                None => r@ == base,
            }
        }),
{
    let mut base = match user {
        Some(u) => u,
        None => match system {
            Some(s) => s,
            None => builtin,
        },
    };
    match local {
        Some(l) => {
            base.merge(&l);
        },
        None => {},
    }
    base
}

} // verus!

verus! {

/// A finished line: without the `\r` of a `\r\n` ending.
pub open spec fn strip_cr(l: Seq<char>) -> Seq<char> {
    if l.len() > 0 && l.last() == '\r' {
        l.drop_last()
    } else {
        l
    }
}

/// The lines finished so far and the line under way, after reading `s`.
pub open spec fn line_scan(s: Seq<char>) -> (Seq<Seq<char>>, Seq<char>)
    decreases s.len(),
{
    if s.len() == 0 {
        (Seq::empty(), Seq::empty())
    } else {
        let (done, cur) = line_scan(s.drop_last());
        if s.last() == '\n' {
            (done.push(strip_cr(cur)), Seq::empty())
        } else {
            (done, cur.push(s.last()))
        }
    }
}

/// The lines of `s` as `str::lines` gives them: split at `\n` or `\r\n`, with
/// no empty line after a final line ending.
pub open spec fn text_lines(s: Seq<char>) -> Seq<Seq<char>> {
    let (done, cur) = line_scan(s);
    if cur.len() > 0 {
        done.push(cur)
    } else {
        done
    }
}

/// A line of the TLD list that names a TLD: not empty and not a `#` comment.
pub open spec fn is_entry_line(l: Seq<char>) -> bool {
    l.len() > 0 && l[0] != '#'
}

/// The TLD a line of the list names.
pub open spec fn entry_of(l: Seq<char>) -> Seq<char> {
    lower_of(trimmed_seq(l))
}

/// The TLDs that the entry lines among `ls` name.
pub open spec fn entry_set(ls: Seq<Seq<char>>) -> Set<Seq<char>> {
    Set::new(
        |t: Seq<char>|
            exists|i: int| 0 <= i < ls.len() && is_entry_line(ls[i]) && #[trigger] entry_of(ls[i]) == t,
    )
}

/// The TLDs that a list's text names.
pub open spec fn tld_set(content: Seq<char>) -> Set<Seq<char>> {
    entry_set(text_lines(content))
}

proof fn lemma_entry_set_push(ls: Seq<Seq<char>>, l: Seq<char>)
    ensures
        entry_set(ls.push(l)) == if is_entry_line(l) {
            entry_set(ls).insert(entry_of(l))
        } else {
            entry_set(ls)
        },
{
    let p = ls.push(l);
    let rhs = if is_entry_line(l) {
        entry_set(ls).insert(entry_of(l))
    } else {
        entry_set(ls)
    };
    assert forall|t: Seq<char>| entry_set(p).contains(t) <==> rhs.contains(t) by {
        if entry_set(p).contains(t) {
            let j = choose|j: int| 0 <= j < p.len() && is_entry_line(p[j]) && #[trigger] entry_of(p[j]) == t;
            if j < ls.len() {
                assert(p[j] == ls[j]);
            }
        }
        if entry_set(ls).contains(t) {
            let j = choose|j: int| 0 <= j < ls.len() && is_entry_line(ls[j]) && #[trigger] entry_of(ls[j]) == t;
            assert(p[j] == ls[j]);
        }
        if is_entry_line(l) && t == entry_of(l) {
            assert(p[ls.len() as int] == l);
        }
    }
    assert(entry_set(p) =~= rhs);
}

/// The set of all valid top-level domains.
#[derive(Debug, Clone)]
pub struct TldList {
    tlds: Vec<String>,
}

impl View for TldList {
    type V = Set<Seq<char>>;

    closed spec fn view(&self) -> Set<Seq<char>> {
        self.tlds@.map_values(|s: String| s@).to_set()
    }
}

impl TldList {
    pub closed spec fn wf(&self) -> bool {
        self.tlds@.map_values(|s: String| s@).no_duplicates()
    }

    /// Whether the list holds `t`.
    fn holds(&self, t: &String) -> (r: bool)
        ensures
            r == self@.contains(t@),
    {
        let ghost vs = self.tlds@.map_values(|s: String| s@);
        let mut i: usize = 0;
        while i < self.tlds.len()
            invariant
                vs == self.tlds@.map_values(|s: String| s@),
                i <= self.tlds@.len(),
                forall|j: int| 0 <= j < i ==> vs[j] != t@,
            decreases self.tlds@.len() - i,
        {
            if self.tlds[i] == *t {
                assert(vs[i as int] == t@);
                assert(vs.to_set().contains(t@));
                return true;
            }
            i = i + 1;
        }
        assert(!vs.to_set().contains(t@)) by {
            if vs.to_set().contains(t@) {
                let j = choose|j: int| 0 <= j < vs.len() && vs[j] == t@;
                assert(vs[j] == t@);
            }
        }
        false
    }

    /// Adds `t` unless the list holds it already.
    fn add(&mut self, t: String)
        requires
            old(self).wf(),
        ensures
            final(self).wf(),
            final(self)@ == old(self)@.insert(t@),
    {
        if self.holds(&t) {
            assert(self@.insert(t@) =~= self@);
        } else {
            let ghost before = self.tlds@.map_values(|s: String| s@);
            self.tlds.push(t);
            assert(self.tlds@.map_values(|s: String| s@) =~= before.push(t@));
            proof {
                before.lemma_push_to_set_commute(t@);
                assert(!before.contains(t@));
            }
            assert(self.tlds@.map_values(|s: String| s@).no_duplicates()) by {
                let vs = self.tlds@.map_values(|s: String| s@);
                assert forall|a: int, b: int| 0 <= a < vs.len() && 0 <= b < vs.len() && a != b implies vs[a]
                    != vs[b] by {
                    if a < before.len() && b < before.len() {
                        assert(vs[a] == before[a]);
                        assert(vs[b] == before[b]);
                    } else if a == before.len() {
                        assert(vs[b] == before[b]);
                        assert(before.contains(before[b]));
                    } else {
                        assert(vs[a] == before[a]);
                        assert(before.contains(before[a]));
                    }
                }
            }
        }
    }

    /// Reads a TLD list: one TLD per line, `#` lines and empty lines skipped,
    /// each entry trimmed and lower-cased.
    pub fn parse(content: &str) -> (r: Self)
        ensures
            r.wf(),
            r@ == tld_set(content@),
    {
        let lines = lines_of(content);
        let ghost ls = lines@.map_values(|l: Vec<char>| l@);
        let mut list = TldList { tlds: Vec::new() };
        assert(list@ =~= entry_set(ls.subrange(0, 0)));
        let mut i: usize = 0;
        while i < lines.len()
            invariant
                ls == lines@.map_values(|l: Vec<char>| l@),
                i <= lines@.len(),
                list.wf(),
                list@ == entry_set(ls.subrange(0, i as int)),
            decreases lines@.len() - i,
        {
            proof {
                assert(ls.subrange(0, i + 1) =~= ls.subrange(0, i as int).push(ls[i as int]));
                lemma_entry_set_push(ls.subrange(0, i as int), ls[i as int]);
            }
            let line = &lines[i];
            if line.len() > 0 && line[0] != '#' {
                let trimmed = trim_chars(line);
                let text = string_of(trimmed.as_slice());
                list.add(lowercase(text.as_str()));
            }
            i = i + 1;
        }
        assert(ls.subrange(0, i as int) =~= ls);
        list
    }

    /// Whether `query`, lower-cased, is a TLD of the list.
    pub fn is_tld(&self, query: &str) -> (r: bool)
        ensures
            r == self@.contains(lower_of(query@)),
    {
        let low = lowercase(query);
        self.holds(&low)
    }

    /// The number of TLDs in the list.
    pub fn len(&self) -> (r: usize)
        requires
            self.wf(),
        ensures
            r == self@.len(),
    {
        proof {
            self.tlds@.map_values(|s: String| s@).unique_seq_to_set();
        }
        self.tlds.len()
    }

    /// Whether the list is empty.
    pub fn is_empty(&self) -> (r: bool)
        requires
            self.wf(),
        ensures
            r == (self@.len() == 0),
    {
        self.len() == 0
    }
}

} // verus!

verus! {

/// Main configuration.
#[derive(Debug, Clone)]
pub struct Config {
    pub bootstrap: BootstrapConfig,
    pub cache: CacheConfig,
}

/// The URLs of the four bootstrap registry documents.
#[derive(Debug, Clone)]
pub struct BootstrapConfig {
    pub dns: String,
    pub asn: String,
    pub ipv4: String,
    pub ipv6: String,
}

/// How long a cached bootstrap document stays valid.
#[derive(Debug, Clone, Copy, PartialEq, Eq, Structural)]
pub struct CacheConfig {
    pub ttl_seconds: u64,
}

/// What a refresh of the downloaded configuration files achieved.
#[derive(Debug, Clone)]
pub struct UpdateResult {
    pub config_updated: bool,
    pub config_error: Option<String>,
    pub tlds_updated: bool,
    pub tlds_error: Option<String>,
    pub tld_list_updated: bool,
    pub tld_list_error: Option<String>,
}

impl Default for BootstrapConfig {
    fn default() -> (r: Self)
        ensures
            r.dns@ == "https://data.iana.org/rdap/dns.json"@,
            r.asn@ == "https://data.iana.org/rdap/asn.json"@,
            r.ipv4@ == "https://data.iana.org/rdap/ipv4.json"@,
            r.ipv6@ == "https://data.iana.org/rdap/ipv6.json"@,
    {
        BootstrapConfig {
            dns: String::from_str("https://data.iana.org/rdap/dns.json"),
            asn: String::from_str("https://data.iana.org/rdap/asn.json"),
            ipv4: String::from_str("https://data.iana.org/rdap/ipv4.json"),
            ipv6: String::from_str("https://data.iana.org/rdap/ipv6.json"),
        }
    }
}

impl Default for CacheConfig {
    fn default() -> (r: Self)
        ensures
            r.ttl_seconds == 86400,
    {
        CacheConfig { ttl_seconds: 86400 }
    }
}

impl Default for Config {
    fn default() -> (r: Self)
        ensures
            r.bootstrap.dns@ == "https://data.iana.org/rdap/dns.json"@,
            r.bootstrap.asn@ == "https://data.iana.org/rdap/asn.json"@,
            r.bootstrap.ipv4@ == "https://data.iana.org/rdap/ipv4.json"@,
            r.bootstrap.ipv6@ == "https://data.iana.org/rdap/ipv6.json"@,
            r.cache.ttl_seconds == 86400,
    {
        Config { bootstrap: BootstrapConfig::default(), cache: CacheConfig::default() }
    }
}

impl Default for UpdateResult {
    fn default() -> (r: Self)
        ensures
            !r.config_updated && r.config_error is None,
            !r.tlds_updated && r.tlds_error is None,
            !r.tld_list_updated && r.tld_list_error is None,
    {
        UpdateResult {
            config_updated: false,
            config_error: None,
            tlds_updated: false,
            tlds_error: None,
            tld_list_updated: false,
            tld_list_error: None,
        }
    }
}

/// The directory of the system-wide configuration.
pub fn system_config_dir() -> (r: String)
    ensures
        r@ == "/etc/rdap"@,
{
    String::from_str("/etc/rdap")
}

/// `dir` with the relative path `rel` under it, as a path join does.
pub open spec fn path_join(dir: Seq<char>, rel: Seq<char>) -> Seq<char> {
    if dir.len() == 0 {
        rel
    } else if dir.last() == '/' {
        dir + rel
    } else {
        dir + "/"@ + rel
    }
}

impl Config {
    /// The user's configuration directory: `.config/rdap` under the home
    /// directory, or relative to the working directory when none is known.
    pub fn config_dir(home: Option<&str>) -> (r: String)
        ensures
            r@ == match home {
                Some(h) => path_join(h@, ".config/rdap"@),
                None => ".config/rdap"@,
            },
    {
        match home {
            None => String::from_str(".config/rdap"),
            Some(h) => {
                let cs = chars_of(h);
                let n = cs.len();
                if n == 0 {
                    String::from_str(".config/rdap")
                } else if cs[n - 1] == '/' {
                    String::from_str(h).concat(".config/rdap")
                } else {
                    String::from_str(h).concat("/").concat(".config/rdap")
                }
            },
        }
    }

    /// The configuration in force: the first of the user's local file, the
    /// user's downloaded file and the system file that was read, else the built-in one.
    pub fn layered(local: Option<Config>, user: Option<Config>, system: Option<Config>, builtin: Config) -> (r: Config)
        ensures
            r == match local {
                Some(c) => c,
                None => match user {
                    Some(c) => c,
                    None => match system {
                        Some(c) => c,
                        None => builtin,
                    },
                },
            },
    {
        match local {
            Some(c) => c,
            None => match user {
                Some(c) => c,
                None => match system {
                    Some(c) => c,
                    None => builtin,
                },
            },
        }
    }
}

/// A character allowed in a TLD list entry: an ASCII letter or digit, or `-`.
pub open spec fn is_tld_char(c: char) -> bool {
    ('a' <= c && c <= 'z') || ('A' <= c && c <= 'Z') || ('0' <= c && c <= '9') || c == '-'
}

/// The lines of the list that are neither empty nor comments, in order.
pub open spec fn entry_lines(lines: Seq<Seq<char>>) -> Seq<Seq<char>>
    decreases lines.len(),
{
    if lines.len() == 0 {
        Seq::empty()
    } else {
        let rest = entry_lines(lines.drop_last());
        if is_entry_line(lines.last()) {
            rest.push(lines.last())
        } else {
            rest
        }
    }
}

/// A downloaded TLD list looks sound: its first five entries are made of
/// ASCII letters, digits and `-` only.
pub open spec fn tld_list_looks_valid(content: Seq<char>) -> bool {
    let es = entry_lines(text_lines(content));
    forall|i: int, j: int|
        0 <= i < es.len() && i < 5 && 0 <= j < es[i].len() ==> is_tld_char(#[trigger] es[i][j])
}

/// The lines of `content` as `str::lines` gives them.
pub fn lines_of(content: &str) -> (r: Vec<Vec<char>>)
    ensures
        r@.map_values(|l: Vec<char>| l@) == text_lines(content@),
{
    let cs = chars_of(content);
    let mut out: Vec<Vec<char>> = Vec::new();
    let mut cur: Vec<char> = Vec::new();
    let mut i: usize = 0;
    while i < cs.len()
        invariant
            i <= cs@.len(),
            line_scan(cs@.subrange(0, i as int)) == (out@.map_values(|l: Vec<char>| l@), cur@),
        decreases cs@.len() - i,
    {
        assert(cs@.subrange(0, i + 1).drop_last() =~= cs@.subrange(0, i as int));
        let c = cs[i];
        if c == '\n' {
            let n = cur.len();
            let line = if n > 0 && cur[n - 1] == '\r' {
                slice_chars(&cur, 0, n - 1)
            } else {
                slice_chars(&cur, 0, n)
            };
            assert(line@ == strip_cr(cur@)) by {
                assert(cur@.subrange(0, n as int) =~= cur@);
            }
            let ghost before = out@.map_values(|l: Vec<char>| l@);
            out.push(line);
            assert(out@.map_values(|l: Vec<char>| l@) =~= before.push(strip_cr(cur@)));
            cur = Vec::new();
        } else {
            cur.push(c);
        }
        i = i + 1;
    }
    assert(cs@.subrange(0, i as int) =~= cs@);
    if cur.len() > 0 {
        let ghost before = out@.map_values(|l: Vec<char>| l@);
        let ghost last = cur@;
        out.push(cur);
        assert(out@.map_values(|l: Vec<char>| l@) =~= before.push(last));
    }
    out
}

/// Whether a downloaded TLD list looks sound enough to be saved.
pub fn tld_list_is_valid(content: &str) -> (r: bool)
    ensures
        r == tld_list_looks_valid(content@),
{
    let lines = lines_of(content);
    let ghost ls = lines@.map_values(|l: Vec<char>| l@);
    let mut seen: usize = 0;
    let mut i: usize = 0;
    while i < lines.len() && seen < 5
        invariant
            ls == lines@.map_values(|l: Vec<char>| l@),
            ls == text_lines(content@),
            i <= lines@.len(),
            seen <= 5,
            entry_lines(ls.subrange(0, i as int)).len() == seen,
            forall|a: int, j: int|
                0 <= a < seen && 0 <= j < entry_lines(ls.subrange(0, i as int))[a].len() ==> is_tld_char(
                    #[trigger] entry_lines(ls.subrange(0, i as int))[a][j],
                ),
        decreases lines@.len() - i,
    {
        let ghost prev = ls.subrange(0, i as int);
        let ghost next = ls.subrange(0, i + 1);
        assert(next.drop_last() =~= prev);
        assert(next.last() == lines@[i as int]@);
        let line = &lines[i];
        if line.len() > 0 && line[0] != '#' {
            assert(entry_lines(next) == entry_lines(prev).push(line@));
            proof {
                lemma_entry_prefix(ls, i as int + 1);
                assert(entry_lines(next)[seen as int] == line@);
            }
            let mut j: usize = 0;
            while j < line.len()
                invariant
                    ls == text_lines(content@),
                    seen < 5,
                    seen < entry_lines(ls).len(),
                    entry_lines(ls)[seen as int] == line@,
                    j <= line@.len(),
                    forall|k: int| 0 <= k < j ==> is_tld_char(#[trigger] line@[k]),
                decreases line@.len() - j,
            {
                let c = line[j];
                if !(('a' <= c && c <= 'z') || ('A' <= c && c <= 'Z') || ('0' <= c && c <= '9') || c == '-') {
                    assert(!is_tld_char(entry_lines(ls)[seen as int][j as int]));
                    return false;
                }
                j = j + 1;
            }
            seen = seen + 1;
        } else {
            assert(entry_lines(next) == entry_lines(prev));
        }
        i = i + 1;
    }
    proof {
        lemma_entry_prefix(ls, i as int);
        let es = entry_lines(ls);
        let pre = entry_lines(ls.subrange(0, i as int));
        if seen < 5 {
            assert(ls.subrange(0, i as int) =~= ls);
        }
        assert forall|a: int, j: int| 0 <= a < es.len() && a < 5 && 0 <= j < es[a].len() implies is_tld_char(
            #[trigger] es[a][j],
        ) by {
            assert(es[a] == pre[a]);
        }
    }
    true
}

proof fn lemma_entry_prefix(ls: Seq<Seq<char>>, i: int)
    requires
        0 <= i <= ls.len(),
    ensures
        entry_lines(ls.subrange(0, i)).len() <= entry_lines(ls).len(),
        forall|a: int| 0 <= a < entry_lines(ls.subrange(0, i)).len() ==> #[trigger] entry_lines(ls)[a]
            == entry_lines(ls.subrange(0, i))[a],
    decreases ls.len() - i,
{
    if i < ls.len() {
        lemma_entry_prefix(ls, i + 1);
        let p = ls.subrange(0, i);
        let q = ls.subrange(0, i + 1);
        assert(q.drop_last() =~= p);
    } else {
        assert(ls.subrange(0, i) =~= ls);
    }
}

/// The bootstrap cache: where documents are kept and how long they stay valid.
#[derive(Debug, Clone)]
pub struct Cache {
    pub cache_dir: String,
    pub ttl_seconds: u64,
}

impl Cache {
    /// A cache in `cache_dir` whose documents stay valid for a day.
    pub fn in_dir(cache_dir: String) -> (r: Self)
        ensures
            r.cache_dir == cache_dir,
            r.ttl_seconds == 86400,
    {
        Cache { cache_dir, ttl_seconds: 24 * 3600 }
    }

    /// The same cache with documents valid for `ttl_seconds`.
    pub fn with_ttl(self, ttl_seconds: u64) -> (r: Self)
        ensures
            r.cache_dir == self.cache_dir,
            r.ttl_seconds == ttl_seconds,
    {
        Cache { ttl_seconds, ..self }
    }

    /// Whether a document written `age_seconds` ago has expired.
    pub fn is_expired(&self, age_seconds: u64) -> (r: bool)
        ensures
            r == (age_seconds > self.ttl_seconds),
    {
        age_seconds > self.ttl_seconds
    }
}

} // verus!

verus! {

proof fn lemma_least_usable_suffix(m: Map<Seq<char>, Seq<char>>, d: Seq<char>, k1: int)
    requires
        is_label_start(d, k1),
        override_usable(m, suffix_from(d, k1)),
    ensures
        exists|k: int| k <= k1 && #[trigger] longest_override(m, d, k),
    decreases k1,
{
    if exists|k2: int| 0 <= k2 < k1 && is_label_start(d, k2) && override_usable(m, #[trigger] suffix_from(d, k2)) {
        let k2 = choose|k2: int| 0 <= k2 < k1 && is_label_start(d, k2) && override_usable(m, #[trigger] suffix_from(d, k2));
        lemma_least_usable_suffix(m, d, k2);
        let k = choose|k: int| k <= k2 && #[trigger] longest_override(m, d, k);
        assert(k <= k1 && longest_override(m, d, k));
    } else {
        assert(longest_override(m, d, k1));
    }
}

/// When the override map holds a usable entry for some suffix of a domain, the
/// override chosen is that of the longest such suffix: no shorter suffix is
/// ever preferred to a longer one that has a usable entry.
pub proof fn override_prefers_longest_suffix(m: Map<Seq<char>, Seq<char>>, domain: Seq<char>, k1: int)
    requires
        is_label_start(normalized_domain(domain), k1),
        override_usable(m, suffix_from(normalized_domain(domain), k1)),
    ensures
        exists|k: int|
            k <= k1 && #[trigger] longest_override(m, normalized_domain(domain), k) && override_for(
                m,
                normalized_domain(domain),
            ) == parsed_url(m[suffix_from(normalized_domain(domain), k)]),
{
    let d = normalized_domain(domain);
    lemma_least_usable_suffix(m, d, k1);
    let k = choose|k: int| k <= k1 && #[trigger] longest_override(m, d, k);
    let c = choose|c: int| longest_override(m, d, c);
    assert(c == k) by {
        if c < k {
            assert(!override_usable(m, suffix_from(d, c)));
        } else if c > k {
            assert(!override_usable(m, suffix_from(d, k)));
        }
    }
}

} // verus!
