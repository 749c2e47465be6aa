//! The filter configuration: which application, which interface, and the
//! tuning knobs read from the environment.
use crate::text::{ascii, ascii_vec, bytes_eq};
use vstd::prelude::*;

verus! {

/// The application's module and attribute: the text around the first colon,
/// the attribute being `app` when there is no colon.
pub open spec fn spec_split_app(s: Seq<char>) -> (Seq<char>, Seq<char>) {
    let i = first_colon(s);
    if i < s.len() {
        (s.take(i), s.skip(i + 1))
    } else {
        (s, seq!['a', 'p', 'p'])
    }
}

/// The position of the first colon, or the length.
pub open spec fn first_colon(s: Seq<char>) -> int
    decreases s.len(),
{
    if s.len() == 0 || s[0] == ':' {
        0
    } else {
        1 + first_colon(s.drop_first())
    }
}

proof fn lemma_first_colon(s: Seq<char>, i: int)
    requires
        0 <= i <= s.len(),
        forall|k: int| 0 <= k < i ==> s[k] != ':',
        i < s.len() ==> s[i] == ':',
    ensures
        first_colon(s) == i,
    decreases s.len(),
{
    if s.len() > 0 && s[0] != ':' {
        assert forall|k: int| 0 <= k < i - 1 implies s.drop_first()[k] != ':' by {
            assert(s.drop_first()[k] == s[k + 1]);
        }
        if i < s.len() {
            assert(s.drop_first()[i - 1] == s[i]);
        }
        lemma_first_colon(s.drop_first(), i - 1);
    }
}

/// Splits an application reference such as `module:attr`.
pub fn split_app(app: &str) -> (res: (String, String))
    ensures
        (res.0@, res.1@) == spec_split_app(app@),
{
    let len = vstd::string::StrSliceExecFns::unicode_len(app);
    let mut i: usize = 0;
    let mut found = false;
    while i < len && !found
        invariant
            len == app@.len(),
            i <= len,
            forall|k: int| 0 <= k < i ==> app@[k] != ':',
            found ==> i < len && app@[i as int] == ':',
        decreases len - i + (if found { 0int } else { 1int }),
    {
        if vstd::string::StrSliceExecFns::get_char(app, i) == ':' {
            found = true;
        } else {
            i = i + 1;
        }
    }
    proof {
        lemma_first_colon(app@, i as int);
    }
    if found {
        let module = vstd::string::StrSliceExecFns::substring_char(app, 0, i);
        let attr = vstd::string::StrSliceExecFns::substring_char(app, i + 1, len);
        proof {
            assert(module@ =~= app@.take(i as int));
            assert(attr@ =~= app@.skip(i + 1));
        }
        (
            <String as vstd::string::StringExecFns>::from_str(module),
            <String as vstd::string::StringExecFns>::from_str(attr),
        )
    } else {
        proof {
            reveal_strlit("app");
        }
        (
            <String as vstd::string::StringExecFns>::from_str(app),
            <String as vstd::string::StringExecFns>::from_str("app"),
        )
    }
}

/// The Python interface an application implements.
#[derive(Clone, Copy, PartialEq, Eq, Structural, Debug)]
pub enum Interface {
    Asgi,
    Wsgi,
}

/// The async library an ASGI application runs on.
#[derive(Clone, Copy, PartialEq, Eq, Structural, Debug)]
pub enum Io {
    Asyncio,
    Trio,
}

/// The async library for its name, if supported.
pub fn parse_io(name: &[u8]) -> (res: Option<Io>)
    ensures
        res == (if name@ == ascii(seq!['a', 's', 'y', 'n', 'c', 'i', 'o']) {
            Some(Io::Asyncio)
        } else if name@ == ascii(seq!['t', 'r', 'i', 'o']) {
            Some(Io::Trio)
        } else {
            None
        }),
{
    proof {
        reveal_strlit("asyncio");
        reveal_strlit("trio");
    }
    let asyncio = ascii_vec("asyncio");
    let trio = ascii_vec("trio");
    assert(asyncio@ == ascii(seq!['a', 's', 'y', 'n', 'c', 'i', 'o']));
    assert(trio@ == ascii(seq!['t', 'r', 'i', 'o']));
    if bytes_eq(name, asyncio.as_slice()) {
        Some(Io::Asyncio)
    } else if bytes_eq(name, trio.as_slice()) {
        Some(Io::Trio)
    } else {
        None
    }
}

/// Why the filter configuration is refused.
pub enum ConfigError {
    /// The YAML could not be parsed; the parser's message.
    InvalidYaml(String),
    /// The YAML holds no document.
    Empty,
    /// The `app` field is missing (or not a string).
    MissingApp,
    /// The `interface` is neither `asgi` nor `wsgi`.
    UnsupportedInterface(String),
}

/// The application and interface a filter is configured with.
pub struct FilterChoice {
    pub app: String,
    pub interface: Interface,
}

/// What `yaml_rust2::YamlLoader::load_from_str` makes of a text: the
/// parser's error message, or for each document the entries of its
/// top-level mapping in order (none when the document is no mapping), each
/// key and value as text when it is a string.
pub uninterp spec fn yaml_docs(text: Seq<char>) -> Result<
    Seq<Seq<(Option<Seq<char>>, Option<Seq<char>>)>>,
    Seq<char>,
>;

/// A YAML entry: its key and value, each when it is a string.
pub type YamlEntry = (Option<String>, Option<String>);

pub open spec fn opt_view(o: Option<String>) -> Option<Seq<char>> {
    match o {
        Some(s) => Some(s@),
        None => None,
    }
}

/// The entries of a document as text.
pub open spec fn entries_view(entries: Seq<YamlEntry>) -> Seq<(Option<Seq<char>>, Option<Seq<char>>)> {
    entries.map_values(|e: YamlEntry| (opt_view(e.0), opt_view(e.1)))
}

/// The documents as text.
pub open spec fn docs_view(docs: Seq<Vec<YamlEntry>>) -> Seq<Seq<(Option<Seq<char>>, Option<Seq<char>>)>> {
    docs.map_values(|d: Vec<YamlEntry>| entries_view(d@))
}

/// Parses YAML with `yaml_rust2::YamlLoader::load_from_str`, handing over
/// each document's top-level mapping entries as strings where they are
/// strings, or the parser's error message.
#[verifier::external_body]
pub(crate) fn load_yaml_docs(text: &str) -> (res: Result<Vec<Vec<YamlEntry>>, String>)
    ensures
        match (res, yaml_docs(text@)) {
            (Ok(docs), Ok(d)) => docs_view(docs@) == d,
            (Err(m), Err(n)) => m@ == n,
            _ => false,
        },
{
    match yaml_rust2::YamlLoader::load_from_str(text) {
        Ok(docs) => Ok(docs.iter().map(|doc| match doc.as_hash() {
            Some(h) => h.iter().map(|(k, v)| (k.as_str().map(String::from), v.as_str().map(String::from))).collect(),
            None => Vec::new(),
        }).collect()),
        Err(e) => Err(e.to_string()),
    }
}

/// The value of the first entry whose key is `key`, when it is a string:
/// what indexing a YAML mapping by `key` and reading it as a string gives.
pub open spec fn lookup(entries: Seq<(Option<Seq<char>>, Option<Seq<char>>)>, key: Seq<char>) -> Option<Seq<char>>
    decreases entries.len(),
{
    if entries.len() == 0 {
        None
    } else if entries[0].0 == Some(key) {
        entries[0].1
    } else {
        lookup(entries.drop_first(), key)
    }
}

/// The value of the entry `key` of a document (see `lookup`).
pub fn find_entry(entries: &Vec<YamlEntry>, key: &str) -> (res: Option<String>)
    ensures
        opt_view(res) == lookup(entries_view(entries@), key@),
{
    let ghost ev = entries_view(entries@);
    proof {
        assert(ev.skip(0) =~= ev);
    }
    let mut i: usize = 0;
    while i < entries.len()
        invariant
            i <= entries@.len(),
            ev == entries_view(entries@),
            lookup(ev, key@) == lookup(ev.skip(i as int), key@),
        decreases entries@.len() - i,
    {
        proof {
            assert(ev.skip(i as int).drop_first() =~= ev.skip(i + 1));
            assert(ev.skip(i as int)[0] == ev[i as int]);
            assert(ev[i as int] == (opt_view(entries@[i as int].0), opt_view(entries@[i as int].1)));
        }
        let matches = match &entries[i].0 {
            Some(k) => crate::text::str_eq(k.as_str(), key),
            None => false,
        };
        if matches {
            return match &entries[i].1 {
                Some(v) => Some(v.clone()),
                None => None,
            };
        }
        i = i + 1;
    }
    proof {
        assert(ev.skip(i as int).len() == 0);
    }
    None
}

/// The application and interface of the first document: `app` is required,
/// `interface` defaults to `asgi` and must be `asgi` or `wsgi`.
pub open spec fn spec_choice(docs: Seq<Seq<(Option<Seq<char>>, Option<Seq<char>>)>>) -> Result<
    (Seq<char>, Interface),
    Option<Seq<char>>,
> {
    if docs.len() == 0 {
        Err(None)
    } else {
        match lookup(docs[0], seq!['a', 'p', 'p']) {
            None => Err(None),
            Some(app) => {
                let iface = match lookup(docs[0], seq!['i', 'n', 't', 'e', 'r', 'f', 'a', 'c', 'e']) {
                    Some(i) => i,
                    None => seq!['a', 's', 'g', 'i'],
                };
                if iface == seq!['a', 's', 'g', 'i'] {
                    Ok((app, Interface::Asgi))
                } else if iface == seq!['w', 's', 'g', 'i'] {
                    Ok((app, Interface::Wsgi))
                } else {
                    Err(Some(iface))
                }
            },
        }
    }
}

/// What a configuration whose documents are `docs` gives (see
/// `spec_choice`): no document, a missing `app`, or an unsupported interface
/// are errors.
pub open spec fn choice_ok(docs: Seq<Seq<(Option<Seq<char>>, Option<Seq<char>>)>>, res: Result<FilterChoice, ConfigError>) -> bool {
    &&& docs.len() == 0 ==> (res matches Err(ConfigError::Empty))
    &&& docs.len() > 0 && lookup(docs[0], seq!['a', 'p', 'p']) is None ==> (res matches Err(ConfigError::MissingApp))
    &&& docs.len() > 0 && lookup(docs[0], seq!['a', 'p', 'p']) is Some ==> match (res, spec_choice(docs)) {
        (Ok(c), Ok((app, iface))) => c.app@ == app && c.interface == iface,
        (Err(ConfigError::UnsupportedInterface(i)), Err(Some(j))) => i@ == j,
        _ => false,
    }
}

/// Chooses the application and interface from the YAML documents.
pub fn choose_filter(docs: Vec<Vec<YamlEntry>>) -> (res: Result<FilterChoice, ConfigError>)
    ensures
        choice_ok(docs_view(docs@), res),
{
    if docs.len() == 0 {
        return Err(ConfigError::Empty);
    }
    let ghost d = docs_view(docs@);
    proof {
        reveal_strlit("app");
        reveal_strlit("interface");
        reveal_strlit("asgi");
        reveal_strlit("wsgi");
    }
    assert(d[0] == entries_view(docs@[0]@));
    assert("asgi"@ == seq!['a', 's', 'g', 'i']);
    assert("wsgi"@ == seq!['w', 's', 'g', 'i']);
    assert("app"@ == seq!['a', 'p', 'p']);
    assert("interface"@ == seq!['i', 'n', 't', 'e', 'r', 'f', 'a', 'c', 'e']);
    let app = match find_entry(&docs[0], "app") {
        Some(a) => a,
        None => {
            return Err(ConfigError::MissingApp);
        },
    };
    let iface: String = match find_entry(&docs[0], "interface") {
        Some(i) => i,
        None => <String as vstd::string::StringExecFns>::from_str("asgi"),
    };
    if crate::text::str_eq(iface.as_str(), "asgi") {
        Ok(FilterChoice { app, interface: Interface::Asgi })
    } else if crate::text::str_eq(iface.as_str(), "wsgi") {
        Ok(FilterChoice { app, interface: Interface::Wsgi })
    } else {
        Err(ConfigError::UnsupportedInterface(iface))
    }
}

/// The filter configured by YAML text: the application and interface of its
/// first document (see `spec_choice`), or why it is refused.
pub fn new_http_filter_config(config: &str) -> (res: Result<FilterChoice, ConfigError>)
    ensures
        match yaml_docs(config@) {
            Err(m) => (res matches Err(ConfigError::InvalidYaml(n)) && n@ == m),
            Ok(d) => choice_ok(d, res),
        },
{
    match load_yaml_docs(config) {
        Ok(docs) => choose_filter(docs),
        Err(m) => Err(ConfigError::InvalidYaml(m)),
    }
}

/// The value written by `s`: an optional `+`, then one or more digits.
pub open spec fn parsed_nat(s: Seq<u8>) -> Option<int> {
    let d = if s.len() > 0 && s[0] == 43 {
        s.drop_first()
    } else {
        s
    };
    if d.len() > 0 && crate::wsgi::response::all_digits(d) {
        Some(crate::wsgi::response::digits_value(d))
    } else {
        None
    }
}

/// The number of events handled per hold of the interpreter lock: the
/// configured value when it is a valid `usize`, else 40.
pub fn gil_batch_size(configured: Option<&[u8]>) -> (res: usize)
    ensures
        match configured {
            Some(s) => match parsed_nat(s@) {
                Some(v) => if v <= usize::MAX {
                    res == v
                } else {
                    res == 40
                },
                None => res == 40,
            },
            None => res == 40,
        },
{
    proof {
        match configured {
            Some(s) => {
                let d = if s@.len() > 0 && s@[0] == 43 {
                    s@.drop_first()
                } else {
                    s@
                };
                if d.len() > 0 && crate::wsgi::response::all_digits(d) {
                    crate::wsgi::response::lemma_digits_value_nonneg(d);
                }
            },
            None => {},
        }
    }
    match configured {
        None => 40,
        Some(s) => match parse_usize(s) {
            Some(v) => v,
            None => 40,
        },
    }
}

/// Parses a `usize` the way Rust does: an optional `+` and one or more
/// digits whose value fits.
pub fn parse_usize(s: &[u8]) -> (res: Option<usize>)
    ensures
        match parsed_nat(s@) {
            Some(v) => if v <= usize::MAX {
                res == Some(v as usize)
            } else {
                res is None
            },
            None => res is None,
        },
{
    let mut start: usize = 0;
    if s.len() > 0 && s[0] == 43u8 {
        start = 1;
    }
    let ghost d = if s@.len() > 0 && s@[0] == 43 {
        s@.drop_first()
    } else {
        s@
    };
    proof {
        assert(d =~= s@.subrange(start as int, s@.len() as int));
    }
    if start == s.len() {
        return None;
    }
    let mut value: usize = 0;
    let mut i: usize = start;
    while i < s.len()
        invariant
            start <= i <= s@.len(),
            d == s@.subrange(start as int, s@.len() as int),
            d == (if s@.len() > 0 && s@[0] == 43 { s@.drop_first() } else { s@ }),
            crate::wsgi::response::all_digits(d.take(i - start)),
            value == crate::wsgi::response::digits_value(d.take(i - start)),
        decreases s@.len() - i,
    {
        let b = s[i];
        if b < 48u8 || b > 57u8 {
            proof {
                assert(d[i - start] == b);
                assert(!crate::wsgi::response::all_digits(d));
            }
            return None;
        }
        proof {
            assert(d.take(i - start + 1).drop_last() =~= d.take(i - start));
            assert(d.take(i - start + 1).last() == b);
            assert(crate::wsgi::response::all_digits(d.take(i - start + 1)));
        }
        let digit = (b - 48u8) as usize;
        match value.checked_mul(10) {
            Some(m) => match m.checked_add(digit) {
                Some(next) => {
                    value = next;
                },
                None => {
                    proof {
                        if crate::wsgi::response::all_digits(d) {
                            crate::wsgi::response::lemma_digits_value_grows(d, i - start + 1);
                        }
                    }
                    return None;
                },
            },
            None => {
                proof {
                    if crate::wsgi::response::all_digits(d) {
                        crate::wsgi::response::lemma_digits_value_grows(d, i - start + 1);
                        crate::wsgi::response::lemma_digits_value_nonneg(d.take(i - start + 1));
                        assert(d.take(i - start + 1).drop_last() =~= d.take(i - start));
                        crate::wsgi::response::lemma_digits_value_nonneg(d.take(i - start));
                    }
                }
                return None;
            },
        }
        i = i + 1;
    }
    proof {
        assert(d.take(i - start) =~= d);
    }
    Some(value)
}

/// The event loop a new request runs on, in turn.
pub fn loop_index(next: u64, count: usize) -> (res: usize)
    requires
        count > 0,
    ensures
        res == (next as int) % (count as int),
{
    (next % (count as u64)) as usize
}

/// Loop `j` is picked by one of the `count` picks from counter `next`.
pub open spec fn picked_within(next: int, count: int, j: int) -> bool {
    exists|i: int| 0 <= i < count && #[trigger] ((next + i) % count) == j
}

/// Event loops are picked round-robin: from any counter value, `count`
/// consecutive picks give each of the `count` loops exactly once, and with a
/// single loop every pick gives it.
pub proof fn law_round_robin(next: int, count: int)
    requires
        next >= 0,
        count > 0,
    ensures
        forall|j: int| 0 <= j < count ==> #[trigger] picked_within(next, count, j),
        forall|i: int, i2: int|
            0 <= i < i2 < count ==> #[trigger] ((next + i) % count) != #[trigger] ((next + i2) % count),
        count == 1 ==> next % count == 0,
{
    let q = next / count;
    let r = next % count;
    vstd::arithmetic::div_mod::lemma_fundamental_div_mod(next, count);
    assert(0 <= r < count);
    assert(next == q * count + r) by (nonlinear_arith)
        requires
            next == count * q + r,
    ;
    assert forall|j: int| 0 <= j < count implies #[trigger] picked_within(next, count, j) by {
        if j >= r {
            let i = j - r;
            vstd::arithmetic::div_mod::lemma_fundamental_div_mod_converse(next + i, count, q, j);
            assert((next + i) % count == j);
        } else {
            let i = count - r + j;
            assert(next + i == (q + 1) * count + j) by (nonlinear_arith)
                requires
                    next == q * count + r,
                    i == count - r + j,
            ;
            vstd::arithmetic::div_mod::lemma_fundamental_div_mod_converse(next + i, count, q + 1, j);
            assert((next + i) % count == j);
        }
    }
    assert forall|i: int, i2: int| 0 <= i < i2 < count implies #[trigger] ((next + i) % count) != #[trigger] ((next + i2) % count) by {
        let a = next + i;
        let b = next + i2;
        vstd::arithmetic::div_mod::lemma_fundamental_div_mod(a, count);
        vstd::arithmetic::div_mod::lemma_fundamental_div_mod(b, count);
        if a % count == b % count {
            let qa = a / count;
            let qb = b / count;
            assert(b - a == count * (qb - qa)) by (nonlinear_arith)
                requires
                    a == count * qa + a % count,
                    b == count * qb + b % count,
                    a % count == b % count,
            ;
            assert(false) by (nonlinear_arith)
                requires
                    b - a == count * (qb - qa),
                    0 < b - a < count,
                    count > 0,
            ;
        }
    }
    if count == 1 {
        vstd::arithmetic::div_mod::lemma_fundamental_div_mod_converse(next, count, next, 0);
    }
}

} // verus!
