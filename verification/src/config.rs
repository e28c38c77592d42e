//! Layered configuration: where the helpers, the trust store and the search directories are.
//!
//! [`Deployment`] (`system.toml`) is read from directories that only root writes, [`User`]
//! (`config.toml`) also from the user's. A higher layer wins key by key, and what no layer sets has
//! a default.

use crate::decimal;
use crate::decimal::dec_text;
use crate::layout;
use crate::layout::push_line;
use crate::path;
use crate::path::join;
use crate::text;
use crate::text::{among, concat2, concat3, concat4, same};
use vstd::prelude::*;
use vstd::string::*;

verus! {

/// The vendor's directory: the lowest layer.
pub const VENDOR_DIR: &'static str = "/usr/lib/kennel";

/// The host's directory.
pub const SYSTEM_DIR: &'static str = "/etc/kennel";

/// The file of the deployment.
pub const SYSTEM_FILE: &'static str = "system.toml";

/// The file of the user's conveniences.
pub const USER_FILE: &'static str = "config.toml";

/// The largest file that is read, in bytes.
pub const MAX_CONFIG: u64 = 262_144;

/// Why a layer could not be used.
#[derive(Debug)]
pub enum ConfigError {
    /// It is there but cannot be read.
    Read {
        /// The file.
        path: String,
        /// The error.
        source: String,
    },
    /// It is larger than [`MAX_CONFIG`].
    TooLarge {
        /// The file.
        path: String,
        /// Its size.
        size: u64,
    },
    /// It is not what it should be.
    Parse {
        /// The file.
        path: String,
        /// What is wrong.
        message: String,
    },
}

impl ConfigError {
    /// The error in words.
    pub open spec fn text(self) -> Seq<char> {
        match self {
            ConfigError::Read { path, source } => "reading "@ + path@ + ": "@ + source@,
            ConfigError::TooLarge { path, size } => path@ + " is too large ("@ + decimal::dec(
                size as nat,
            ) + " bytes)"@,
            ConfigError::Parse { path, message } => "parsing "@ + path@ + ": "@ + message@,
        }
    }

    /// Whether the error is what a layer that cannot be used gives: it names the layer's file, and
    /// tells what could not be read from what is too large and from what is not as it should be.
    pub open spec fn blames(self, l: Layer) -> bool {
        match (self, l.read) {
            (ConfigError::Read { path, source }, LayerRead::Unreadable(e)) => path@ == l.path@
                && source@ == e@,
            (ConfigError::TooLarge { path, size }, LayerRead::Large(n)) => path@ == l.path@ && size
                == n,
            (ConfigError::Parse { path, message: _ }, LayerRead::Text(_)) => path@ == l.path@,
            _ => false,
        }
    }

    /// The error in words.
    pub fn describe(&self) -> (r: String)
        ensures
            r@ == self.text(),
    {
        match self {
            ConfigError::Read { path, source } => concat4(
                "reading ",
                path.as_str(),
                ": ",
                source.as_str(),
            ),
            ConfigError::TooLarge { path, size } => {
                let n = dec_text(*size);
                concat4(path.as_str(), " is too large (", n.as_str(), " bytes)")
            },
            ConfigError::Parse { path, message } => concat4(
                "parsing ",
                path.as_str(),
                ": ",
                message.as_str(),
            ),
        }
    }
}

/// Whether a file of the size is not read.
pub fn is_too_large(size: u64) -> (r: bool)
    ensures
        r == (size > MAX_CONFIG),
{
    size > MAX_CONFIG
}

/// What reading the file of a layer gave.
#[derive(Debug)]
pub enum LayerRead {
    /// There is none.
    Absent,
    /// It cannot be read; the error.
    Unreadable(String),
    /// It is too large; its size.
    Large(u64),
    /// Its text.
    Text(String),
}

/// The file of a layer, and what reading it gave.
#[derive(Debug)]
pub struct Layer {
    /// The file.
    pub path: String,
    /// What reading it gave.
    pub read: LayerRead,
}

/// The user's configuration directory: below `xdg` where it is set, else below `home`.
pub fn user_config_dir(xdg: Option<&str>, home: Option<&str>) -> (r: Option<String>)
    ensures
        layout::opt(r) == match (xdg, home) {
            (Some(x), _) => Some(path::joined(x@, "kennel"@)),
            (None, Some(h)) => Some(path::joined(h@, ".config/kennel"@)),
            (None, None) => None::<Seq<char>>,
        },
{
    match xdg {
        Some(x) => Some(join(x, "kennel")),
        None => match home {
            Some(h) => Some(join(h, ".config/kennel")),
            None => None,
        },
    }
}

// ---- the text of a layer -------------------------------------------------------

/// What `basic_toml` makes of a text as a table of texts: its keys and values in the order of the
/// keys, or its error.
pub uninterp spec fn toml_texts(text: Seq<char>) -> Result<Seq<(Seq<char>, Seq<char>)>, Seq<char>>;

/// What `basic_toml` makes of a text as a table of lists of texts: its keys and values in the order
/// of the keys, or its error.
pub uninterp spec fn toml_lists(text: Seq<char>) -> Result<
    Seq<(Seq<char>, Seq<Seq<char>>)>,
    Seq<char>,
>;

/// What `basic_toml` makes of a text as a table of anything: its keys in the order in which they
/// stand there, each with whether its value is a text and, where it is a list, whether each element
/// is one; or its error.
pub uninterp spec fn toml_kinds(text: Seq<char>) -> Result<
    Seq<(Seq<char>, bool, Option<Seq<bool>>)>,
    Seq<char>,
>;

/// Where `basic_toml` says that an error is that belongs to the whole of a text: line and column,
/// counted from zero.
pub uninterp spec fn toml_place(text: Seq<char>) -> Option<(u64, u64)>;

/// The texts of pairs.
pub open spec fn pairs(v: Seq<(String, String)>) -> Seq<(Seq<char>, Seq<char>)> {
    v.map_values(|p: (String, String)| (p.0@, p.1@))
}

/// The texts of a key and a list.
pub open spec fn lists(v: Seq<(String, Vec<String>)>) -> Seq<(Seq<char>, Seq<Seq<char>>)> {
    v.map_values(|p: (String, Vec<String>)| (p.0@, text::texts(p.1@)))
}

/// The kinds of a key's value.
pub open spec fn kind(k: (String, bool, Option<Vec<bool>>)) -> (Seq<char>, bool, Option<Seq<bool>>) {
    (
        k.0@,
        k.1,
        match k.2 {
            Some(v) => Some(v@),
            None => None,
        },
    )
}

/// The kinds of the values of keys.
pub open spec fn kinds(v: Seq<(String, bool, Option<Vec<bool>>)>) -> Seq<
    (Seq<char>, bool, Option<Seq<bool>>),
> {
    v.map_values(|k: (String, bool, Option<Vec<bool>>)| kind(k))
}

/// `basic_toml::from_str` into a `serde_json::Map`, which keeps the order of its keys: reads any TOML
/// and tells of each value what it is. A text that names a key twice is an error, whatever else it
/// holds. The result depends on the text alone; what it is takes the TOML grammar to say.
#[verifier::external_body]
fn parse_kinds(source: &str) -> (r: Result<Vec<(String, bool, Option<Vec<bool>>)>, String>)
    ensures
        match toml_kinds(source@) {
            Ok(ks) => r matches Ok(v) && kinds(v@) == ks,
            Err(e) => r matches Err(m) && m@ == e,
        },
{
    let texts = |a: &Vec<serde_json::Value>| a.iter().map(serde_json::Value::is_string).collect();
    basic_toml::from_str::<serde_json::Map<String, serde_json::Value>>(source)
        .map(|m| m.iter().map(|(k, v)| (k.clone(), v.is_string(), v.as_array().map(texts))).collect())
        .map_err(|e| e.to_string())
}

/// `basic_toml::from_str` into a string, which no TOML is, and `basic_toml::Error::line_col` of the
/// error: where an error of the whole text is, which is where its last table starts if the text is
/// TOML. The result depends on the text alone.
#[verifier::external_body]
fn parse_place(source: &str) -> (r: Option<(u64, u64)>)
    ensures
        r == toml_place(source@),
{
    let place = basic_toml::from_str::<String>(source).err().and_then(|e| e.line_col());
    place.map(|(line, column)| (line as u64, column as u64))
}

/// `basic_toml::from_str` into a map of paths: reads TOML in which every value is a string. The
/// result depends on the text alone; what it is takes the TOML grammar to say.
#[verifier::external_body]
fn parse_texts(source: &str) -> (r: Result<Vec<(String, String)>, String>)
    ensures
        match toml_texts(source@) {
            Ok(ps) => r matches Ok(v) && pairs(v@) == ps,
            Err(e) => r matches Err(m) && m@ == e,
        },
{
    basic_toml::from_str::<std::collections::BTreeMap<String, std::path::PathBuf>>(source)
        .map(|m| m.into_iter().map(|(k, v)| (k, v.display().to_string())).collect())
        .map_err(|e| e.to_string())
}

/// `basic_toml::from_str` into a map of lists of paths: reads TOML in which every value is a list
/// of strings. The result depends on the text alone; what it is takes the TOML grammar to say.
#[verifier::external_body]
fn parse_lists(source: &str) -> (r: Result<Vec<(String, Vec<String>)>, String>)
    ensures
        match toml_lists(source@) {
            Ok(ps) => r matches Ok(v) && lists(v@) == ps,
            Err(e) => r matches Err(m) && m@ == e,
        },
{
    let paths = |v: Vec<std::path::PathBuf>| v.iter().map(|p| p.display().to_string()).collect();
    basic_toml::from_str::<std::collections::BTreeMap<String, Vec<std::path::PathBuf>>>(source)
        .map(|m| m.into_iter().map(|(k, v)| (k, paths(v))).collect())
        .map_err(|e| e.to_string())
}

/// The first key that is not one of `known`.
pub open spec fn stranger<V>(ps: Seq<(Seq<char>, V)>, known: Seq<Seq<char>>) -> Option<Seq<char>>
    decreases ps.len(),
{
    if ps.len() == 0 {
        None
    } else if known.contains(ps[0].0) {
        stranger(ps.drop_first(), known)
    } else {
        Some(ps[0].0)
    }
}

/// The value of a key.
pub open spec fn entry<V>(ps: Seq<(Seq<char>, V)>, key: Seq<char>) -> Option<V>
    decreases ps.len(),
{
    if ps.len() == 0 {
        None
    } else if ps[0].0 == key {
        Some(ps[0].1)
    } else {
        entry(ps.drop_first(), key)
    }
}

/// Whether a value is of the kind that a layer wants: a text, or a list of texts.
pub open spec fn fits(k: (Seq<char>, bool, Option<Seq<bool>>), list: bool) -> bool {
    if list {
        k.2 matches Some(v) && !v.contains(false)
    } else {
        k.1
    }
}

/// The first key that is not one of `known`, unless a value of another kind than wanted stands
/// before it.
pub open spec fn leading_stranger(
    ks: Seq<(Seq<char>, bool, Option<Seq<bool>>)>,
    known: Seq<Seq<char>>,
    list: bool,
) -> Option<Seq<char>>
    decreases ks.len(),
{
    if ks.len() == 0 {
        None
    } else if !known.contains(ks[0].0) {
        Some(ks[0].0)
    } else if !fits(ks[0], list) {
        None
    } else {
        leading_stranger(ks.drop_first(), known, list)
    }
}

/// What is wrong with a file.
pub enum Flaw {
    /// What `basic_toml` says.
    Said(Seq<char>),
    /// A key that it should not have.
    Unknown(Seq<char>),
}

/// What is wrong with a file, by its keys and kinds as they stand there and by the values that it
/// was read as: the first thing that is.
pub open spec fn flaw<V>(
    ks: Result<Seq<(Seq<char>, bool, Option<Seq<bool>>)>, Seq<char>>,
    values: Result<Seq<(Seq<char>, V)>, Seq<char>>,
    known: Seq<Seq<char>>,
    list: bool,
) -> Option<Flaw> {
    match ks {
        Err(e) => Some(Flaw::Said(e)),
        Ok(ks) => match leading_stranger(ks, known, list) {
            Some(k) => Some(Flaw::Unknown(k)),
            None => match values {
                Err(e) => Some(Flaw::Said(e)),
                Ok(ps) => match stranger(ps, known) {
                    Some(k) => Some(Flaw::Unknown(k)),
                    None => None,
                },
            },
        },
    }
}

/// Where an error is, in words.
pub open spec fn place_text(place: Option<(u64, u64)>) -> Seq<char> {
    match place {
        Some((line, column)) => " at line "@ + decimal::dec((line + 1) as nat) + " column "@
            + decimal::dec((column + 1) as nat),
        None => ""@,
    }
}

fn told_place(place: Option<(u64, u64)>) -> (r: String)
    ensures
        r@ == place_text(place),
{
    match place {
        Some((line, column)) => {
            let a = decimal::next_dec_text(line);
            let b = decimal::next_dec_text(column);
            concat4(" at line ", a.as_str(), " column ", b.as_str())
        },
        None => "".to_owned(),
    }
}

fn is_fit(k: &(String, bool, Option<Vec<bool>>), list: bool) -> (r: bool)
    ensures
        r == fits(kind(*k), list),
{
    if !list {
        return k.1;
    }
    match &k.2 {
        None => false,
        Some(v) => {
            let mut i: usize = 0;
            while i < v.len()
                invariant
                    i <= v@.len(),
                    list,
                    k.2 == Some(*v),
                    forall|j: int| 0 <= j < i ==> #[trigger] v@[j] == true,
                decreases v@.len() - i,
            {
                if !v[i] {
                    assert(v@[i as int] == false);
                    return false;
                }
                i = i + 1;
            }
            true
        },
    }
}

fn find_stranger(ks: &[(String, bool, Option<Vec<bool>>)], known: &[&str], list: bool) -> (r: Option<
    String,
>)
    ensures
        layout::opt(r) == leading_stranger(kinds(ks@), text::strs(known@), list),
{
    let ghost all = kinds(ks@);
    let ghost names = text::strs(known@);
    let mut i: usize = 0;
    assert(all.skip(0) =~= all);
    while i < ks.len()
        invariant
            i <= ks@.len(),
            all == kinds(ks@),
            names == text::strs(known@),
            leading_stranger(all.skip(i as int), names, list) == leading_stranger(all, names, list),
        decreases ks@.len() - i,
    {
        proof {
            assert(all.skip(i as int)[0] == kind(ks@[i as int]));
            assert(all.skip(i as int).drop_first() =~= all.skip(i + 1));
        }
        if !among(known, ks[i].0.as_str()) {
            return Some(ks[i].0.clone());
        }
        if !is_fit(&ks[i], list) {
            return None;
        }
        i = i + 1;
    }
    None
}

/// What a reading of a file gave, as text.
pub open spec fn read_kinds(r: Result<Vec<(String, bool, Option<Vec<bool>>)>, String>) -> Result<
    Seq<(Seq<char>, bool, Option<Seq<bool>>)>,
    Seq<char>,
> {
    match r {
        Ok(v) => Ok(kinds(v@)),
        Err(e) => Err(e@),
    }
}

// ---- the deployment ------------------------------------------------------------

/// One layer of the deployment.
#[derive(Debug)]
pub struct RawDeployment {
    /// The directory of the helpers.
    pub libexec_dir: Option<String>,
    /// The trust store.
    pub trust_dir: Option<String>,
    /// The host's `sshd`.
    pub sshd: Option<String>,
    /// The privileged helper.
    pub privhelper: Option<String>,
    /// The egress proxy.
    pub netproxy: Option<String>,
    /// The helper that opens ssh connections anew.
    pub ssh_reorigin: Option<String>,
    /// The helper that connects through SOCKS.
    pub socks_connect: Option<String>,
    /// The helper that lists authorized keys.
    pub akc: Option<String>,
}

/// The keys of a layer of the deployment.
pub open spec fn deployment_keys() -> Seq<Seq<char>> {
    seq![
        "libexec_dir"@,
        "trust_dir"@,
        "sshd"@,
        "privhelper"@,
        "netproxy"@,
        "ssh_reorigin"@,
        "socks_connect"@,
        "akc"@,
    ]
}

/// What is said of a key that a layer of the deployment does not have.
pub open spec fn unknown_key(k: Seq<char>) -> Seq<char> {
    "unknown field `"@ + k
        + "`, expected one of `libexec_dir`, `trust_dir`, `sshd`, `privhelper`, `netproxy`, `ssh_reorigin`, `socks_connect`, `akc`"@
}

/// `a` where it is there, else `b`.
pub open spec fn either(a: Option<Seq<char>>, b: Option<Seq<char>>) -> Option<Seq<char>> {
    if a is Some {
        a
    } else {
        b
    }
}

fn or_else(a: Option<String>, b: Option<String>) -> (r: Option<String>)
    ensures
        layout::opt(r) == either(layout::opt(a), layout::opt(b)),
{
    match a {
        Some(s) => Some(s),
        None => b,
    }
}

fn find_text(ps: &[(String, String)], key: &str) -> (r: Option<String>)
    ensures
        layout::opt(r) == entry(pairs(ps@), key@),
{
    let ghost all = pairs(ps@);
    let mut i: usize = 0;
    assert(all.skip(0) =~= all);
    while i < ps.len()
        invariant
            i <= ps@.len(),
            all == pairs(ps@),
            entry(all.skip(i as int), key@) == entry(all, key@),
        decreases ps@.len() - i,
    {
        proof {
            assert(all.skip(i as int)[0] == (ps@[i as int].0@, ps@[i as int].1@));
            assert(all.skip(i as int).drop_first() =~= all.skip(i + 1));
        }
        if same(ps[i].0.as_str(), key) {
            return Some(ps[i].1.clone());
        }
        i = i + 1;
    }
    None
}

impl RawDeployment {
    /// A layer that sets nothing.
    pub fn empty() -> (r: RawDeployment)
        ensures
            r.sets_nothing(),
    {
        RawDeployment {
            libexec_dir: None,
            trust_dir: None,
            sshd: None,
            privhelper: None,
            netproxy: None,
            ssh_reorigin: None,
            socks_connect: None,
            akc: None,
        }
    }

    /// Whether the layer sets nothing.
    pub open spec fn sets_nothing(self) -> bool {
        self.libexec_dir is None && self.trust_dir is None && self.sshd is None && self.privhelper
            is None && self.netproxy is None && self.ssh_reorigin is None && self.socks_connect
            is None && self.akc is None
    }

    /// Whether the layer is `higher` laid over `lower`, key by key.
    pub open spec fn is_overlay(self, lower: RawDeployment, higher: RawDeployment) -> bool {
        &&& layout::opt(self.libexec_dir) == either(
            layout::opt(higher.libexec_dir),
            layout::opt(lower.libexec_dir),
        )
        &&& layout::opt(self.trust_dir) == either(
            layout::opt(higher.trust_dir),
            layout::opt(lower.trust_dir),
        )
        &&& layout::opt(self.sshd) == either(layout::opt(higher.sshd), layout::opt(lower.sshd))
        &&& layout::opt(self.privhelper) == either(
            layout::opt(higher.privhelper),
            layout::opt(lower.privhelper),
        )
        &&& layout::opt(self.netproxy) == either(
            layout::opt(higher.netproxy),
            layout::opt(lower.netproxy),
        )
        &&& layout::opt(self.ssh_reorigin) == either(
            layout::opt(higher.ssh_reorigin),
            layout::opt(lower.ssh_reorigin),
        )
        &&& layout::opt(self.socks_connect) == either(
            layout::opt(higher.socks_connect),
            layout::opt(lower.socks_connect),
        )
        &&& layout::opt(self.akc) == either(layout::opt(higher.akc), layout::opt(lower.akc))
    }

    /// `higher` laid over this layer: a value that it sets wins.
    pub fn overlay(self, higher: RawDeployment) -> (r: RawDeployment)
        ensures
            r.is_overlay(self, higher),
    {
        RawDeployment {
            libexec_dir: or_else(higher.libexec_dir, self.libexec_dir),
            trust_dir: or_else(higher.trust_dir, self.trust_dir),
            sshd: or_else(higher.sshd, self.sshd),
            privhelper: or_else(higher.privhelper, self.privhelper),
            netproxy: or_else(higher.netproxy, self.netproxy),
            ssh_reorigin: or_else(higher.ssh_reorigin, self.ssh_reorigin),
            socks_connect: or_else(higher.socks_connect, self.socks_connect),
            akc: or_else(higher.akc, self.akc),
        }
    }

    /// Whether the layer sets just what the entries say.
    pub open spec fn reads(self, ps: Seq<(Seq<char>, Seq<char>)>) -> bool {
        &&& layout::opt(self.libexec_dir) == entry(ps, "libexec_dir"@)
        &&& layout::opt(self.trust_dir) == entry(ps, "trust_dir"@)
        &&& layout::opt(self.sshd) == entry(ps, "sshd"@)
        &&& layout::opt(self.privhelper) == entry(ps, "privhelper"@)
        &&& layout::opt(self.netproxy) == entry(ps, "netproxy"@)
        &&& layout::opt(self.ssh_reorigin) == entry(ps, "ssh_reorigin"@)
        &&& layout::opt(self.socks_connect) == entry(ps, "socks_connect"@)
        &&& layout::opt(self.akc) == entry(ps, "akc"@)
    }

    /// The layer that entries make, or the first key that is not one of a layer.
    pub fn from_entries(ps: &[(String, String)]) -> (r: Result<RawDeployment, String>)
        ensures
            match stranger(pairs(ps@), deployment_keys()) {
                Some(k) => r matches Err(m) && m@ == unknown_key(k),
                None => r matches Ok(d) && d.reads(pairs(ps@)),
            },
    {
        let known: [&str; 8] = [
            "libexec_dir",
            "trust_dir",
            "sshd",
            "privhelper",
            "netproxy",
            "ssh_reorigin",
            "socks_connect",
            "akc",
        ];
        let ghost all = pairs(ps@);
        let mut i: usize = 0;
        proof {
            assert(text::strs(known@) =~= deployment_keys());
            assert(all.skip(0) =~= all);
        }
        while i < ps.len()
            invariant
                i <= ps@.len(),
                all == pairs(ps@),
                text::strs(known@) == deployment_keys(),
                stranger(all.skip(i as int), deployment_keys()) == stranger(all, deployment_keys()),
            decreases ps@.len() - i,
        {
            proof {
                assert(all.skip(i as int)[0] == (ps@[i as int].0@, ps@[i as int].1@));
                assert(all.skip(i as int).drop_first() =~= all.skip(i + 1));
            }
            if !among(&known, ps[i].0.as_str()) {
                return Err(
                    concat3(
                        "unknown field `",
                        ps[i].0.as_str(),
                        "`, expected one of `libexec_dir`, `trust_dir`, `sshd`, `privhelper`, `netproxy`, `ssh_reorigin`, `socks_connect`, `akc`",
                    ),
                );
            }
            i = i + 1;
        }
        Ok(
            RawDeployment {
                libexec_dir: find_text(ps, "libexec_dir"),
                trust_dir: find_text(ps, "trust_dir"),
                sshd: find_text(ps, "sshd"),
                privhelper: find_text(ps, "privhelper"),
                netproxy: find_text(ps, "netproxy"),
                ssh_reorigin: find_text(ps, "ssh_reorigin"),
                socks_connect: find_text(ps, "socks_connect"),
                akc: find_text(ps, "akc"),
            },
        )
    }

    /// The deployment that the layers make: what none sets has a default.
    pub fn resolve(self) -> (d: Deployment)
        ensures
            d.resolves(self),
    {
        proof {
            lemma_helper_names();
        }
        Deployment {
            libexec_dir: match self.libexec_dir {
                Some(s) => s,
                None => "/usr/libexec/kennel".to_owned(),
            },
            trust_dir: match self.trust_dir {
                Some(s) => s,
                None => "/etc/kennel/keys".to_owned(),
            },
            sshd: match self.sshd {
                Some(s) => s,
                None => "/usr/sbin/sshd".to_owned(),
            },
            privhelper: self.privhelper,
            netproxy: self.netproxy,
            ssh_reorigin: self.ssh_reorigin,
            socks_connect: self.socks_connect,
            akc: self.akc,
        }
    }
}

/// Where the parts of the deployment are.
#[derive(Debug)]
pub struct Deployment {
    libexec_dir: String,
    trust_dir: String,
    sshd: String,
    privhelper: Option<String>,
    netproxy: Option<String>,
    ssh_reorigin: Option<String>,
    socks_connect: Option<String>,
    akc: Option<String>,
}

/// The entries of a file of the deployment's cascade, or what is said of it.
pub open spec fn deployment_says(
    ks: Result<Seq<(Seq<char>, bool, Option<Seq<bool>>)>, Seq<char>>,
    place: Option<(u64, u64)>,
    values: Result<Seq<(Seq<char>, Seq<char>)>, Seq<char>>,
) -> Result<Seq<(Seq<char>, Seq<char>)>, Seq<char>> {
    match flaw(ks, values, deployment_keys(), false) {
        Some(Flaw::Said(e)) => Err(e),
        Some(Flaw::Unknown(k)) => Err(unknown_key(k) + place_text(place)),
        None => values,
    }
}

/// The layer that a file of the deployment's cascade is, by its keys and kinds, the place of errors
/// of the whole file, and the values that it was read as; or what is said of it.
pub fn deployment_layer(
    ks: &Result<Vec<(String, bool, Option<Vec<bool>>)>, String>,
    place: Option<(u64, u64)>,
    values: &Result<Vec<(String, String)>, String>,
) -> (r: Result<RawDeployment, String>)
    ensures
        match deployment_says(
            read_kinds(*ks),
            place,
            match *values {
                Ok(v) => Ok(pairs(v@)),
                Err(e) => Err(e@),
            },
        ) {
            Ok(ps) => r matches Ok(d) && d.reads(ps),
            Err(e) => r matches Err(m) && m@ == e,
        },
{
    let known: [&str; 8] = [
        "libexec_dir",
        "trust_dir",
        "sshd",
        "privhelper",
        "netproxy",
        "ssh_reorigin",
        "socks_connect",
        "akc",
    ];
    assert(text::strs(known@) =~= deployment_keys());
    let at = told_place(place);
    match ks {
        Err(e) => Err(e.clone()),
        Ok(ks) => match find_stranger(ks.as_slice(), &known, false) {
            Some(k) => {
                let m = concat3(
                    "unknown field `",
                    k.as_str(),
                    "`, expected one of `libexec_dir`, `trust_dir`, `sshd`, `privhelper`, `netproxy`, `ssh_reorigin`, `socks_connect`, `akc`",
                );
                Err(concat2(m.as_str(), at.as_str()))
            },
            None => match values {
                Err(e) => Err(e.clone()),
                Ok(ps) => match RawDeployment::from_entries(ps.as_slice()) {
                    Err(m) => Err(concat2(m.as_str(), at.as_str())),
                    Ok(d) => Ok(d),
                },
            },
        },
    }
}

/// What a file of the deployment's cascade says: nothing where it is absent, a layer, or an error.
pub open spec fn layer_says(l: Layer) -> Result<Option<Seq<(Seq<char>, Seq<char>)>>, Seq<char>> {
    match l.read {
        LayerRead::Absent => Ok(None),
        LayerRead::Unreadable(e) => Err("reading "@ + l.path@ + ": "@ + e@),
        LayerRead::Large(n) => Err(l.path@ + " is too large ("@ + decimal::dec(n as nat) + " bytes)"@),
        LayerRead::Text(t) => match deployment_says(
            toml_kinds(t@),
            toml_place(t@),
            toml_texts(t@),
        ) {
            Err(e) => Err("parsing "@ + l.path@ + ": "@ + e),
            Ok(ps) => Ok(Some(ps)),
        },
    }
}

/// The value of a key in the cascade: of the layers that set it, the last one's.
pub open spec fn cascade(layers: Seq<Layer>, key: Seq<char>) -> Option<Seq<char>>
    decreases layers.len(),
{
    if layers.len() == 0 {
        None
    } else {
        let own = match layer_says(layers.last()) {
            Ok(Some(ps)) => entry(ps, key),
            _ => None,
        };
        either(own, cascade(layers.drop_last(), key))
    }
}

/// The first layer that cannot be used.
pub open spec fn first_error(layers: Seq<Layer>) -> Option<Layer>
    decreases layers.len(),
{
    if layers.len() == 0 {
        None
    } else {
        match first_error(layers.drop_last()) {
            Some(l) => Some(l),
            None => if layer_says(layers.last()) is Err {
                Some(layers.last())
            } else {
                None
            },
        }
    }
}

proof fn lemma_first_error(layers: Seq<Layer>, n: int)
    requires
        0 <= n <= layers.len(),
        first_error(layers.take(n)) is Some,
    ensures
        first_error(layers) == first_error(layers.take(n)),
    decreases layers.len(),
{
    if n == layers.len() {
        assert(layers.take(n) =~= layers);
    } else {
        assert(layers.drop_last().take(n) =~= layers.take(n));
        lemma_first_error(layers.drop_last(), n);
    }
}

/// What a file of the deployment's cascade says.
pub fn read_layer(l: &Layer) -> (r: Result<Option<RawDeployment>, ConfigError>)
    ensures
        match layer_says(*l) {
            Err(e) => r matches Err(c) && c.text() == e && c.blames(*l),
            Ok(None) => r matches Ok(None),
            Ok(Some(ps)) => r matches Ok(Some(d)) && d.reads(ps),
        },
{
    match &l.read {
        LayerRead::Absent => Ok(None),
        LayerRead::Unreadable(e) => Err(
            ConfigError::Read { path: l.path.clone(), source: e.clone() },
        ),
        LayerRead::Large(n) => Err(ConfigError::TooLarge { path: l.path.clone(), size: *n }),
        LayerRead::Text(t) => {
            let ks = parse_kinds(t.as_str());
            let place = parse_place(t.as_str());
            let values = parse_texts(t.as_str());
            match deployment_layer(&ks, place, &values) {
                Err(message) => Err(ConfigError::Parse { path: l.path.clone(), message }),
                Ok(d) => Ok(Some(d)),
            }
        },
    }
}

impl Deployment {
    /// The explicit place of a helper, where there is one.
    pub closed spec fn helper(self, name: Seq<char>) -> Option<Seq<char>> {
        if name == "kennel-privhelper"@ {
            layout::opt(self.privhelper)
        } else if name == "kennel-netproxy"@ {
            layout::opt(self.netproxy)
        } else if name == "kennel-ssh-reorigin"@ {
            layout::opt(self.ssh_reorigin)
        } else if name == "kennel-socks-connect"@ {
            layout::opt(self.socks_connect)
        } else {
            layout::opt(self.akc)
        }
    }

    /// The directory of the helpers.
    pub closed spec fn libexec(self) -> Seq<char> {
        self.libexec_dir@
    }

    /// The trust store.
    pub closed spec fn trust(self) -> Seq<char> {
        self.trust_dir@
    }

    /// The host's `sshd`.
    pub closed spec fn sshd_path(self) -> Seq<char> {
        self.sshd@
    }

    /// The place of a helper: the explicit one, else below the directory of the helpers.
    pub open spec fn helper_path(self, name: Seq<char>) -> Seq<char> {
        match self.helper(name) {
            Some(p) => p,
            None => path::joined(self.libexec(), name),
        }
    }

    /// Whether the deployment is what the layers make.
    pub open spec fn resolves(self, raw: RawDeployment) -> bool {
        &&& self.libexec() == either(layout::opt(raw.libexec_dir), Some("/usr/libexec/kennel"@))->0
        &&& self.trust() == either(layout::opt(raw.trust_dir), Some("/etc/kennel/keys"@))->0
        &&& self.sshd_path() == either(layout::opt(raw.sshd), Some("/usr/sbin/sshd"@))->0
        &&& self.helper("kennel-privhelper"@) == layout::opt(raw.privhelper)
        &&& self.helper("kennel-netproxy"@) == layout::opt(raw.netproxy)
        &&& self.helper("kennel-ssh-reorigin"@) == layout::opt(raw.ssh_reorigin)
        &&& self.helper("kennel-socks-connect"@) == layout::opt(raw.socks_connect)
        &&& self.helper("kennel-akc"@) == layout::opt(raw.akc)
    }

    /// Whether the deployment is what the files of the cascade make.
    pub open spec fn cascades(self, layers: Seq<Layer>) -> bool {
        &&& self.libexec() == either(cascade(layers, "libexec_dir"@), Some("/usr/libexec/kennel"@))->0
        &&& self.trust() == either(cascade(layers, "trust_dir"@), Some("/etc/kennel/keys"@))->0
        &&& self.sshd_path() == either(cascade(layers, "sshd"@), Some("/usr/sbin/sshd"@))->0
        &&& self.helper("kennel-privhelper"@) == cascade(layers, "privhelper"@)
        &&& self.helper("kennel-netproxy"@) == cascade(layers, "netproxy"@)
        &&& self.helper("kennel-ssh-reorigin"@) == cascade(layers, "ssh_reorigin"@)
        &&& self.helper("kennel-socks-connect"@) == cascade(layers, "socks_connect"@)
        &&& self.helper("kennel-akc"@) == cascade(layers, "akc"@)
    }

    /// The deployment that the files of the cascade make, the lowest layer first.
    pub fn load_from_dirs(layers: &[Layer]) -> (r: Result<Deployment, ConfigError>)
        ensures
            match first_error(layers@) {
                Some(l) => {
                    &&& r matches Err(c)
                    &&& c.blames(l)
                    &&& layer_says(l) matches Err(e)
                    &&& c.text() == e
                },
                None => r matches Ok(d) && d.cascades(layers@),
            },
    {
        let mut raw = RawDeployment::empty();
        let mut i: usize = 0;
        assert(layers@.take(0) =~= seq![]);
        while i < layers.len()
            invariant
                i <= layers@.len(),
                first_error(layers@.take(i as int)) is None,
                layout::opt(raw.libexec_dir) == cascade(layers@.take(i as int), "libexec_dir"@),
                layout::opt(raw.trust_dir) == cascade(layers@.take(i as int), "trust_dir"@),
                layout::opt(raw.sshd) == cascade(layers@.take(i as int), "sshd"@),
                layout::opt(raw.privhelper) == cascade(layers@.take(i as int), "privhelper"@),
                layout::opt(raw.netproxy) == cascade(layers@.take(i as int), "netproxy"@),
                layout::opt(raw.ssh_reorigin) == cascade(layers@.take(i as int), "ssh_reorigin"@),
                layout::opt(raw.socks_connect) == cascade(
                    layers@.take(i as int),
                    "socks_connect"@,
                ),
                layout::opt(raw.akc) == cascade(layers@.take(i as int), "akc"@),
            decreases layers@.len() - i,
        {
            proof {
                assert(layers@.take(i + 1).drop_last() =~= layers@.take(i as int));
                assert(layers@.take(i + 1).last() == layers@[i as int]);
            }
            match read_layer(&layers[i]) {
                Err(e) => {
                    proof {
                        lemma_first_error(layers@, i + 1);
                    }
                    return Err(e);
                },
                Ok(None) => {},
                Ok(Some(layer)) => {
                    raw = raw.overlay(layer);
                },
            }
            i = i + 1;
        }
        assert(layers@.take(layers@.len() as int) =~= layers@);
        Ok(raw.resolve())
    }

    /// The deployment that the vendor's file and the host's make, the host's over the vendor's.
    pub fn load(vendor: Layer, system: Layer) -> (r: Result<Deployment, ConfigError>)
        ensures
            match first_error(seq![vendor, system]) {
                Some(l) => {
                    &&& r matches Err(c)
                    &&& c.blames(l)
                    &&& layer_says(l) matches Err(e)
                    &&& c.text() == e
                },
                None => r matches Ok(d) && d.cascades(seq![vendor, system]),
            },
    {
        let mut layers: Vec<Layer> = Vec::new();
        let ghost want = seq![vendor, system];
        layers.push(vendor);
        layers.push(system);
        assert(layers@ =~= want);
        Deployment::load_from_dirs(layers.as_slice())
    }

    /// The deployment without any file.
    pub fn defaults() -> (d: Deployment)
        ensures
            d.cascades(seq![]),
    {
        RawDeployment::empty().resolve()
    }

    /// The directory of the helpers.
    pub fn libexec_dir(&self) -> (r: &str)
        ensures
            r@ == self.libexec(),
    {
        self.libexec_dir.as_str()
    }

    /// The daemon's trust store.
    pub fn trust_dir(&self) -> (r: &str)
        ensures
            r@ == self.trust(),
    {
        self.trust_dir.as_str()
    }

    /// The host's `sshd`.
    pub fn sshd(&self) -> (r: &str)
        ensures
            r@ == self.sshd_path(),
    {
        self.sshd.as_str()
    }

    /// The privileged helper.
    pub fn privhelper(&self) -> (r: String)
        ensures
            r@ == self.helper_path("kennel-privhelper"@),
    {
        self.resolve_bin(&self.privhelper, "kennel-privhelper")
    }

    /// The egress proxy.
    pub fn netproxy(&self) -> (r: String)
        ensures
            r@ == self.helper_path("kennel-netproxy"@),
    {
        proof {
            lemma_helper_names();
        }
        self.resolve_bin(&self.netproxy, "kennel-netproxy")
    }

    /// The helper that opens ssh connections anew.
    pub fn ssh_reorigin(&self) -> (r: String)
        ensures
            r@ == self.helper_path("kennel-ssh-reorigin"@),
    {
        proof {
            lemma_helper_names();
        }
        self.resolve_bin(&self.ssh_reorigin, "kennel-ssh-reorigin")
    }

    /// The helper that connects through SOCKS.
    pub fn socks_connect(&self) -> (r: String)
        ensures
            r@ == self.helper_path("kennel-socks-connect"@),
    {
        proof {
            lemma_helper_names();
        }
        self.resolve_bin(&self.socks_connect, "kennel-socks-connect")
    }

    /// The helper that lists authorized keys.
    pub fn akc(&self) -> (r: String)
        ensures
            r@ == self.helper_path("kennel-akc"@),
    {
        proof {
            lemma_helper_names();
        }
        self.resolve_bin(&self.akc, "kennel-akc")
    }

    fn resolve_bin(&self, explicit: &Option<String>, name: &str) -> (r: String)
        ensures
            r@ == match layout::opt(*explicit) {
                Some(p) => p,
                None => path::joined(self.libexec(), name@),
            },
    {
        match explicit {
            Some(p) => p.clone(),
            None => join(self.libexec_dir.as_str(), name),
        }
    }
}

proof fn lemma_helper_names()
    ensures
        "kennel-privhelper"@.len() == 17,
        "kennel-netproxy"@.len() == 15,
        "kennel-ssh-reorigin"@.len() == 19,
        "kennel-socks-connect"@.len() == 20,
        "kennel-akc"@.len() == 10,
{
    reveal_strlit("kennel-privhelper");
    reveal_strlit("kennel-netproxy");
    reveal_strlit("kennel-ssh-reorigin");
    reveal_strlit("kennel-socks-connect");
    reveal_strlit("kennel-akc");
}

/// A higher layer wins key by key: what the last layer sets holds, and what it does not set is as
/// it was without it.
pub proof fn law_higher_layer_wins(layers: Seq<Layer>, top: Layer, key: Seq<char>)
    ensures
        cascade(layers.push(top), key) == match layer_says(top) {
            Ok(Some(ps)) => match entry(ps, key) {
                Some(v) => Some(v),
                None => cascade(layers, key),
            },
            _ => cascade(layers, key),
        },
{
    assert(layers.push(top).drop_last() =~= layers);
}

// ---- the user's conveniences ---------------------------------------------------

/// Where the command line looks.
#[derive(Debug)]
pub struct User {
    template_dirs: Option<Vec<String>>,
    key_dirs: Option<Vec<String>>,
}

/// The keys of a layer of the user's conveniences.
pub open spec fn user_keys() -> Seq<Seq<char>> {
    seq!["template_dirs"@, "key_dirs"@]
}

/// What is said of a key that a layer of the user's conveniences does not have.
pub open spec fn unknown_user_key(k: Seq<char>) -> Seq<char> {
    "unknown field `"@ + k + "`, expected `template_dirs` or `key_dirs`"@
}

/// The entries of a file of the user's cascade, or what is said of it.
pub open spec fn user_says(
    ks: Result<Seq<(Seq<char>, bool, Option<Seq<bool>>)>, Seq<char>>,
    place: Option<(u64, u64)>,
    values: Result<Seq<(Seq<char>, Seq<Seq<char>>)>, Seq<char>>,
) -> Result<Seq<(Seq<char>, Seq<Seq<char>>)>, Seq<char>> {
    match flaw(ks, values, user_keys(), true) {
        Some(Flaw::Said(e)) => Err(e),
        Some(Flaw::Unknown(k)) => Err(unknown_user_key(k) + place_text(place)),
        None => values,
    }
}

/// What a file of the user's cascade says: nothing where it is absent, a layer, or an error.
pub open spec fn user_layer_says(l: Layer) -> Result<
    Option<Seq<(Seq<char>, Seq<Seq<char>>)>>,
    Seq<char>,
> {
    match l.read {
        LayerRead::Absent => Ok(None),
        LayerRead::Unreadable(e) => Err("reading "@ + l.path@ + ": "@ + e@),
        LayerRead::Large(n) => Err(l.path@ + " is too large ("@ + decimal::dec(n as nat) + " bytes)"@),
        LayerRead::Text(t) => match user_says(toml_kinds(t@), toml_place(t@), toml_lists(t@)) {
            Err(e) => Err("parsing "@ + l.path@ + ": "@ + e),
            Ok(ps) => Ok(Some(ps)),
        },
    }
}

/// The value of a key in the user's cascade: of the layers that set it, the last one's.
pub open spec fn user_cascade(layers: Seq<Layer>, key: Seq<char>) -> Option<Seq<Seq<char>>>
    decreases layers.len(),
{
    if layers.len() == 0 {
        None
    } else {
        let own = match user_layer_says(layers.last()) {
            Ok(Some(ps)) => entry(ps, key),
            _ => None,
        };
        if own is Some {
            own
        } else {
            user_cascade(layers.drop_last(), key)
        }
    }
}

/// The first layer of the user's cascade that cannot be used.
pub open spec fn first_user_error(layers: Seq<Layer>) -> Option<Layer>
    decreases layers.len(),
{
    if layers.len() == 0 {
        None
    } else {
        match first_user_error(layers.drop_last()) {
            Some(l) => Some(l),
            None => if user_layer_says(layers.last()) is Err {
                Some(layers.last())
            } else {
                None
            },
        }
    }
}

proof fn lemma_first_user_error(layers: Seq<Layer>, n: int)
    requires
        0 <= n <= layers.len(),
        first_user_error(layers.take(n)) is Some,
    ensures
        first_user_error(layers) == first_user_error(layers.take(n)),
    decreases layers.len(),
{
    if n == layers.len() {
        assert(layers.take(n) =~= layers);
    } else {
        assert(layers.drop_last().take(n) =~= layers.take(n));
        lemma_first_user_error(layers.drop_last(), n);
    }
}

/// The texts of a list, where there is one.
pub open spec fn opt_list(o: Option<Vec<String>>) -> Option<Seq<Seq<char>>> {
    match o {
        Some(v) => Some(text::texts(v@)),
        None => None,
    }
}

fn find_list(ps: &[(String, Vec<String>)], key: &str) -> (r: Option<Vec<String>>)
    ensures
        opt_list(r) == entry(lists(ps@), key@),
{
    let ghost all = lists(ps@);
    let mut i: usize = 0;
    assert(all.skip(0) =~= all);
    while i < ps.len()
        invariant
            i <= ps@.len(),
            all == lists(ps@),
            entry(all.skip(i as int), key@) == entry(all, key@),
        decreases ps@.len() - i,
    {
        proof {
            assert(all.skip(i as int)[0] == (ps@[i as int].0@, text::texts(ps@[i as int].1@)));
            assert(all.skip(i as int).drop_first() =~= all.skip(i + 1));
        }
        if same(ps[i].0.as_str(), key) {
            return Some(text::copy_all(ps[i].1.as_slice()));
        }
        i = i + 1;
    }
    None
}

fn strange_key(ps: &[(String, Vec<String>)]) -> (r: Option<String>)
    ensures
        layout::opt(r) == stranger(lists(ps@), user_keys()),
{
    let known: [&str; 2] = ["template_dirs", "key_dirs"];
    let ghost all = lists(ps@);
    let mut i: usize = 0;
    proof {
        assert(text::strs(known@) =~= user_keys());
        assert(all.skip(0) =~= all);
    }
    while i < ps.len()
        invariant
            i <= ps@.len(),
            all == lists(ps@),
            text::strs(known@) == user_keys(),
            stranger(all.skip(i as int), user_keys()) == stranger(all, user_keys()),
        decreases ps@.len() - i,
    {
        proof {
            assert(all.skip(i as int)[0] == (ps@[i as int].0@, text::texts(ps@[i as int].1@)));
            assert(all.skip(i as int).drop_first() =~= all.skip(i + 1));
        }
        if !among(&known, ps[i].0.as_str()) {
            return Some(ps[i].0.clone());
        }
        i = i + 1;
    }
    None
}

/// The entries of a file of the user's cascade, by its keys and kinds, the place of errors of the
/// whole file, and the values that it was read as; or what is said of it.
pub fn user_layer(
    ks: &Result<Vec<(String, bool, Option<Vec<bool>>)>, String>,
    place: Option<(u64, u64)>,
    values: Result<Vec<(String, Vec<String>)>, String>,
) -> (r: Result<Vec<(String, Vec<String>)>, String>)
    ensures
        match user_says(
            read_kinds(*ks),
            place,
            match values {
                Ok(v) => Ok(lists(v@)),
                Err(e) => Err(e@),
            },
        ) {
            Ok(ps) => r matches Ok(v) && lists(v@) == ps,
            Err(e) => r matches Err(m) && m@ == e,
        },
{
    let known: [&str; 2] = ["template_dirs", "key_dirs"];
    assert(text::strs(known@) =~= user_keys());
    let ks = match ks {
        Err(e) => {
            return Err(e.clone());
        },
        Ok(ks) => ks,
    };
    let strange = match find_stranger(ks.as_slice(), &known, true) {
        Some(k) => Some(k),
        None => match &values {
            Err(_) => None,
            Ok(ps) => strange_key(ps.as_slice()),
        },
    };
    match strange {
        Some(k) => {
            let m = concat3(
                "unknown field `",
                k.as_str(),
                "`, expected `template_dirs` or `key_dirs`",
            );
            let at = told_place(place);
            Err(concat2(m.as_str(), at.as_str()))
        },
        None => values,
    }
}

/// The default search directories: below the user's configuration, where there is one, then the
/// host's.
pub open spec fn search_dirs(user: Option<Seq<char>>, leaf: Seq<char>) -> Seq<Seq<char>> {
    (match user {
        Some(u) => seq![path::joined(u, leaf)],
        None => seq![],
    }) + seq![path::joined("/etc/kennel"@, leaf)]
}

/// The default search directories.
pub fn default_search_dirs(user: Option<&str>, leaf: &str) -> (out: Vec<String>)
    ensures
        text::texts(out@) == search_dirs(
            match user {
                Some(u) => Some(u@),
                None => None,
            },
            leaf@,
        ),
{
    let mut out: Vec<String> = Vec::new();
    if let Some(u) = user {
        push_line(&mut out, join(u, leaf));
    }
    push_line(&mut out, join("/etc/kennel", leaf));
    assert(text::texts(out@) =~= search_dirs(
        match user {
            Some(u) => Some(u@),
            None => None,
        },
        leaf@,
    ));
    out
}

/// The layers of the user's cascade, the lowest first.
pub open spec fn user_layers(vendor: Layer, system: Layer, user: Option<Layer>) -> Seq<Layer> {
    match user {
        Some(u) => seq![vendor, system, u],
        None => seq![vendor, system],
    }
}

impl User {
    /// The template directories that are configured.
    pub closed spec fn templates(self) -> Option<Seq<Seq<char>>> {
        opt_list(self.template_dirs)
    }

    /// The key directories that are configured.
    pub closed spec fn keys(self) -> Option<Seq<Seq<char>>> {
        opt_list(self.key_dirs)
    }

    /// What the vendor's file, the host's and the user's make, each over the ones before it.
    pub fn load(vendor: Layer, system: Layer, user: Option<Layer>) -> (r: Result<User, ConfigError>)
        ensures
            ({
                let layers = user_layers(vendor, system, user);
                match first_user_error(layers) {
                    Some(l) => {
                        &&& r matches Err(c)
                        &&& c.blames(l)
                        &&& user_layer_says(l) matches Err(e)
                        &&& c.text() == e
                    },
                    None => r matches Ok(u) && u.templates() == user_cascade(
                        layers,
                        "template_dirs"@,
                    ) && u.keys() == user_cascade(layers, "key_dirs"@),
                }
            }),
    {
        let mut layers: Vec<Layer> = Vec::new();
        let ghost want = user_layers(vendor, system, user);
        layers.push(vendor);
        layers.push(system);
        if let Some(u) = user {
            layers.push(u);
        }
        assert(layers@ =~= want);
        User::load_from_dirs(layers.as_slice())
    }

    /// What the files of the cascade make, the lowest layer first.
    pub fn load_from_dirs(layers: &[Layer]) -> (r: Result<User, ConfigError>)
        ensures
            match first_user_error(layers@) {
                Some(l) => {
                    &&& r matches Err(c)
                    &&& c.blames(l)
                    &&& user_layer_says(l) matches Err(e)
                    &&& c.text() == e
                },
                None => r matches Ok(u) && u.templates() == user_cascade(layers@, "template_dirs"@)
                    && u.keys() == user_cascade(layers@, "key_dirs"@),
            },
    {
        let mut template_dirs: Option<Vec<String>> = None;
        let mut key_dirs: Option<Vec<String>> = None;
        let mut i: usize = 0;
        assert(layers@.take(0) =~= seq![]);
        while i < layers.len()
            invariant
                i <= layers@.len(),
                first_user_error(layers@.take(i as int)) is None,
                opt_list(template_dirs) == user_cascade(
                    layers@.take(i as int),
                    "template_dirs"@,
                ),
                opt_list(key_dirs) == user_cascade(layers@.take(i as int), "key_dirs"@),
            decreases layers@.len() - i,
        {
            let l = &layers[i];
            proof {
                assert(layers@.take(i + 1).drop_last() =~= layers@.take(i as int));
                assert(layers@.take(i + 1).last() == layers@[i as int]);
            }
            match &l.read {
                LayerRead::Absent => {},
                LayerRead::Unreadable(e) => {
                    proof {
                        lemma_first_user_error(layers@, i + 1);
                    }
                    return Err(ConfigError::Read { path: l.path.clone(), source: e.clone() });
                },
                LayerRead::Large(n) => {
                    proof {
                        lemma_first_user_error(layers@, i + 1);
                    }
                    return Err(ConfigError::TooLarge { path: l.path.clone(), size: *n });
                },
                LayerRead::Text(t) => {
                    let ks = parse_kinds(t.as_str());
                    let place = parse_place(t.as_str());
                    let values = parse_lists(t.as_str());
                    let ps = match user_layer(&ks, place, values) {
                        Err(message) => {
                            proof {
                                lemma_first_user_error(layers@, i + 1);
                            }
                            return Err(ConfigError::Parse { path: l.path.clone(), message });
                        },
                        Ok(ps) => ps,
                    };
                    if let Some(v) = find_list(ps.as_slice(), "template_dirs") {
                        template_dirs = Some(v);
                    }
                    if let Some(v) = find_list(ps.as_slice(), "key_dirs") {
                        key_dirs = Some(v);
                    }
                },
            }
            i = i + 1;
        }
        assert(layers@.take(layers@.len() as int) =~= layers@);
        Ok(User { template_dirs, key_dirs })
    }

    /// The template directories: those configured, else the default ones.
    pub fn template_dirs(&self, user: Option<&str>) -> (out: Vec<String>)
        ensures
            text::texts(out@) == match self.templates() {
                Some(v) => v,
                None => search_dirs(
                    match user {
                        Some(u) => Some(u@),
                        None => None,
                    },
                    "templates"@,
                ),
            },
    {
        match &self.template_dirs {
            Some(v) => text::copy_all(v.as_slice()),
            None => default_search_dirs(user, "templates"),
        }
    }

    /// The key directories: those configured, else the default ones.
    pub fn key_dirs(&self, user: Option<&str>) -> (out: Vec<String>)
        ensures
            text::texts(out@) == match self.keys() {
                Some(v) => v,
                None => search_dirs(
                    match user {
                        Some(u) => Some(u@),
                        None => None,
                    },
                    "keys"@,
                ),
            },
    {
        match &self.key_dirs {
            Some(v) => text::copy_all(v.as_slice()),
            None => default_search_dirs(user, "keys"),
        }
    }
}

// ---- what holds of the whole ----------------------------------------------------

proof fn lemma_entry<V>(ps: Seq<(Seq<char>, V)>, i: int)
    requires
        0 <= i < ps.len(),
        forall|j: int| 0 <= j < i ==> (#[trigger] ps[j]).0 != ps[i].0,
    ensures
        entry(ps, ps[i].0) == Some(ps[i].1),
    decreases ps.len(),
{
    if i > 0 {
        let rest = ps.drop_first();
        assert(rest[i - 1] == ps[i]);
        assert(ps[0].0 != ps[i].0);
        assert forall|j: int| 0 <= j < i - 1 implies (#[trigger] rest[j]).0 != rest[i - 1].0 by {
            assert(rest[j] == ps[j + 1]);
        }
        lemma_entry(rest, i - 1);
    }
}

proof fn lemma_no_entry<V>(ps: Seq<(Seq<char>, V)>, key: Seq<char>)
    requires
        forall|j: int| 0 <= j < ps.len() ==> (#[trigger] ps[j]).0 != key,
    ensures
        entry(ps, key) is None,
    decreases ps.len(),
{
    if ps.len() > 0 {
        let rest = ps.drop_first();
        assert(ps[0].0 != key);
        assert forall|j: int| 0 <= j < rest.len() implies (#[trigger] rest[j]).0 != key by {
            assert(rest[j] == ps[j + 1]);
        }
        lemma_no_entry(rest, key);
    }
}

proof fn lemma_strangers<V>(ps: Seq<(Seq<char>, V)>, known: Seq<Seq<char>>)
    ensures
        stranger(ps, known) is None <==> forall|i: int|
            0 <= i < ps.len() ==> known.contains((#[trigger] ps[i]).0),
    decreases ps.len(),
{
    if ps.len() > 0 {
        let rest = ps.drop_first();
        lemma_strangers(rest, known);
        if stranger(ps, known) is None {
            assert forall|i: int| 0 <= i < ps.len() implies known.contains((#[trigger] ps[i]).0) by {
                if i > 0 {
                    assert(rest[i - 1] == ps[i]);
                }
            }
        }
        if forall|i: int| 0 <= i < ps.len() ==> known.contains((#[trigger] ps[i]).0) {
            assert(known.contains(ps[0].0));
            assert forall|i: int| 0 <= i < rest.len() implies known.contains((#[trigger] rest[i]).0) by {
                assert(rest[i] == ps[i + 1]);
            }
        }
    }
}

/// What a layer says of a key is the setting of that key, and no other; a key that is none is refused.
pub proof fn law_each_key_is_its_setting(
    ps: &[(String, String)],
    r: Result<RawDeployment, String>,
    i: int,
)
    requires
        call_ensures(RawDeployment::from_entries, (ps,), r),
        0 <= i < ps@.len(),
        forall|j: int| 0 <= j < i ==> (#[trigger] pairs(ps@)[j]).0 != pairs(ps@)[i].0,
    ensures
        pairs(ps@)[i].0 == "libexec_dir"@ ==> (r matches Ok(d) ==> (d.libexec_dir matches Some(v) && v@ == pairs(
            ps@,
        )[i].1)),
        pairs(ps@)[i].0 == "trust_dir"@ ==> (r matches Ok(d) ==> (d.trust_dir matches Some(v) && v@ == pairs(
            ps@,
        )[i].1)),
        pairs(ps@)[i].0 == "sshd"@ ==> (r matches Ok(d) ==> (d.sshd matches Some(v) && v@ == pairs(
            ps@,
        )[i].1)),
        pairs(ps@)[i].0 == "privhelper"@ ==> (r matches Ok(d) ==> (d.privhelper matches Some(v) && v@ == pairs(
            ps@,
        )[i].1)),
        pairs(ps@)[i].0 == "netproxy"@ ==> (r matches Ok(d) ==> (d.netproxy matches Some(v) && v@ == pairs(
            ps@,
        )[i].1)),
        pairs(ps@)[i].0 == "ssh_reorigin"@ ==> (r matches Ok(d) ==> (d.ssh_reorigin matches Some(v) && v@ == pairs(
            ps@,
        )[i].1)),
        pairs(ps@)[i].0 == "socks_connect"@ ==> (r matches Ok(d) ==> (d.socks_connect matches Some(v) && v@ == pairs(
            ps@,
        )[i].1)),
        pairs(ps@)[i].0 == "akc"@ ==> (r matches Ok(d) ==> (d.akc matches Some(v) && v@ == pairs(
            ps@,
        )[i].1)),
        r is Ok ==> (pairs(ps@)[i].0 == "libexec_dir"@ || pairs(ps@)[i].0 == "trust_dir"@ || pairs(ps@)[i].0 == "sshd"@ || pairs(ps@)[i].0 == "privhelper"@ || pairs(ps@)[i].0 == "netproxy"@ || pairs(ps@)[i].0 == "ssh_reorigin"@ || pairs(ps@)[i].0 == "socks_connect"@ || pairs(ps@)[i].0 == "akc"@),
{
    let all = pairs(ps@);
    assert(all.len() == ps@.len());
    lemma_entry(all, i);
    lemma_strangers(all, deployment_keys());
    if r is Ok {
        assert(deployment_keys().contains(all[i].0));
    }
}

/// A key that a layer does not name is not set.
pub proof fn law_unnamed_settings_are_not_set(ps: &[(String, String)], r: Result<RawDeployment, String>)
    requires
        call_ensures(RawDeployment::from_entries, (ps,), r),
    ensures
        (forall|j: int| 0 <= j < pairs(ps@).len() ==> (#[trigger] pairs(ps@)[j]).0 != "libexec_dir"@) ==> (
        r matches Ok(d) ==> d.libexec_dir is None),
        (forall|j: int| 0 <= j < pairs(ps@).len() ==> (#[trigger] pairs(ps@)[j]).0 != "trust_dir"@) ==> (
        r matches Ok(d) ==> d.trust_dir is None),
        (forall|j: int| 0 <= j < pairs(ps@).len() ==> (#[trigger] pairs(ps@)[j]).0 != "sshd"@) ==> (
        r matches Ok(d) ==> d.sshd is None),
        (forall|j: int| 0 <= j < pairs(ps@).len() ==> (#[trigger] pairs(ps@)[j]).0 != "privhelper"@) ==> (
        r matches Ok(d) ==> d.privhelper is None),
        (forall|j: int| 0 <= j < pairs(ps@).len() ==> (#[trigger] pairs(ps@)[j]).0 != "netproxy"@) ==> (
        r matches Ok(d) ==> d.netproxy is None),
        (forall|j: int| 0 <= j < pairs(ps@).len() ==> (#[trigger] pairs(ps@)[j]).0 != "ssh_reorigin"@) ==> (
        r matches Ok(d) ==> d.ssh_reorigin is None),
        (forall|j: int| 0 <= j < pairs(ps@).len() ==> (#[trigger] pairs(ps@)[j]).0 != "socks_connect"@) ==> (
        r matches Ok(d) ==> d.socks_connect is None),
        (forall|j: int| 0 <= j < pairs(ps@).len() ==> (#[trigger] pairs(ps@)[j]).0 != "akc"@) ==> (
        r matches Ok(d) ==> d.akc is None),
{
    let all = pairs(ps@);
    if forall|j: int| 0 <= j < all.len() ==> (#[trigger] all[j]).0 != "libexec_dir"@ {
        lemma_no_entry(all, "libexec_dir"@);
    }
    if forall|j: int| 0 <= j < all.len() ==> (#[trigger] all[j]).0 != "trust_dir"@ {
        lemma_no_entry(all, "trust_dir"@);
    }
    if forall|j: int| 0 <= j < all.len() ==> (#[trigger] all[j]).0 != "sshd"@ {
        lemma_no_entry(all, "sshd"@);
    }
    if forall|j: int| 0 <= j < all.len() ==> (#[trigger] all[j]).0 != "privhelper"@ {
        lemma_no_entry(all, "privhelper"@);
    }
    if forall|j: int| 0 <= j < all.len() ==> (#[trigger] all[j]).0 != "netproxy"@ {
        lemma_no_entry(all, "netproxy"@);
    }
    if forall|j: int| 0 <= j < all.len() ==> (#[trigger] all[j]).0 != "ssh_reorigin"@ {
        lemma_no_entry(all, "ssh_reorigin"@);
    }
    if forall|j: int| 0 <= j < all.len() ==> (#[trigger] all[j]).0 != "socks_connect"@ {
        lemma_no_entry(all, "socks_connect"@);
    }
    if forall|j: int| 0 <= j < all.len() ==> (#[trigger] all[j]).0 != "akc"@ {
        lemma_no_entry(all, "akc"@);
    }
}

/// A higher layer decides each setting that it has, and leaves the others as they were.
pub proof fn law_overlay_takes_what_is_set(lower: RawDeployment, higher: RawDeployment, r: RawDeployment)
    requires
        call_ensures(RawDeployment::overlay, (lower, higher), r),
    ensures
        higher.libexec_dir matches Some(v) ==> (r.libexec_dir matches Some(w) && w@ == v@),
        higher.libexec_dir is None ==> layout::opt(r.libexec_dir) == layout::opt(lower.libexec_dir),
        higher.trust_dir matches Some(v) ==> (r.trust_dir matches Some(w) && w@ == v@),
        higher.trust_dir is None ==> layout::opt(r.trust_dir) == layout::opt(lower.trust_dir),
        higher.sshd matches Some(v) ==> (r.sshd matches Some(w) && w@ == v@),
        higher.sshd is None ==> layout::opt(r.sshd) == layout::opt(lower.sshd),
        higher.privhelper matches Some(v) ==> (r.privhelper matches Some(w) && w@ == v@),
        higher.privhelper is None ==> layout::opt(r.privhelper) == layout::opt(lower.privhelper),
        higher.netproxy matches Some(v) ==> (r.netproxy matches Some(w) && w@ == v@),
        higher.netproxy is None ==> layout::opt(r.netproxy) == layout::opt(lower.netproxy),
        higher.ssh_reorigin matches Some(v) ==> (r.ssh_reorigin matches Some(w) && w@ == v@),
        higher.ssh_reorigin is None ==> layout::opt(r.ssh_reorigin) == layout::opt(lower.ssh_reorigin),
        higher.socks_connect matches Some(v) ==> (r.socks_connect matches Some(w) && w@ == v@),
        higher.socks_connect is None ==> layout::opt(r.socks_connect) == layout::opt(lower.socks_connect),
        higher.akc matches Some(v) ==> (r.akc matches Some(w) && w@ == v@),
        higher.akc is None ==> layout::opt(r.akc) == layout::opt(lower.akc),
{
}

/// Each setting reaches its own reader, and what is not set is at its usual place: a helper is in the
/// directory of helpers under its own name.
pub proof fn law_settings_reach_their_readers(
    raw: RawDeployment,
    d: Deployment,
    libexec: &str,
    trust: &str,
    sshd: &str,
    privhelper: String,
    netproxy: String,
    ssh_reorigin: String,
    socks_connect: String,
    akc: String,
)
    requires
        call_ensures(RawDeployment::resolve, (raw,), d),
        call_ensures(Deployment::libexec_dir, (&d,), libexec),
        call_ensures(Deployment::trust_dir, (&d,), trust),
        call_ensures(Deployment::sshd, (&d,), sshd),
        call_ensures(Deployment::privhelper, (&d,), privhelper),
        call_ensures(Deployment::netproxy, (&d,), netproxy),
        call_ensures(Deployment::ssh_reorigin, (&d,), ssh_reorigin),
        call_ensures(Deployment::socks_connect, (&d,), socks_connect),
        call_ensures(Deployment::akc, (&d,), akc),
    ensures
        raw.libexec_dir matches Some(v) ==> libexec@ == v@,
        raw.libexec_dir is None ==> libexec@ == "/usr/libexec/kennel"@,
        raw.trust_dir matches Some(v) ==> trust@ == v@,
        raw.trust_dir is None ==> trust@ == "/etc/kennel/keys"@,
        raw.sshd matches Some(v) ==> sshd@ == v@,
        raw.sshd is None ==> sshd@ == "/usr/sbin/sshd"@,
        raw.privhelper matches Some(v) ==> privhelper@ == v@,
        raw.privhelper is None ==> privhelper@ == path::joined(libexec@, "kennel-privhelper"@),
        raw.netproxy matches Some(v) ==> netproxy@ == v@,
        raw.netproxy is None ==> netproxy@ == path::joined(libexec@, "kennel-netproxy"@),
        raw.ssh_reorigin matches Some(v) ==> ssh_reorigin@ == v@,
        raw.ssh_reorigin is None ==> ssh_reorigin@ == path::joined(libexec@, "kennel-ssh-reorigin"@),
        raw.socks_connect matches Some(v) ==> socks_connect@ == v@,
        raw.socks_connect is None ==> socks_connect@ == path::joined(libexec@, "kennel-socks-connect"@),
        raw.akc matches Some(v) ==> akc@ == v@,
        raw.akc is None ==> akc@ == path::joined(libexec@, "kennel-akc"@),
{
}

/// A file that cannot be read or is too large is an error, whichever layer it is of, and one that is
/// not there is none: without files everything is at its usual place.
pub proof fn law_unreadable_layers_are_errors(
    vendor: Layer,
    system: Layer,
    r: Result<Deployment, ConfigError>,
)
    requires
        call_ensures(Deployment::load, (vendor, system), r),
    ensures
        vendor.read is Unreadable || vendor.read is Large ==> r is Err,
        system.read is Unreadable || system.read is Large ==> r is Err,
        vendor.read is Absent && system.read is Absent ==> (r matches Ok(d) && d.trust()
            == "/etc/kennel/keys"@ && d.libexec() == "/usr/libexec/kennel"@),
{
    let layers = seq![vendor, system];
    assert(layers.drop_last() =~= seq![vendor]);
    assert(seq![vendor].drop_last() =~= seq![]);
    reveal_with_fuel(first_error, 3);
    reveal_with_fuel(cascade, 3);
}

/// The error tells the file that it is about.
pub proof fn law_error_tells_its_file(c: &ConfigError, r: String)
    requires
        call_ensures(ConfigError::describe, (c,), r),
    ensures
        *c matches ConfigError::Read { path, source } ==> text::holds(r@, path@) && text::holds(
            r@,
            source@,
        ),
        *c matches ConfigError::TooLarge { path, size: _ } ==> text::holds(r@, path@),
        *c matches ConfigError::Parse { path, message } ==> text::holds(r@, path@) && text::holds(
            r@,
            message@,
        ),
{
    match *c {
        ConfigError::Read { path, source } => {
            text::lemma_holds("reading "@, path@, ": "@ + source@);
            assert(r@ =~= "reading "@ + path@ + (": "@ + source@));
            text::lemma_holds("reading "@ + path@ + ": "@, source@, seq![]);
            assert(r@ =~= "reading "@ + path@ + ": "@ + source@ + seq![]);
        },
        ConfigError::TooLarge { path, size } => {
            let end = " is too large ("@ + decimal::dec(size as nat) + " bytes)"@;
            text::lemma_holds(seq![], path@, end);
            assert(r@ =~= seq![] + path@ + end);
        },
        ConfigError::Parse { path, message } => {
            text::lemma_holds("parsing "@, path@, ": "@ + message@);
            assert(r@ =~= "parsing "@ + path@ + (": "@ + message@));
            text::lemma_holds("parsing "@ + path@ + ": "@, message@, seq![]);
            assert(r@ =~= "parsing "@ + path@ + ": "@ + message@ + seq![]);
        },
    }
}

/// The user's own file decides the search paths that it sets, then the system's, then the vendor's.
pub proof fn law_user_decides_the_search_paths(layers: Seq<Layer>, top: Layer, key: Seq<char>)
    ensures
        user_layer_says(top) matches Ok(Some(ps)) ==> (entry(ps, key) is Some ==> user_cascade(
            layers.push(top),
            key,
        ) == entry(ps, key)),
        user_layer_says(top) matches Ok(Some(ps)) ==> (entry(ps, key) is None ==> user_cascade(
            layers.push(top),
            key,
        ) == user_cascade(layers, key)),
        user_layer_says(top) matches Ok(None) ==> user_cascade(layers.push(top), key)
            == user_cascade(layers, key),
{
    assert(layers.push(top).drop_last() =~= layers);
}

/// A user's file is the highest layer of the user's settings, each under its own key.
pub proof fn law_user_file_is_the_highest(
    vendor: Layer,
    system: Layer,
    user: Layer,
    u: User,
    ps: Seq<(Seq<char>, Seq<Seq<char>>)>,
)
    requires
        call_ensures(User::load, (vendor, system, Some(user)), Ok::<User, ConfigError>(u)),
        user_layer_says(user) == Ok::<Option<Seq<(Seq<char>, Seq<Seq<char>>)>>, Seq<char>>(Some(ps)),
    ensures
        entry(ps, "template_dirs"@) is Some ==> u.templates() == entry(ps, "template_dirs"@),
        entry(ps, "key_dirs"@) is Some ==> u.keys() == entry(ps, "key_dirs"@),
{
    let layers = seq![vendor, system, user];
    assert(layers.last() == user);
}

/// Where no search path is set, the user's own directory comes before the host's; what is set is taken
/// as it is.
pub proof fn law_own_directory_is_searched_first(
    u: &User,
    own: &str,
    templates: Vec<String>,
    keys: Vec<String>,
)
    requires
        call_ensures(User::template_dirs, (u, Some(own)), templates),
        call_ensures(User::key_dirs, (u, Some(own)), keys),
    ensures
        u.templates() matches Some(v) ==> text::texts(templates@) == v,
        u.keys() matches Some(v) ==> text::texts(keys@) == v,
        u.templates() is None ==> text::texts(templates@) == seq![
            path::joined(own@, "templates"@),
            path::joined("/etc/kennel"@, "templates"@),
        ],
        u.keys() is None ==> text::texts(keys@) == seq![
            path::joined(own@, "keys"@),
            path::joined("/etc/kennel"@, "keys"@),
        ],
{
    assert(search_dirs(Some(own@), "templates"@) =~= seq![
        path::joined(own@, "templates"@),
        path::joined("/etc/kennel"@, "templates"@),
    ]);
    assert(search_dirs(Some(own@), "keys"@) =~= seq![
        path::joined(own@, "keys"@),
        path::joined("/etc/kennel"@, "keys"@),
    ]);
}

/// A configuration directory that is named is taken before the one in the home directory.
pub proof fn law_named_directory_is_taken(xdg: Option<&str>, home: Option<&str>, r: Option<String>)
    requires
        call_ensures(user_config_dir, (xdg, home), r),
    ensures
        r is None <==> xdg is None && home is None,
        xdg matches Some(x) ==> (r matches Some(d) && x@.is_prefix_of(d@)),
        xdg is None ==> (home matches Some(h) ==> (r matches Some(d) && h@.is_prefix_of(d@))),
        r matches Some(d) ==> path::file_name_of(d@) == Some("kennel"@),
{
    reveal_strlit("kennel");
    reveal_strlit(".config/kennel");
    let k = "kennel"@;
    assert(!k.contains('/'));
    assert(k[0] == 'k');
    if let Some(x) = xdg {
        path::law_join_file_name(x@, k);
        let d = r->0@;
        assert(d.subrange(0, x@.len() as int) =~= x@);
    } else if let Some(h) = home {
        let d = r->0@;
        let c = ".config/kennel"@;
        assert(c[0] == '.');
        assert(d.subrange(0, h@.len() as int) =~= h@);
        let base = path::joined(h@, ".config"@);
        reveal_strlit(".config");
        assert(c =~= ".config"@ + seq!['/'] + k);
        assert(".config"@[0] == '.');
        assert(base.last() == 'g');
        assert(d =~= path::joined(base, k));
        path::law_join_file_name(base, k);
    }
}

/// A file over the limit is too large, and none below it.
pub proof fn law_limit_is_a_quarter_mebibyte(size: u64, r: bool)
    requires
        call_ensures(is_too_large, (size,), r),
    ensures
        r <==> size > 256 * 1024,
{
}

} // verus!
