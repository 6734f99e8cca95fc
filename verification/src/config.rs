//! Domain configuration files: the `Config` record and its parser.
//!
//! A configuration file holds one setting per line, in the form
//! `key: value`; surrounding whitespace on a line is ignored, and a later line
//! overrides an earlier one with the same key.

use vstd::prelude::*;
use crate::text::{
    chars_eq, chars_of, lines, lines_of, slice_of, starts_with, starts_with_exec, string_of_range,
    strip_prefix, trim, trimmed, views,
};

verus! {

/// One proxied domain: where its requests go and how they may arrive.
#[derive(Clone)]
pub struct Config {
    pub domain: String,
    pub location: String,
    pub allow_ssl: bool,
    pub allow_http: bool,
    pub ssl_certificate: Option<String>,
    pub ssl_certificate_key: Option<String>,
}

/// The text held by an optional `String`.
pub open spec fn opt_text(o: Option<String>) -> Option<Seq<char>> {
    match o {
        Some(s) => Some(s@),
        None => None,
    }
}

/// The settings read so far from a configuration file.
pub struct ConfigDraft {
    pub domain: Option<Seq<char>>,
    pub location: Option<Seq<char>>,
    pub allow_ssl: Option<bool>,
    pub allow_http: Option<bool>,
    pub ssl_certificate: Option<Seq<char>>,
    pub ssl_certificate_key: Option<Seq<char>>,
}

/// A complete configuration, as text.
pub struct ConfigSpec {
    pub domain: Seq<char>,
    pub location: Seq<char>,
    pub allow_ssl: bool,
    pub allow_http: bool,
    pub ssl_certificate: Option<Seq<char>>,
    pub ssl_certificate_key: Option<Seq<char>>,
}

/// Why a configuration file is refused.
pub enum ConfigError {
    InvalidAllowSsl,
    InvalidAllowHttp,
    MissingSslCertificate,
    MissingDomainOrLocation,
}

/// The message that the parser returns for each refusal.
pub open spec fn config_error_message(e: ConfigError) -> Seq<char> {
    match e {
        ConfigError::InvalidAllowSsl => "Invalid value for AllowSSL"@,
        ConfigError::InvalidAllowHttp => "Invalid value for AllowHTTP"@,
        ConfigError::MissingSslCertificate => "Missing SSL certificate information for a domain with AllowSSL enabled"@,
        ConfigError::MissingDomainOrLocation => "Missing required domain or location information"@,
    }
}

/// Nothing set yet.
pub open spec fn empty_draft() -> ConfigDraft {
    ConfigDraft {
        domain: None,
        location: None,
        allow_ssl: None,
        allow_http: None,
        ssl_certificate: None,
        ssl_certificate_key: None,
    }
}

/// `bool::from_str`: exactly `true` or `false`.
pub open spec fn parse_bool(s: Seq<char>) -> Option<bool> {
    if s == "true"@ {
        Some(true)
    } else if s == "false"@ {
        Some(false)
    } else {
        None
    }
}

/// The line sets one of the six keys.
pub open spec fn is_setting(line: Seq<char>) -> bool {
    let t = trim(line);
    ||| starts_with(t, "domain: "@)
    ||| starts_with(t, "location: "@)
    ||| starts_with(t, "AllowSSL: "@)
    ||| starts_with(t, "AllowHTTP: "@)
    ||| starts_with(t, "ssl_certificate: "@)
    ||| starts_with(t, "ssl_certificate_key: "@)
}

/// The effect of one line on the settings read so far.
pub open spec fn config_step(d: ConfigDraft, line: Seq<char>) -> Result<ConfigDraft, ConfigError> {
    let t = trim(line);
    if let Some(v) = strip_prefix(t, "domain: "@) {
        Ok(ConfigDraft { domain: Some(v), ..d })
    } else if let Some(v) = strip_prefix(t, "location: "@) {
        Ok(ConfigDraft { location: Some(v), ..d })
    } else if let Some(v) = strip_prefix(t, "AllowSSL: "@) {
        match parse_bool(v) {
            Some(b) => Ok(ConfigDraft { allow_ssl: Some(b), ..d }),
            None => Err(ConfigError::InvalidAllowSsl),
        }
    } else if let Some(v) = strip_prefix(t, "AllowHTTP: "@) {
        match parse_bool(v) {
            Some(b) => Ok(ConfigDraft { allow_http: Some(b), ..d }),
            None => Err(ConfigError::InvalidAllowHttp),
        }
    } else if let Some(v) = strip_prefix(t, "ssl_certificate: "@) {
        Ok(ConfigDraft { ssl_certificate: Some(v), ..d })
    } else if let Some(v) = strip_prefix(t, "ssl_certificate_key: "@) {
        Ok(ConfigDraft { ssl_certificate_key: Some(v), ..d })
    } else {
        Ok(d)
    }
}

/// The settings of a sequence of lines, read in order; the first refused
/// line ends the reading.
pub open spec fn config_lines(ls: Seq<Seq<char>>) -> Result<ConfigDraft, ConfigError>
    decreases ls.len(),
{
    if ls.len() == 0 {
        Ok(empty_draft())
    } else {
        match config_lines(ls.drop_last()) {
            Ok(d) => config_step(d, ls.last()),
            Err(e) => Err(e),
        }
    }
}

/// The configuration that complete settings describe: SSL off and HTTP on
/// unless set, and SSL only with both certificate paths.
pub open spec fn config_finish(d: ConfigDraft) -> Result<ConfigSpec, ConfigError> {
    match (d.domain, d.location) {
        (Some(domain), Some(location)) => {
            let allow_ssl = match d.allow_ssl { Some(b) => b, None => false };
            let allow_http = match d.allow_http { Some(b) => b, None => true };
            if allow_ssl && (d.ssl_certificate is None || d.ssl_certificate_key is None) {
                Err(ConfigError::MissingSslCertificate)
            } else {
                Ok(ConfigSpec {
                    domain,
                    location,
                    allow_ssl,
                    allow_http,
                    ssl_certificate: d.ssl_certificate,
                    ssl_certificate_key: d.ssl_certificate_key,
                })
            }
        },
        _ => Err(ConfigError::MissingDomainOrLocation),
    }
}

/// The configuration that the lines of a file describe.
pub open spec fn config_of_lines(ls: Seq<Seq<char>>) -> Result<ConfigSpec, ConfigError> {
    match config_lines(ls) {
        Ok(d) => config_finish(d),
        Err(e) => Err(e),
    }
}

/// The configuration that a file's text describes.
pub open spec fn config_of_text(text: Seq<char>) -> Result<ConfigSpec, ConfigError> {
    config_of_lines(lines(text))
}

/// The parser's result matches the description `c` of the file.
pub open spec fn parsed_matches(
    r: Result<(String, String, bool, bool, Option<String>, Option<String>), &'static str>,
    c: Result<ConfigSpec, ConfigError>,
) -> bool {
    match c {
        Ok(c) => r matches Ok(t) && {
            &&& t.0@ == c.domain
            &&& t.1@ == c.location
            &&& t.2 == c.allow_ssl
            &&& t.3 == c.allow_http
            &&& opt_text(t.4) == c.ssl_certificate
            &&& opt_text(t.5) == c.ssl_certificate_key
        },
        Err(e) => r matches Err(m) && m@ == config_error_message(e),
    }
}

/// The text of `cs[from..]`.
fn rest_of(cs: &Vec<char>, from: usize) -> (r: String)
    requires
        from <= cs@.len(),
    ensures
        r@ == cs@.subrange(from as int, cs@.len() as int),
{
    string_of_range(cs, from, cs.len())
}

/// `bool::from_str` on a vector of characters.
fn parse_bool_exec(v: &Vec<char>) -> (r: Option<bool>)
    ensures
        r == parse_bool(v@),
{
    if chars_eq(v, &chars_of("true")) {
        Some(true)
    } else if chars_eq(v, &chars_of("false")) {
        Some(false)
    } else {
        None
    }
}

/// Parses a configuration file into (domain, location, AllowSSL, AllowHTTP,
/// certificate path, key path).
///
/// Lines `domain: `, `location: `, `AllowSSL: `, `AllowHTTP: `,
/// `ssl_certificate: ` and `ssl_certificate_key: ` set the six values; other
/// lines are ignored. AllowSSL defaults to false and AllowHTTP to true; a
/// value other than `true` or `false` for either is refused at once.
pub fn parse_config(file_content: &str) -> (r: Result<
    (String, String, bool, bool, Option<String>, Option<String>),
    &'static str,
>)
    ensures
        parsed_matches(r, config_of_text(file_content@)),
        r matches Ok(t) ==> (t.2 ==> t.4 is Some && t.5 is Some),
{
    let cs = chars_of(file_content);
    let ls = lines_of(&cs);
    let k_domain = chars_of("domain: ");
    let k_location = chars_of("location: ");
    let k_ssl = chars_of("AllowSSL: ");
    let k_http = chars_of("AllowHTTP: ");
    let k_cert = chars_of("ssl_certificate: ");
    let k_key = chars_of("ssl_certificate_key: ");
    let mut domain: Option<String> = None;
    let mut location: Option<String> = None;
    let mut allow_ssl: Option<bool> = None;
    let mut allow_http: Option<bool> = None;
    let mut ssl_certificate: Option<String> = None;
    let mut ssl_certificate_key: Option<String> = None;
    let ghost all = views(ls@);
    let mut i: usize = 0;
    while i < ls.len()
        invariant
            0 <= i <= ls@.len(),
            all == views(ls@),
            all == lines(file_content@),
            k_domain@ == "domain: "@,
            k_location@ == "location: "@,
            k_ssl@ == "AllowSSL: "@,
            k_http@ == "AllowHTTP: "@,
            k_cert@ == "ssl_certificate: "@,
            k_key@ == "ssl_certificate_key: "@,
            config_lines(all.take(i as int)) == Ok::<ConfigDraft, ConfigError>(
                ConfigDraft {
                    domain: opt_text(domain),
                    location: opt_text(location),
                    allow_ssl,
                    allow_http,
                    ssl_certificate: opt_text(ssl_certificate),
                    ssl_certificate_key: opt_text(ssl_certificate_key),
                },
            ),
        decreases ls@.len() - i,
    {
        let ghost before = ConfigDraft {
            domain: opt_text(domain),
            location: opt_text(location),
            allow_ssl,
            allow_http,
            ssl_certificate: opt_text(ssl_certificate),
            ssl_certificate_key: opt_text(ssl_certificate_key),
        };
        proof {
            assert(all.take(i + 1).drop_last() =~= all.take(i as int));
            assert(all.take(i + 1).last() == ls@[i as int]@);
        }
        let t = trimmed(&ls[i]);
        if starts_with_exec(&t, &k_domain) {
            domain = Some(rest_of(&t, k_domain.len()));
        } else if starts_with_exec(&t, &k_location) {
            location = Some(rest_of(&t, k_location.len()));
        } else if starts_with_exec(&t, &k_ssl) {
            let v = slice_of(&t, k_ssl.len(), t.len());
            match parse_bool_exec(&v) {
                Some(b) => {
                    allow_ssl = Some(b);
                },
                None => {
                    proof {
                        lemma_config_lines_error_sticks(all, (i + 1) as int);
                    }
                    return Err("Invalid value for AllowSSL");
                },
            }
        } else if starts_with_exec(&t, &k_http) {
            let v = slice_of(&t, k_http.len(), t.len());
            match parse_bool_exec(&v) {
                Some(b) => {
                    allow_http = Some(b);
                },
                None => {
                    proof {
                        lemma_config_lines_error_sticks(all, (i + 1) as int);
                    }
                    return Err("Invalid value for AllowHTTP");
                },
            }
        } else if starts_with_exec(&t, &k_cert) {
            ssl_certificate = Some(rest_of(&t, k_cert.len()));
        } else if starts_with_exec(&t, &k_key) {
            ssl_certificate_key = Some(rest_of(&t, k_key.len()));
        }
        assert(config_step(before, ls@[i as int]@) == Ok::<ConfigDraft, ConfigError>(
            ConfigDraft {
                domain: opt_text(domain),
                location: opt_text(location),
                allow_ssl,
                allow_http,
                ssl_certificate: opt_text(ssl_certificate),
                ssl_certificate_key: opt_text(ssl_certificate_key),
            },
        ));
        i = i + 1;
    }
    assert(all.take(ls@.len() as int) =~= all);
    match (domain, location) {
        (Some(domain), Some(location)) => {
            let ssl = match allow_ssl {
                Some(b) => b,
                None => false,
            };
            let http = match allow_http {
                Some(b) => b,
                None => true,
            };
            if ssl && (ssl_certificate.is_none() || ssl_certificate_key.is_none()) {
                Err("Missing SSL certificate information for a domain with AllowSSL enabled")
            } else {
                Ok((domain, location, ssl, http, ssl_certificate, ssl_certificate_key))
            }
        },
        _ => Err("Missing required domain or location information"),
    }
}

/// Once a line is refused, no later line changes the outcome.
pub proof fn lemma_config_lines_error_sticks(ls: Seq<Seq<char>>, k: int)
    requires
        0 <= k <= ls.len(),
        config_lines(ls.take(k)) is Err,
    ensures
        config_lines(ls) == config_lines(ls.take(k)),
    decreases ls.len() - k,
{
    if k < ls.len() {
        assert(ls.take(k + 1).drop_last() =~= ls.take(k));
        lemma_config_lines_error_sticks(ls, k + 1);
    } else {
        assert(ls.take(k) =~= ls);
    }
}

} // verus!

verus! {

/// Lines that set none of the six keys change nothing: the configuration of
/// a file is that of its setting lines alone.
pub proof fn law_unrecognised_lines_ignored(ls: Seq<Seq<char>>, extra: Seq<Seq<char>>)
    requires
        forall|i: int| 0 <= i < extra.len() ==> !is_setting(#[trigger] extra[i]),
    ensures
        config_lines(ls + extra) == config_lines(ls),
        config_of_lines(ls + extra) == config_of_lines(ls),
    decreases extra.len(),
{
    if extra.len() > 0 {
        let shorter = extra.drop_last();
        law_unrecognised_lines_ignored(ls, shorter);
        assert((ls + extra).drop_last() =~= ls + shorter);
        assert((ls + extra).last() == extra.last());
        assert(!is_setting(extra[extra.len() - 1]));
        let t = trim(extra.last());
        assert(strip_prefix(t, "domain: "@) is None);
        assert(strip_prefix(t, "location: "@) is None);
        assert(strip_prefix(t, "AllowSSL: "@) is None);
        assert(strip_prefix(t, "AllowHTTP: "@) is None);
        assert(strip_prefix(t, "ssl_certificate: "@) is None);
        assert(strip_prefix(t, "ssl_certificate_key: "@) is None);
    } else {
        assert(ls + extra =~= ls);
    }
}

/// Lines that set none of the six keys change nothing wherever they stand:
/// inserting them between any two parts of a file, or deleting them, leaves
/// its settings as they were.
pub proof fn law_unrecognised_lines_anywhere(
    before: Seq<Seq<char>>,
    extra: Seq<Seq<char>>,
    after: Seq<Seq<char>>,
)
    requires
        forall|i: int| 0 <= i < extra.len() ==> !is_setting(#[trigger] extra[i]),
    ensures
        config_lines(before + extra + after) == config_lines(before + after),
        config_of_lines(before + extra + after) == config_of_lines(before + after),
    decreases after.len(),
{
    if after.len() == 0 {
        law_unrecognised_lines_ignored(before, extra);
        assert(before + extra + after =~= before + extra);
        assert(before + after =~= before);
    } else {
        law_unrecognised_lines_anywhere(before, extra, after.drop_last());
        assert((before + extra + after).drop_last() =~= before + extra + after.drop_last());
        assert((before + after).drop_last() =~= before + after.drop_last());
        assert((before + extra + after).last() == after.last());
        assert((before + after).last() == after.last());
    }
}

/// The same for the text of a file: whole lines that set none of the six
/// keys, inserted at the start of a line, leave the configuration as it was.
pub proof fn law_unrecognised_text_lines_ignored(
    head: Seq<char>,
    extra: Seq<char>,
    tail: Seq<char>,
)
    requires
        head.len() == 0 || head.last() == '\n',
        extra.len() == 0 || extra.last() == '\n',
        forall|i: int| 0 <= i < lines(extra).len() ==> !is_setting(#[trigger] lines(extra)[i]),
    ensures
        config_of_text(head + extra + tail) == config_of_text(head + tail),
{
    crate::text::lemma_lines_append(head, extra + tail);
    crate::text::lemma_lines_append(extra, tail);
    crate::text::lemma_lines_append(head, tail);
    assert(head + extra + tail =~= head + (extra + tail));
    assert(lines(head) + (lines(extra) + lines(tail)) =~= lines(head) + lines(extra) + lines(tail));
    law_unrecognised_lines_anywhere(lines(head), lines(extra), lines(tail));
}

/// A later line for a key overrides an earlier one: once a line has set the
/// domain, another line that sets it leaves no trace of the first.
pub proof fn law_later_domain_overrides(ls: Seq<Seq<char>>, first: Seq<char>, second: Seq<char>)
    requires
        config_lines(ls) is Ok,
        strip_prefix(trim(first), "domain: "@) is Some,
        strip_prefix(trim(second), "domain: "@) is Some,
    ensures
        config_lines(ls.push(first).push(second)) == config_lines(ls.push(second)),
{
    assert(ls.push(first).push(second).drop_last() =~= ls.push(first));
    assert(ls.push(first).drop_last() =~= ls);
    assert(ls.push(second).drop_last() =~= ls);
    let d = config_lines(ls)->Ok_0;
    let v1 = strip_prefix(trim(first), "domain: "@)->Some_0;
    let v2 = strip_prefix(trim(second), "domain: "@)->Some_0;
    assert(config_lines(ls.push(first)) == config_step(d, first));
    assert(config_step(d, first) == Ok::<ConfigDraft, ConfigError>(ConfigDraft { domain: Some(v1), ..d }));
    assert(config_lines(ls.push(first).push(second)) == config_step(ConfigDraft { domain: Some(v1), ..d }, second));
    assert(config_lines(ls.push(second)) == config_step(d, second));
}

/// A file of one `domain: ` line and one `location: ` line describes that
/// domain at that location, with SSL off, HTTP on and no certificates. The
/// values must not be empty or end in whitespace, since lines are trimmed.
pub proof fn law_domain_and_location_suffice(domain: Seq<char>, location: Seq<char>)
    requires
        domain.len() > 0,
        !crate::text::is_ws(domain.last()),
        location.len() > 0,
        !crate::text::is_ws(location.last()),
    ensures
        config_of_lines(seq!["domain: "@ + domain, "location: "@ + location]) == Ok::<
            ConfigSpec,
            ConfigError,
        >(
            ConfigSpec {
                domain,
                location,
                allow_ssl: false,
                allow_http: true,
                ssl_certificate: None,
                ssl_certificate_key: None,
            },
        ),
{
    reveal_strlit("domain: ");
    reveal_strlit("location: ");
    let a = "domain: "@ + domain;
    let b = "location: "@ + location;
    let ls = seq![a, b];
    assert(a.last() == domain.last());
    assert(b.last() == location.last());
    crate::text::lemma_trim_fixed(a);
    crate::text::lemma_trim_fixed(b);
    assert(a.subrange(0, 8) =~= "domain: "@);
    assert(a.subrange(8, a.len() as int) =~= domain);
    assert(b.subrange(0, 10) =~= "location: "@);
    assert(b.subrange(10, b.len() as int) =~= location);
    assert(b.subrange(0, 8)[0] != "domain: "@[0]);
    assert(ls.drop_last() =~= seq![a]);
    assert(seq![a].drop_last() =~= Seq::<Seq<char>>::empty());
    assert(config_lines(Seq::<Seq<char>>::empty()) == Ok::<ConfigDraft, ConfigError>(empty_draft()));
    let d1 = ConfigDraft { domain: Some(domain), ..empty_draft() };
    assert(config_step(empty_draft(), a) == Ok::<ConfigDraft, ConfigError>(d1));
    assert(config_lines(seq![a]) == Ok::<ConfigDraft, ConfigError>(d1));
    let d2 = ConfigDraft { location: Some(location), ..d1 };
    assert(strip_prefix(trim(b), "domain: "@) is None);
    assert(config_step(d1, b) == Ok::<ConfigDraft, ConfigError>(d2));
    assert(config_lines(ls) == Ok::<ConfigDraft, ConfigError>(d2));
}

/// A directory entry named `name` is a configuration file: its extension,
/// the text after its last `.` when that dot does not begin the name, is
/// `conf`.
pub open spec fn is_config_file(name: Seq<char>) -> bool {
    name.len() > 5 && name.subrange(name.len() - 5, name.len() as int) == ".conf"@
}

/// Whether `name` has the extension `conf`.
pub fn is_config_file_name(name: &str) -> (r: bool)
    ensures
        r == is_config_file(name@),
{
    let cs = chars_of(name);
    let suffix = chars_of(".conf");
    proof {
        reveal_strlit(".conf");
    }
    if cs.len() <= 5 {
        return false;
    }
    let tail = slice_of(&cs, cs.len() - 5, cs.len());
    chars_eq(&tail, &suffix)
}

/// The text a `Config` holds.
pub open spec fn config_view(c: Config) -> ConfigSpec {
    ConfigSpec {
        domain: c.domain@,
        location: c.location@,
        allow_ssl: c.allow_ssl,
        allow_http: c.allow_http,
        ssl_certificate: opt_text(c.ssl_certificate),
        ssl_certificate_key: opt_text(c.ssl_certificate_key),
    }
}

/// One entry of the configuration directory: its file name, whether it is a
/// regular file, and its text when it was read.
pub struct ConfigFile {
    pub name: String,
    pub is_file: bool,
    pub content: Option<String>,
}

/// What became of one directory entry.
pub enum ConfigFileOutcome {
    /// Not a configuration file.
    Skipped,
    /// A configuration file whose text could not be read.
    Unreadable,
    /// A configuration file refused with this message.
    Rejected(&'static str),
    /// A configuration file that was loaded.
    Loaded,
}

/// The entry is a regular file with the extension `conf`.
pub open spec fn is_selected(f: ConfigFile) -> bool {
    f.is_file && is_config_file(f.name@)
}

/// The configuration an entry contributes, if any.
pub open spec fn file_config(f: ConfigFile) -> Option<ConfigSpec> {
    if is_selected(f) {
        match f.content {
            Some(c) => match config_of_text(c@) {
                Ok(cs) => Some(cs),
                Err(_) => None,
            },
            None => None,
        }
    } else {
        None
    }
}

/// The configurations of the entries, in the order of the entries.
pub open spec fn loaded_configs(fs: Seq<ConfigFile>) -> Seq<ConfigSpec>
    decreases fs.len(),
{
    if fs.len() == 0 {
        Seq::empty()
    } else {
        match file_config(fs.last()) {
            Some(c) => loaded_configs(fs.drop_last()).push(c),
            None => loaded_configs(fs.drop_last()),
        }
    }
}

/// `o` tells what became of the entry `f`.
pub open spec fn outcome_matches(o: ConfigFileOutcome, f: ConfigFile) -> bool {
    if !is_selected(f) {
        o is Skipped
    } else {
        match f.content {
            None => o is Unreadable,
            Some(c) => match config_of_text(c@) {
                Ok(_) => o is Loaded,
                Err(e) => o matches ConfigFileOutcome::Rejected(m) && m@ == config_error_message(e),
            },
        }
    }
}

/// Loads the configuration files among the entries of the configuration
/// directory: each regular file with the extension `conf` whose text was read
/// and parses is kept, in order; the outcome of every entry is reported.
pub fn load_configs(files: &Vec<ConfigFile>) -> (r: (Vec<Config>, Vec<ConfigFileOutcome>))
    ensures
        r.0@.map_values(|c: Config| config_view(c)) == loaded_configs(files@),
        r.1@.len() == files@.len(),
        forall|i: int| 0 <= i < files@.len() ==> outcome_matches(#[trigger] r.1@[i], files@[i]),
{
    let mut configs: Vec<Config> = Vec::new();
    let mut outcomes: Vec<ConfigFileOutcome> = Vec::new();
    let mut i: usize = 0;
    while i < files.len()
        invariant
            0 <= i <= files@.len(),
            configs@.map_values(|c: Config| config_view(c)) == loaded_configs(files@.take(i as int)),
            outcomes@.len() == i,
            forall|j: int| 0 <= j < i ==> outcome_matches(#[trigger] outcomes@[j], files@[j]),
        decreases files@.len() - i,
    {
        let f = &files[i];
        let ghost before = configs@;
        proof {
            assert(files@.take(i + 1).drop_last() =~= files@.take(i as int));
            assert(files@.take(i + 1).last() == files@[i as int]);
        }
        let outcome = if f.is_file && is_config_file_name(f.name.as_str()) {
            match &f.content {
                None => ConfigFileOutcome::Unreadable,
                Some(text) => match parse_config(text.as_str()) {
                    Ok(t) => {
                        let c = Config {
                            domain: t.0,
                            location: t.1,
                            allow_ssl: t.2,
                            allow_http: t.3,
                            ssl_certificate: t.4,
                            ssl_certificate_key: t.5,
                        };
                        configs.push(c);
                        proof {
                            assert(configs@.map_values(|c: Config| config_view(c)) =~= before.map_values(
                                |c: Config| config_view(c),
                            ).push(config_view(c)));
                        }
                        ConfigFileOutcome::Loaded
                    },
                    Err(m) => ConfigFileOutcome::Rejected(m),
                },
            }
        } else {
            ConfigFileOutcome::Skipped
        };
        outcomes.push(outcome);
        i = i + 1;
    }
    assert(files@.take(files@.len() as int) =~= files@);
    (configs, outcomes)
}

/// Without an `AllowHTTP:` line the settings leave HTTP unset.
proof fn lemma_http_unset(ls: Seq<Seq<char>>)
    requires
        forall|i: int| 0 <= i < ls.len() ==> !starts_with(trim(#[trigger] ls[i]), "AllowHTTP: "@),
    ensures
        config_lines(ls) matches Ok(d) ==> d.allow_http is None,
    decreases ls.len(),
{
    if ls.len() > 0 {
        let init = ls.drop_last();
        assert forall|i: int| 0 <= i < init.len() implies !starts_with(trim(#[trigger] init[i]), "AllowHTTP: "@) by {
            assert(init[i] == ls[i]);
        }
        lemma_http_unset(init);
        assert(!starts_with(trim(ls[ls.len() - 1]), "AllowHTTP: "@));
    }
}

/// Without an `AllowSSL:` line the settings leave SSL unset.
proof fn lemma_ssl_unset(ls: Seq<Seq<char>>)
    requires
        forall|i: int| 0 <= i < ls.len() ==> !starts_with(trim(#[trigger] ls[i]), "AllowSSL: "@),
    ensures
        config_lines(ls) matches Ok(d) ==> d.allow_ssl is None,
    decreases ls.len(),
{
    if ls.len() > 0 {
        let init = ls.drop_last();
        assert forall|i: int| 0 <= i < init.len() implies !starts_with(trim(#[trigger] init[i]), "AllowSSL: "@) by {
            assert(init[i] == ls[i]);
        }
        lemma_ssl_unset(init);
        assert(!starts_with(trim(ls[ls.len() - 1]), "AllowSSL: "@));
    }
}

/// Plain HTTP is on unless a line says otherwise: a file with no
/// `AllowHTTP:` line that parses accepts HTTP, whatever its `AllowSSL:` line
/// says.
pub proof fn law_http_on_unless_set(text: Seq<char>)
    requires
        forall|i: int|
            0 <= i < lines(text).len() ==> !starts_with(trim(#[trigger] lines(text)[i]), "AllowHTTP: "@),
    ensures
        config_of_text(text) matches Ok(c) ==> c.allow_http,
{
    lemma_http_unset(lines(text));
}

/// TLS is off unless a line says otherwise: a file with no `AllowSSL:` line
/// that parses refuses TLS and keeps its HTTP setting.
pub proof fn law_ssl_off_unless_set(text: Seq<char>)
    requires
        forall|i: int|
            0 <= i < lines(text).len() ==> !starts_with(trim(#[trigger] lines(text)[i]), "AllowSSL: "@),
    ensures
        config_of_text(text) matches Ok(c) ==> !c.allow_ssl,
{
    lemma_ssl_unset(lines(text));
}

/// Every regular `.conf` file whose text parses adds its configuration,
/// after those of the entries before it, whatever the configuration says.
pub proof fn law_parsed_file_is_loaded(fs: Seq<ConfigFile>, f: ConfigFile, text: String, c: ConfigSpec)
    requires
        f.is_file,
        is_config_file(f.name@),
        f.content == Some(text),
        config_of_text(text@) == Ok::<ConfigSpec, ConfigError>(c),
    ensures
        loaded_configs(fs.push(f)) == loaded_configs(fs).push(c),
{
    assert(fs.push(f).drop_last() =~= fs);
    assert(fs.push(f).last() == f);
}

/// Any other entry (not a regular `.conf` file, unread, or refused) adds
/// nothing.
pub proof fn law_unparsed_file_adds_nothing(fs: Seq<ConfigFile>, f: ConfigFile)
    requires
        !(f.is_file && is_config_file(f.name@) && (f.content matches Some(t) && config_of_text(t@) is Ok)),
    ensures
        loaded_configs(fs.push(f)) == loaded_configs(fs),
{
    assert(fs.push(f).drop_last() =~= fs);
    assert(fs.push(f).last() == f);
}

/// The number of `Loaded` outcomes.
pub open spec fn loaded_count(os: Seq<ConfigFileOutcome>) -> nat
    decreases os.len(),
{
    if os.len() == 0 {
        0
    } else {
        loaded_count(os.drop_last()) + if os.last() is Loaded {
            1nat
        } else {
            0nat
        }
    }
}

/// One configuration is loaded for each entry reported `Loaded`, and none for
/// any other.
pub proof fn law_one_config_per_loaded_outcome(fs: Seq<ConfigFile>, os: Seq<ConfigFileOutcome>)
    requires
        os.len() == fs.len(),
        forall|i: int| 0 <= i < fs.len() ==> outcome_matches(#[trigger] os[i], fs[i]),
    ensures
        loaded_configs(fs).len() == loaded_count(os),
    decreases fs.len(),
{
    if fs.len() > 0 {
        let fi = fs.drop_last();
        let oi = os.drop_last();
        assert forall|i: int| 0 <= i < fi.len() implies outcome_matches(#[trigger] oi[i], fi[i]) by {
            assert(oi[i] == os[i] && fi[i] == fs[i]);
        }
        law_one_config_per_loaded_outcome(fi, oi);
        assert(outcome_matches(os[os.len() - 1], fs[fs.len() - 1]));
    }
}

/// A closing `AllowHTTP: false` line turns plain HTTP off, whatever came
/// before it.
pub proof fn law_allow_http_false_turns_http_off(ls: Seq<Seq<char>>)
    requires
        ls.len() > 0,
        trim(ls.last()) == "AllowHTTP: false"@,
    ensures
        config_of_lines(ls) matches Ok(c) ==> !c.allow_http,
{
    reveal_strlit("AllowHTTP: false");
    reveal_strlit("AllowHTTP: ");
    reveal_strlit("AllowSSL: ");
    reveal_strlit("domain: ");
    reveal_strlit("location: ");
    reveal_strlit("false");
    reveal_strlit("true");
    let t = trim(ls.last());
    assert(t.subrange(0, 11) =~= "AllowHTTP: "@);
    assert(t.subrange(11, t.len() as int) =~= "false"@);
    assert(t[0] != "domain: "@[0]);
    assert(t[0] != "location: "@[0]);
    assert(t[5] != "AllowSSL: "@[5]);
    assert(strip_prefix(t, "domain: "@) is None);
    assert(strip_prefix(t, "location: "@) is None);
    assert(strip_prefix(t, "AllowSSL: "@) is None);
    assert(strip_prefix(t, "AllowHTTP: "@) == Some("false"@));
    assert(parse_bool("false"@) == Some(false));
}

} // verus!
