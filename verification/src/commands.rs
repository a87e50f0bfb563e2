//! The decisions and text processing behind the subcommands.
//!
//! Each subcommand orchestrates external programs; what it decides and
//! computes between those calls lives here: parsing the text the programs
//! print, choosing arguments, merging and ordering name lists, and the
//! errors owed when an answer is unusable. The orchestration itself, with
//! its spawning and prompting, stays outside the library and calls in
//! with plain values.

use vstd::prelude::*;

verus! {

use crate::error::Error;
use crate::template::TemplateModel;
use crate::template::Templates;
use crate::text::contains_name;
use crate::text::dedup_names;
use crate::text::sort_names;
use crate::text::sorted_names;
use crate::text::split_fields;
use crate::text::split_sep;
use crate::text::split_on;
use crate::text::split_whitespace_owned;
use crate::text::str_eq;
use crate::text::str_trim;
use crate::text::trimmed;

/// The registry host for an account in a region.
pub open spec fn registry_uri(account: Seq<char>, region: Seq<char>) -> Seq<char> {
    account + ".dkr.ecr."@ + region + ".amazonaws.com"@
}

/// Builds the container registry host for the active account: the account
/// identifier as the account query printed it (trimmed), and the region
/// override where one was given, else the configured region as printed
/// (trimmed). Without an override and with nothing configured, the region
/// cannot be determined and that is the error.
pub fn generate_registry_uri(
    account_output: &str,
    region_override: &Option<String>,
    region_output: &str,
) -> (r: Result<String, Error>)
    ensures
        match r {
            Ok(u) => u@ == registry_uri(
                trimmed(account_output@),
                match region_override {
                    Some(g) => g@,
                    None => trimmed(region_output@),
                },
            ) && (region_override is Some || trimmed(region_output@).len() > 0),
            Err(e) => region_override is None && trimmed(region_output@).len() == 0 && e@.status
                == 1 && e@.message == Some("The region could not be determined."@) && e@.context
                == Seq::<Seq<char>>::empty(),
        },
{
    let region: String = match region_override {
        Some(g) => g.clone(),
        None => {
            let trimmed_region = str_trim(region_output);
            if trimmed_region.as_str().is_empty() {
                return Err(
                    Error::new(1).with_message(
                        String::from_str("The region could not be determined."),
                    ),
                );
            }
            trimmed_region
        },
    };
    let mut uri = str_trim(account_output);
    uri.append(".dkr.ecr.");
    uri.append(region.as_str());
    uri.append(".amazonaws.com");
    proof {
        assert(uri@ =~= registry_uri(
            trimmed(account_output@),
            match region_override {
                Some(g) => g@,
                None => trimmed(region_output@),
            },
        ));
    }
    Ok(uri)
}

/// The arguments of the registry login handed to the container client.
pub fn docker_login_args(password: &str, registry: &str) -> (r: Vec<String>)
    ensures
        r@.map_values(|s: String| s@) == seq![
            "login"@,
            "--username"@,
            "AWS"@,
            "--password"@,
            password@,
            registry@,
        ],
{
    let mut args: Vec<String> = Vec::new();
    args.push(String::from_str("login"));
    args.push(String::from_str("--username"));
    args.push(String::from_str("AWS"));
    args.push(String::from_str("--password"));
    args.push(String::from_str(password));
    args.push(String::from_str(registry));
    proof {
        assert(args@.map_values(|s: String| s@) =~= seq![
            "login"@,
            "--username"@,
            "AWS"@,
            "--password"@,
            password@,
            registry@,
        ]);
    }
    args
}

/// Reads a whitespace-separated name listing, as the cluster and profile
/// listings are printed.
pub fn parse_name_list(output: &str) -> (r: Vec<String>)
    ensures
        r@.map_values(|s: String| s@) == split_fields(output@),
{
    split_whitespace_owned(output)
}

/// Checks a requested cluster against the clusters that are available.
pub fn validate_cluster(cluster: &String, clusters: &Vec<String>) -> (r: Result<(), Error>)
    ensures
        match r {
            Ok(_) => clusters@.map_values(|s: String| s@).contains(cluster@),
            Err(e) => !clusters@.map_values(|s: String| s@).contains(cluster@) && e@.status == 1
                && e@.message == Some("The specified cluster is not available."@) && e@.context
                == Seq::<Seq<char>>::empty(),
        },
{
    if contains_name(clusters, cluster.as_str()) {
        Ok(())
    } else {
        Err(Error::new(1).with_message(String::from_str("The specified cluster is not available.")))
    }
}

/// Merges the resolvable template names with the profiles the AWS CLI
/// already knows, ordered and with repeats removed; when there is nothing
/// at all to offer, that is the error.
pub fn merge_profile_names(template_names: Vec<String>, existing: Vec<String>) -> (r: Result<
    Vec<String>,
    Error,
>)
    ensures
        match r {
            Ok(v) => {
                &&& template_names@.len() + existing@.len() > 0
                &&& sorted_names(v@.map_values(|s: String| s@))
                &&& v@.map_values(|s: String| s@).no_duplicates()
                &&& v@.map_values(|s: String| s@).to_set() == template_names@.map_values(
                    |s: String| s@,
                ).to_set().union(existing@.map_values(|s: String| s@).to_set())
            },
            Err(e) => template_names@.len() == 0 && existing@.len() == 0 && e@.status == 1
                && e@.message == Some("There are no profiles available to choose from."@)
                && e@.context == Seq::<Seq<char>>::empty(),
        },
{
    broadcast use vstd::seq_lib::group_to_multiset_ensures;

    let ghost tview = template_names@.map_values(|s: String| s@);
    let ghost eview = existing@.map_values(|s: String| s@);
    let mut all = template_names;
    let mut rest = existing;
    all.append(&mut rest);
    proof {
        assert(all@.map_values(|s: String| s@) =~= tview + eview);
    }
    if all.len() == 0 {
        return Err(
            Error::new(1).with_message(
                String::from_str("There are no profiles available to choose from."),
            ),
        );
    }
    let sorted = sort_names(all);
    proof {
        let sview = sorted@.map_values(|s: String| s@);
        assert forall|x: Seq<char>| sview.contains(x) <==> (tview + eview).contains(x) by {
            assert(sview.contains(x) <==> sview.to_multiset().count(x) > 0);
            assert((tview + eview).contains(x) <==> (tview + eview).to_multiset().count(x) > 0);
        }
        assert(sview.to_set() =~= (tview + eview).to_set());
        vstd::seq_lib::seq_to_set_distributes_over_add(tview, eview);
    }
    let out = dedup_names(sorted);
    Ok(out)
}

/// Builds the error owed when the chosen profile neither exists in the
/// AWS CLI nor has a template to create it from.
pub fn missing_profile_error(name: &str) -> (r: Error)
    ensures
        r@.status == 1,
        r@.message == Some("The profile, "@ + name@ + ", does not exist."@),
        r@.context == Seq::<Seq<char>>::empty(),
{
    let mut m = String::from_str("The profile, ");
    m.append(name);
    m.append(", does not exist.");
    Error::new(1).with_message(m)
}

/// The enabled template names absent from a base listing, in entry order
/// from index `i` on.
pub open spec fn enabled_missing_from(
    entries: Seq<(Seq<char>, TemplateModel)>,
    base: Seq<Seq<char>>,
    i: int,
) -> Seq<Seq<char>>
    decreases entries.len() - i,
{
    if i < 0 || i >= entries.len() {
        Seq::empty()
    } else {
        (if entries[i].1.enabled && !base.contains(entries[i].0) {
            seq![entries[i].0]
        } else {
            Seq::empty()
        }) + enabled_missing_from(entries, base, i + 1)
    }
}

/// Combines the profiles the AWS CLI lists with the enabled templates it
/// does not know yet, ordered.
#[verifier::rlimit(60)]
pub fn get_cli_profiles(output: &str, templates: &Templates) -> (r: Vec<String>)
    ensures
        sorted_names(r@.map_values(|s: String| s@)),
        r@.map_values(|s: String| s@).to_multiset() == (split_fields(output@)
            + enabled_missing_from(templates@, split_fields(output@), 0)).to_multiset(),
{
    let base = split_whitespace_owned(output);
    let ghost bview = base@.map_values(|s: String| s@);
    let n = templates.len();
    let mut added: Vec<String> = Vec::new();
    let mut i: usize = 0;
    proof {
        assert(added@.map_values(|s: String| s@) =~= Seq::<Seq<char>>::empty());
    }
    while i < n
        invariant
            i <= n,
            n == templates@.len(),
            bview == base@.map_values(|s: String| s@),
            added@.map_values(|s: String| s@) + enabled_missing_from(templates@, bview, i as int)
                == enabled_missing_from(templates@, bview, 0),
        decreases n - i,
    {
        let name = templates.name_at(i);
        let template = templates.template_at(i);
        let ghost prev = added@.map_values(|s: String| s@);
        if template.enabled() && !contains_name(&base, name.as_str()) {
            added.push(name.clone());
            proof {
                assert(added@.map_values(|s: String| s@) =~= prev.push(name@));
                assert(prev.push(name@) =~= prev + seq![name@]);
            }
        }
        proof {
            assert(added@.map_values(|s: String| s@) + enabled_missing_from(
                templates@,
                bview,
                i + 1,
            ) =~= enabled_missing_from(templates@, bview, 0));
        }
        i = i + 1;
    }
    proof {
        assert(enabled_missing_from(templates@, bview, n as int) =~= Seq::<Seq<char>>::empty());
        assert(added@.map_values(|s: String| s@) =~= enabled_missing_from(templates@, bview, 0));
    }
    let mut all = base;
    let mut rest = added;
    all.append(&mut rest);
    proof {
        assert(all@.map_values(|s: String| s@) =~= bview + enabled_missing_from(
            templates@,
            bview,
            0,
        ));
    }
    sort_names(all)
}

/// The arguments that install one profile setting into the AWS CLI.
pub fn configure_set_args(profile: &str, key: &str, value: &str) -> (r: Vec<String>)
    ensures
        r@.map_values(|s: String| s@) == seq![
            "--profile"@,
            profile@,
            "configure"@,
            "set"@,
            key@,
            value@,
        ],
{
    let mut args: Vec<String> = Vec::new();
    args.push(String::from_str("--profile"));
    args.push(String::from_str(profile));
    args.push(String::from_str("configure"));
    args.push(String::from_str("set"));
    args.push(String::from_str(key));
    args.push(String::from_str(value));
    proof {
        assert(args@.map_values(|s: String| s@) =~= seq![
            "--profile"@,
            profile@,
            "configure"@,
            "set"@,
            key@,
            value@,
        ]);
    }
    args
}

/// The profile settings that must all be present before single sign-on
/// can log in directly.
pub fn sso_required_settings() -> (r: Vec<String>)
    ensures
        r@.map_values(|s: String| s@) == seq![
            "sso_account_id"@,
            "sso_region"@,
            "sso_role_name"@,
            "sso_start_url"@,
        ],
{
    let mut keys: Vec<String> = Vec::new();
    keys.push(String::from_str("sso_account_id"));
    keys.push(String::from_str("sso_region"));
    keys.push(String::from_str("sso_role_name"));
    keys.push(String::from_str("sso_start_url"));
    proof {
        assert(keys@.map_values(|s: String| s@) =~= seq![
            "sso_account_id"@,
            "sso_region"@,
            "sso_role_name"@,
            "sso_start_url"@,
        ]);
    }
    keys
}

/// Decides whether a profile is fully set up for single sign-on: each
/// required setting was read back with some text in it.
pub fn is_configured(values: &Vec<Option<String>>) -> (r: bool)
    ensures
        r == forall|i: int|
            0 <= i < values@.len() ==> match #[trigger] values@[i] {
                Some(s) => trimmed(s@).len() > 0,
                None => false,
            },
{
    let n = values.len();
    let mut i: usize = 0;
    while i < n
        invariant
            i <= n,
            n == values@.len(),
            forall|k: int|
                0 <= k < i ==> match #[trigger] values@[k] {
                    Some(s) => trimmed(s@).len() > 0,
                    None => false,
                },
        decreases n - i,
    {
        match &values[i] {
            Some(s) => {
                let t = str_trim(s.as_str());
                if t.as_str().is_empty() {
                    return false;
                }
            },
            None => {
                return false;
            },
        }
        i = i + 1;
    }
    true
}

/// The AWS CLI arguments of the sign-on step: log in directly when the
/// profile is configured, otherwise configure it first.
pub fn sso_args(configured: bool) -> (r: Vec<String>)
    ensures
        r@.map_values(|s: String| s@) == if configured {
            seq!["sso"@, "login"@]
        } else {
            seq!["configure"@, "sso"@]
        },
{
    let mut args: Vec<String> = Vec::new();
    if configured {
        args.push(String::from_str("sso"));
        args.push(String::from_str("login"));
        proof {
            assert(args@.map_values(|s: String| s@) =~= seq!["sso"@, "login"@]);
        }
    } else {
        args.push(String::from_str("configure"));
        args.push(String::from_str("sso"));
        proof {
            assert(args@.map_values(|s: String| s@) =~= seq!["configure"@, "sso"@]);
        }
    }
    args
}

/// The mathematical model of a [`Proxy`].
pub struct ProxyModel {
    /// The host name of the proxy's endpoint.
    pub endpoint: Seq<char>,
    /// The database engine family.
    pub engine: Seq<char>,
    /// The name of the proxy.
    pub name: Seq<char>,
    /// Whether the proxy requires TLS.
    pub require_tls: bool,
}

/// One available RDS Proxy from the proxy listing.
#[derive(Debug)]
pub struct Proxy {
    /// The host name of the proxy's endpoint.
    endpoint: String,
    /// The database engine family.
    engine: String,
    /// The name of the proxy.
    name: String,
    /// Whether the proxy requires TLS.
    require_tls: bool,
}

impl View for Proxy {
    type V = ProxyModel;

    closed spec fn view(&self) -> ProxyModel {
        ProxyModel {
            endpoint: self.endpoint@,
            engine: self.engine@,
            name: self.name@,
            require_tls: self.require_tls,
        }
    }
}

impl Proxy {
    /// Returns the host name of the proxy's endpoint.
    pub fn endpoint(&self) -> (r: &str)
        ensures
            r@ == self@.endpoint,
    {
        self.endpoint.as_str()
    }

    /// Returns the database engine family.
    pub fn engine(&self) -> (r: &str)
        ensures
            r@ == self@.engine,
    {
        self.engine.as_str()
    }

    /// Returns the name of the proxy.
    pub fn name(&self) -> (r: &str)
        ensures
            r@ == self@.name,
    {
        self.name.as_str()
    }

    /// Returns whether the proxy requires TLS.
    pub fn require_tls(&self) -> (r: bool)
        ensures
            r == self@.require_tls,
    {
        self.require_tls
    }
}

/// One character lowered, ASCII letter by ASCII letter; any other
/// character stays itself.
pub open spec fn lower_char(c: char) -> char {
    if c == 'A' {
        'a'
    } else if c == 'B' {
        'b'
    } else if c == 'C' {
        'c'
    } else if c == 'D' {
        'd'
    } else if c == 'E' {
        'e'
    } else if c == 'F' {
        'f'
    } else if c == 'G' {
        'g'
    } else if c == 'H' {
        'h'
    } else if c == 'I' {
        'i'
    } else if c == 'J' {
        'j'
    } else if c == 'K' {
        'k'
    } else if c == 'L' {
        'l'
    } else if c == 'M' {
        'm'
    } else if c == 'N' {
        'n'
    } else if c == 'O' {
        'o'
    } else if c == 'P' {
        'p'
    } else if c == 'Q' {
        'q'
    } else if c == 'R' {
        'r'
    } else if c == 'S' {
        's'
    } else if c == 'T' {
        't'
    } else if c == 'U' {
        'u'
    } else if c == 'V' {
        'v'
    } else if c == 'W' {
        'w'
    } else if c == 'X' {
        'x'
    } else if c == 'Y' {
        'y'
    } else if c == 'Z' {
        'z'
    } else {
        c
    }
}

/// A character sequence lowered ASCII-wise.
pub open spec fn ascii_lower(s: Seq<char>) -> Seq<char> {
    s.map_values(|c: char| lower_char(c))
}

/// Lowers one character, ASCII-wise.
fn lower_char_exec(c: char) -> (r: char)
    ensures
        r == lower_char(c),
{
    match c {
        'A' => 'a',
        'B' => 'b',
        'C' => 'c',
        'D' => 'd',
        'E' => 'e',
        'F' => 'f',
        'G' => 'g',
        'H' => 'h',
        'I' => 'i',
        'J' => 'j',
        'K' => 'k',
        'L' => 'l',
        'M' => 'm',
        'N' => 'n',
        'O' => 'o',
        'P' => 'p',
        'Q' => 'q',
        'R' => 'r',
        'S' => 's',
        'T' => 't',
        'U' => 'u',
        'V' => 'v',
        'W' => 'w',
        'X' => 'x',
        'Y' => 'y',
        'Z' => 'z',
        _ => c,
    }
}

/// Compares a string slice, lowered ASCII-wise, against a lower-case
/// text.
fn eq_lowered(s: &str, lit: &str) -> (r: bool)
    ensures
        r == (ascii_lower(s@) == lit@),
{
    let s_len = s.unicode_len();
    let lit_len = lit.unicode_len();
    if s_len != lit_len {
        proof {
            assert(ascii_lower(s@).len() == s@.len());
        }
        return false;
    }
    let mut i: usize = 0;
    while i < s_len
        invariant
            i <= s_len,
            s_len == s@.len(),
            s_len == lit@.len(),
            forall|k: int| 0 <= k < i ==> lower_char(s@[k]) == lit@[k],
        decreases s_len - i,
    {
        let c = lower_char_exec(s.get_char(i));
        if c != lit.get_char(i) {
            proof {
                assert(ascii_lower(s@)[i as int] != lit@[i as int]);
            }
            return false;
        }
        i = i + 1;
    }
    proof {
        assert forall|k: int| 0 <= k < s@.len() implies #[trigger] ascii_lower(s@)[k]
            == lit@[k] by {
            assert(lower_char(s@[k]) == lit@[k]);
        }
        assert(ascii_lower(s@) =~= lit@);
    }
    true
}

/// Reads the boolean field of the proxy listing, whatever its casing.
pub open spec fn tls_value(s: Seq<char>) -> Option<bool> {
    if ascii_lower(s) == "true"@ {
        Some(true)
    } else if ascii_lower(s) == "false"@ {
        Some(false)
    } else {
        None
    }
}

/// The message of the error for a proxy listing line without its five
/// fields.
pub open spec fn bad_listing_message() -> Seq<char> {
    "The RDS Proxy listing could not be understood."@
}

/// The message of the error for a TLS field that is not a boolean.
pub open spec fn bad_tls_message() -> Seq<char> {
    "The RequireTLS field from the AWS CLI is not a boolean value."@
}

/// The proxies of the listing from line `i` on: each line five
/// tab-separated fields — name, endpoint, engine, the TLS flag, and a
/// status — and only lines whose status is `available` count.
pub open spec fn proxies_spec(lines: Seq<Seq<char>>, i: int) -> Result<Seq<ProxyModel>, Seq<char>>
    decreases lines.len() - i,
{
    if i < 0 || i >= lines.len() {
        Ok(Seq::empty())
    } else {
        let fields = split_sep(lines[i], '\t');
        if fields.len() != 5 {
            Err(bad_listing_message())
        } else if fields[4] != "available"@ {
            proxies_spec(lines, i + 1)
        } else {
            match tls_value(fields[3]) {
                Some(b) => match proxies_spec(lines, i + 1) {
                    Ok(rest) => Ok(
                        seq![
                            ProxyModel {
                                name: fields[0],
                                endpoint: fields[1],
                                engine: fields[2],
                                require_tls: b,
                            },
                        ] + rest,
                    ),
                    Err(m) => Err(m),
                },
                None => Err(bad_tls_message()),
            }
        }
    }
}

/// Reads the available proxies out of the tab-separated proxy listing,
/// exactly as [`proxies_spec`] lays it out; a line without its five
/// fields, or with a TLS flag that is not a boolean, is a status-1 error.
pub fn parse_proxies(output: &str) -> (r: Result<Vec<Proxy>, Error>)
    ensures
        match r {
            Ok(ps) => proxies_spec(split_sep(trimmed(output@), '\n'), 0) == Ok::<
                Seq<ProxyModel>,
                Seq<char>,
            >(ps@.map_values(|p: Proxy| p@)),
            Err(e) => e@.status == 1 && e@.context == Seq::<Seq<char>>::empty() && match
                proxies_spec(split_sep(trimmed(output@), '\n'), 0) {
                Err(m) => e@.message == Some(m),
                Ok(_) => false,
            },
        },
{
    let trimmed_output = str_trim(output);
    let lines = split_on(trimmed_output.as_str(), '\n');
    let ghost lview = lines@.map_values(|s: String| s@);
    let n = lines.len();
    let mut out: Vec<Proxy> = Vec::new();
    let mut i: usize = 0;
    proof {
        assert(out@.map_values(|p: Proxy| p@) =~= Seq::<ProxyModel>::empty());
    }
    while i < n
        invariant
            i <= n,
            n == lines.len(),
            lview == lines@.map_values(|s: String| s@),
            lview == split_sep(trimmed(output@), '\n'),
            match proxies_spec(lview, i as int) {
                Ok(rest) => proxies_spec(lview, 0) == Ok::<Seq<ProxyModel>, Seq<char>>(
                    out@.map_values(|p: Proxy| p@) + rest,
                ),
                Err(m) => proxies_spec(lview, 0) == Err::<Seq<ProxyModel>, Seq<char>>(m),
            },
        decreases n - i,
    {
        let fields = split_on(lines[i].as_str(), '\t');
        proof {
            assert(lview[i as int] == lines@[i as int]@);
            assert(fields@.map_values(|s: String| s@) == split_sep(lview[i as int], '\t'));
        }
        if fields.len() != 5 {
            proof {
                assert(proxies_spec(lview, i as int) == Err::<Seq<ProxyModel>, Seq<char>>(
                    bad_listing_message(),
                ));
                assert(proxies_spec(lview, 0) == Err::<Seq<ProxyModel>, Seq<char>>(
                    bad_listing_message(),
                ));
            }
            let m = String::from_str("The RDS Proxy listing could not be understood.");
            return Err(Error::new(1).with_message(m));
        }
        if str_eq(fields[4].as_str(), "available") {
            let require_tls: bool = if eq_lowered(fields[3].as_str(), "true") {
                true
            } else if eq_lowered(fields[3].as_str(), "false") {
                false
            } else {
                proof {
                    assert(tls_value(split_sep(lview[i as int], '\t')[3]) is None);
                    assert(proxies_spec(lview, i as int) == Err::<Seq<ProxyModel>, Seq<char>>(
                        bad_tls_message(),
                    ));
                    assert(proxies_spec(lview, 0) == Err::<Seq<ProxyModel>, Seq<char>>(
                        bad_tls_message(),
                    ));
                }
                let m = String::from_str(
                    "The RequireTLS field from the AWS CLI is not a boolean value.",
                );
                return Err(Error::new(1).with_message(m));
            };
            let ghost prev = out@.map_values(|p: Proxy| p@);
            out.push(
                Proxy {
                    name: fields[0].clone(),
                    endpoint: fields[1].clone(),
                    engine: fields[2].clone(),
                    require_tls,
                },
            );
            proof {
                let cur = out@.map_values(|p: Proxy| p@);
                assert(cur =~= prev.push(
                    ProxyModel {
                        name: split_sep(lview[i as int], '\t')[0],
                        endpoint: split_sep(lview[i as int], '\t')[1],
                        engine: split_sep(lview[i as int], '\t')[2],
                        require_tls,
                    },
                ));
                match proxies_spec(lview, i + 1) {
                    Ok(rest) => {
                        assert(prev + (seq![
                            ProxyModel {
                                name: split_sep(lview[i as int], '\t')[0],
                                endpoint: split_sep(lview[i as int], '\t')[1],
                                engine: split_sep(lview[i as int], '\t')[2],
                                require_tls,
                            },
                        ] + rest) =~= cur + rest);
                    },
                    Err(_) => {},
                }
            }
        }
        i = i + 1;
    }
    proof {
        assert(proxies_spec(lview, n as int) == Ok::<Seq<ProxyModel>, Seq<char>>(Seq::empty()));
        assert(out@.map_values(|p: Proxy| p@) + Seq::<ProxyModel>::empty() =~= out@.map_values(
            |p: Proxy| p@,
        ));
    }
    Ok(out)
}

/// Checks that a port was given where the engine needs one: every engine
/// family but the PostgreSQL one.
pub fn rds_port_requirement(engine: &str, port: &Option<String>) -> (r: Result<(), Error>)
    ensures
        match r {
            Ok(_) => engine@ == "POSTGRESQL"@ || port is Some,
            Err(e) => engine@ != "POSTGRESQL"@ && port is None && e@.status == 1 && e@.message
                == Some(
                "The database server port number is required for "@ + engine@ + " engines."@,
            ) && e@.context == Seq::<Seq<char>>::empty(),
        },
{
    if str_eq(engine, "POSTGRESQL") {
        return Ok(());
    }
    match port {
        Some(_) => Ok(()),
        None => {
            let mut m = String::from_str("The database server port number is required for ");
            m.append(engine);
            m.append(" engines.");
            Err(Error::new(1).with_message(m))
        },
    }
}

/// The port to hand the token generator: the given one, or the
/// PostgreSQL default.
pub fn port_or_default(port: &Option<String>) -> (r: String)
    ensures
        r@ == match port {
            Some(p) => p@,
            None => "5432"@,
        },
{
    match port {
        Some(p) => p.clone(),
        None => String::from_str("5432"),
    }
}

/// The AWS CLI arguments that generate a database access token for a
/// proxy endpoint.
pub fn rds_token_args(endpoint: &str, port: &str, username: &str) -> (r: Vec<String>)
    ensures
        r@.map_values(|s: String| s@) == seq![
            "rds"@,
            "generate-db-auth-token"@,
            "--hostname"@,
            endpoint@,
            "--port"@,
            port@,
            "--username"@,
            username@,
        ],
{
    let mut args: Vec<String> = Vec::new();
    args.push(String::from_str("rds"));
    args.push(String::from_str("generate-db-auth-token"));
    args.push(String::from_str("--hostname"));
    args.push(String::from_str(endpoint));
    args.push(String::from_str("--port"));
    args.push(String::from_str(port));
    args.push(String::from_str("--username"));
    args.push(String::from_str(username));
    proof {
        assert(args@.map_values(|s: String| s@) =~= seq![
            "rds"@,
            "generate-db-auth-token"@,
            "--hostname"@,
            endpoint@,
            "--port"@,
            port@,
            "--username"@,
            username@,
        ]);
    }
    args
}

/// What to do with existing local templates when remote ones arrive.
#[derive(Debug, PartialEq, Eq, Structural)]
pub enum Resolve {
    /// Keep the local templates and do nothing.
    Cancel,
    /// Fold the remote templates in, remote winning a shared name.
    Merge,
    /// Drop the local templates for the remote ones.
    Replace,
}

impl Resolve {
    /// Reads a resolution from its name; an unrecognized name is handed
    /// back as the error.
    pub fn parse(s: &str) -> (r: Result<Resolve, String>)
        ensures
            match r {
                Ok(v) => (s@ == "cancel"@ && v == Resolve::Cancel) || (s@ == "merge"@ && v
                    == Resolve::Merge) || (s@ == "replace"@ && v == Resolve::Replace),
                Err(m) => s@ != "cancel"@ && s@ != "merge"@ && s@ != "replace"@ && m@ == s@,
            },
    {
        if str_eq(s, "cancel") {
            Ok(Resolve::Cancel)
        } else if str_eq(s, "merge") {
            Ok(Resolve::Merge)
        } else if str_eq(s, "replace") {
            Ok(Resolve::Replace)
        } else {
            Err(String::from_str(s))
        }
    }

    /// The words offered for this choice in a selection list.
    pub fn label(&self) -> (r: String)
        ensures
            r@ == match self {
                Resolve::Cancel => "Cancel the download."@,
                Resolve::Merge => "Merge with the existing templates."@,
                Resolve::Replace => "Replace the existing templates."@,
            },
    {
        match self {
            Resolve::Cancel => String::from_str("Cancel the download."),
            Resolve::Merge => String::from_str("Merge with the existing templates."),
            Resolve::Replace => String::from_str("Replace the existing templates."),
        }
    }
}

/// What the shell subcommand should do.
#[derive(Debug, PartialEq, Eq, Structural)]
pub enum Action {
    /// Generate the startup initialization shell code.
    Init,
    /// Install the initialization into the shell profile's startup
    /// script.
    Install,
}

impl Action {
    /// Reads an action from its name; an unrecognized name is handed back
    /// as the error.
    pub fn parse(s: &str) -> (r: Result<Action, String>)
        ensures
            match r {
                Ok(v) => (s@ == "init"@ && v == Action::Init) || (s@ == "install"@ && v
                    == Action::Install),
                Err(m) => s@ != "init"@ && s@ != "install"@ && m@ == s@,
            },
    {
        if str_eq(s, "init") {
            Ok(Action::Init)
        } else if str_eq(s, "install") {
            Ok(Action::Install)
        } else {
            Err(String::from_str(s))
        }
    }
}

} // verus!
