//! The profile store, its validation, and the resolution of one request
//! configuration from a store, an environment and command-line overrides.

use crate::environment::{interpolate, text_result, EnvironmentResolver};
use crate::error::{AsteriskError, ErrorModel};
use crate::headers::{
    acceptable_value, assemble, assembled, bearer, headers_result, insert_entry,
    lemma_token_sets_authorization, listed_entries, optional_text, sendable,
    split_header_list, texts, value_of, HeaderCollection,
};
use crate::named::{distinct, find_name, lemma_position, names_of, position};
use crate::text::{find_char, from_chars, has_char, same_text, to_chars};
use vstd::prelude::*;
use vstd::string::*;

verus! {

/// One named environment as the configuration file holds it, with its
/// variable references unresolved.
#[derive(Clone, Debug)]
pub struct RawProfile {
    /// Base URL for requests.
    pub url: String,
    /// Bearer token.
    pub token: Option<String>,
    /// Headers, each as `key:value`.
    pub headers: Option<Vec<String>>,
    /// Whether output is verbose by default.
    pub verbose: Option<bool>,
}

/// The profiles of a store by name, in the order in which their names
/// were first inserted.
#[derive(Clone, Debug)]
pub struct ProfileMap {
    entries: Vec<(String, RawProfile)>,
}

impl ProfileMap {
    /// The profiles with their names, in order.
    pub closed spec fn entries(&self) -> Seq<(String, RawProfile)> {
        self.entries@
    }

    /// The names of the profiles, in order.
    pub open spec fn names(&self) -> Seq<Seq<char>> {
        names_of(self.entries())
    }

    /// The index of the profile called `name`, or the number of profiles
    /// where there is none.
    pub open spec fn index_of(&self, name: Seq<char>) -> int {
        position(self.names(), name, 0)
    }

    /// The map without a profile.
    pub fn new() -> (r: Self)
        ensures
            r.entries() == Seq::<(String, RawProfile)>::empty(),
    {
        ProfileMap { entries: Vec::new() }
    }

    /// The number of profiles.
    pub fn len(&self) -> (n: usize)
        ensures
            n == self.entries().len(),
    {
        self.entries.len()
    }

    /// Whether there is no profile.
    pub fn is_empty(&self) -> (r: bool)
        ensures
            r == (self.entries().len() == 0),
    {
        self.entries.len() == 0
    }

    /// Stores `profile` under `name`. A profile of that name is replaced
    /// where it stands; a new name comes last.
    pub fn insert(&mut self, name: String, profile: RawProfile)
        ensures
            final(self).entries() == if old(self).index_of(name@) < old(self).entries().len() {
                old(self).entries().update(old(self).index_of(name@), (name, profile))
            } else {
                old(self).entries().push((name, profile))
            },
            distinct(old(self).names()) ==> distinct(final(self).names()),
    {
        proof {
            lemma_position(self.names(), name@, 0);
        }
        let ghost before = self.entries@;
        let at = find_name(&self.entries, name.as_str());
        if at < self.entries.len() {
            self.entries.set(at, (name, profile));
            proof {
                assert(names_of(self.entries@) =~= names_of(before));
            }
        } else {
            self.entries.push((name, profile));
            proof {
                assert(names_of(self.entries@) =~= names_of(before).push(name@));
            }
        }
    }

    /// Whether a profile is called `name`.
    pub fn contains_key(&self, name: &str) -> (r: bool)
        ensures
            r == (self.index_of(name@) < self.entries().len()),
    {
        find_name(&self.entries, name) < self.entries.len()
    }

    /// The profile called `name`.
    pub fn get(&self, name: &str) -> (r: Option<&RawProfile>)
        ensures
            match r {
                Some(profile) => self.index_of(name@) < self.entries().len() && *profile
                    == self.entries()[self.index_of(name@)].1,
                None => self.index_of(name@) >= self.entries().len(),
            },
    {
        let at = find_name(&self.entries, name);
        if at < self.entries.len() {
            Some(&self.entries[at].1)
        } else {
            None
        }
    }

    /// The name of the profile at `index`.
    pub fn name_at(&self, index: usize) -> (r: &String)
        requires
            index < self.entries().len(),
        ensures
            *r == self.entries()[index as int].0,
    {
        &self.entries[index].0
    }

    /// The profile at `index`.
    pub fn profile_at(&self, index: usize) -> (r: &RawProfile)
        requires
            index < self.entries().len(),
        ensures
            *r == self.entries()[index as int].1,
    {
        &self.entries[index].1
    }
}

/// The contents of a configuration file.
#[derive(Clone, Debug)]
pub struct RawConfig {
    /// The profile used when none is selected.
    pub default_profile: Option<String>,
    /// The profiles by name.
    pub profiles: ProfileMap,
}

/// Whether a header entry has no `:`.
pub open spec fn lacks_colon(entry: Seq<char>) -> bool {
    find_char(entry, ':', 0) >= entry.len()
}

/// The first profile at or after `from` whose URL is empty, or the number
/// of profiles.
pub open spec fn first_empty_url(profiles: Seq<(String, RawProfile)>, from: int) -> int
    decreases profiles.len() - from,
{
    if 0 <= from < profiles.len() && profiles[from].1.url@.len() != 0 {
        first_empty_url(profiles, from + 1)
    } else {
        from
    }
}

/// The first entry at or after `from` that has no `:`, or the number of
/// entries.
pub open spec fn first_malformed(headers: Seq<String>, from: int) -> int
    decreases headers.len() - from,
{
    if 0 <= from < headers.len() && !lacks_colon(headers[from]@) {
        first_malformed(headers, from + 1)
    } else {
        from
    }
}

/// The header entries of a profile; none where it has no list.
pub open spec fn header_list(profile: RawProfile) -> Seq<String> {
    match profile.headers {
        Some(list) => list@,
        None => Seq::empty(),
    }
}

/// Whether all header entries of a profile have a `:`.
pub open spec fn headers_well_formed(profile: RawProfile) -> bool {
    first_malformed(header_list(profile), 0) >= header_list(profile).len()
}

/// The first profile at or after `from` with a header entry that has no
/// `:`, or the number of profiles.
pub open spec fn first_malformed_profile(profiles: Seq<(String, RawProfile)>, from: int) -> int
    decreases profiles.len() - from,
{
    if 0 <= from < profiles.len() && headers_well_formed(profiles[from].1) {
        first_malformed_profile(profiles, from + 1)
    } else {
        from
    }
}

/// What validation finds: the first rule that the store breaks, the rules
/// taken in order, and within a rule the profiles and their entries taken
/// in order.
pub open spec fn validation(config: &RawConfig) -> Result<(), ErrorModel> {
    let profiles = config.profiles.entries();
    let empty_url = first_empty_url(profiles, 0);
    let malformed = first_malformed_profile(profiles, 0);
    if profiles.len() == 0 {
        Err(ErrorModel::EmptyProfileSet)
    } else if config.default_profile matches Some(name) && config.profiles.index_of(name@)
        >= profiles.len() {
        Err(ErrorModel::UnknownDefaultProfile(config.default_profile->Some_0@))
    } else if empty_url < profiles.len() {
        Err(ErrorModel::EmptyProfileUrl(profiles[empty_url].0@))
    } else if malformed < profiles.len() {
        let list = header_list(profiles[malformed].1);
        Err(
            ErrorModel::MalformedHeaderEntry(
                Some(profiles[malformed].0@),
                list[first_malformed(list, 0)]@,
            ),
        )
    } else {
        Ok(())
    }
}

/// The model of a `Result` that carries nothing.
pub open spec fn unit_result(r: Result<(), AsteriskError>) -> Result<(), ErrorModel> {
    match r {
        Ok(()) => Ok(()),
        Err(e) => Err(e@),
    }
}

/// What one directory on the way up from the working directory holds.
#[derive(Clone, Copy, Debug)]
pub struct DirectoryProbe {
    /// Whether the configuration file is in the directory.
    pub has_config: bool,
    /// Whether the directory holds a version-control marker, which ends
    /// the search.
    pub has_marker: bool,
}

/// The first directory at or after `from` that ends the search: it holds
/// the configuration file or the marker. The number of directories where
/// none does.
pub open spec fn search_end(probes: Seq<DirectoryProbe>, from: int) -> int
    decreases probes.len() - from,
{
    if 0 <= from < probes.len() && !probes[from].has_config && !probes[from].has_marker {
        search_end(probes, from + 1)
    } else {
        from
    }
}

/// A resolved configuration, ready for a request.
#[derive(Clone, Debug)]
pub struct ResolvedConfig {
    /// Base URL for requests.
    pub url: String,
    /// Bearer token.
    pub token: Option<String>,
    /// The assembled headers.
    pub headers: HeaderCollection,
    /// Whether output is verbose.
    pub verbose: bool,
}

/// The mathematical value of a [`ResolvedConfig`].
pub ghost struct ResolvedModel {
    pub url: Seq<char>,
    pub token: Option<Seq<char>>,
    pub headers: Seq<(Seq<char>, Seq<char>)>,
    pub verbose: bool,
}

impl View for ResolvedConfig {
    type V = ResolvedModel;

    open spec fn view(&self) -> ResolvedModel {
        ResolvedModel {
            url: self.url@,
            token: optional_string(self.token),
            headers: self.headers@,
            verbose: self.verbose,
        }
    }
}

/// The text of an optional string.
pub open spec fn optional_string(o: Option<String>) -> Option<Seq<char>> {
    match o {
        Some(text) => Some(text@),
        None => None,
    }
}

/// The model of a `Result` that carries a resolved configuration.
pub open spec fn resolved_result(r: Result<ResolvedConfig, AsteriskError>) -> Result<
    ResolvedModel,
    ErrorModel,
> {
    match r {
        Ok(config) => Ok(config@),
        Err(e) => Err(e@),
    }
}

/// The name of the profile to use: the one selected, else the store's
/// default, else `dev`.
pub open spec fn selected_profile(config: &RawConfig, selected: Option<Seq<char>>) -> Seq<char> {
    match selected {
        Some(name) => name,
        None => match config.default_profile {
            Some(name) => name@,
            None => "dev"@,
        },
    }
}

/// The URL: the override as it is, else the profile's URL interpolated.
pub open spec fn resolved_url(
    profile: RawProfile,
    url: Option<Seq<char>>,
    cache: Map<Seq<char>, Seq<char>>,
    env: Map<Seq<char>, Seq<char>>,
) -> (Map<Seq<char>, Seq<char>>, Result<Seq<char>, ErrorModel>) {
    match url {
        Some(text) => (cache, Ok(text)),
        None => interpolate(profile.url@, cache, env),
    }
}

/// The token: the override as it is, else the profile's token
/// interpolated, else none.
pub open spec fn resolved_token(
    profile: RawProfile,
    token: Option<Seq<char>>,
    cache: Map<Seq<char>, Seq<char>>,
    env: Map<Seq<char>, Seq<char>>,
) -> (Map<Seq<char>, Seq<char>>, Result<Option<Seq<char>>, ErrorModel>) {
    match token {
        Some(text) => (cache, Ok(Some(text))),
        None => match profile.token {
            None => (cache, Ok(None)),
            Some(raw) => match interpolate(raw@, cache, env).1 {
                Ok(text) => (interpolate(raw@, cache, env).0, Ok(Some(text))),
                Err(e) => (interpolate(raw@, cache, env).0, Err(e)),
            },
        },
    }
}

/// The header strings of a profile from `from` on, interpolated in order
/// and put behind `done`, or the first failure; with the cache as it stands
/// then.
pub open spec fn interpolated_list(
    list: Seq<String>,
    from: int,
    done: Seq<Seq<char>>,
    cache: Map<Seq<char>, Seq<char>>,
    env: Map<Seq<char>, Seq<char>>,
) -> (Map<Seq<char>, Seq<char>>, Result<Seq<Seq<char>>, ErrorModel>)
    decreases list.len() - from,
{
    if from < 0 || from >= list.len() {
        (cache, Ok(done))
    } else {
        let (next_cache, text) = interpolate(list[from]@, cache, env);
        match text {
            Err(e) => (next_cache, Err(e)),
            Ok(entry) => interpolated_list(list, from + 1, done.push(entry), next_cache, env),
        }
    }
}

/// The headers of a profile: its header strings are interpolated, all of
/// them, and then assembled under the token.
pub open spec fn profile_headers(
    profile: RawProfile,
    token: Option<Seq<char>>,
    cache: Map<Seq<char>, Seq<char>>,
    env: Map<Seq<char>, Seq<char>>,
) -> (Map<Seq<char>, Seq<char>>, Result<Seq<(Seq<char>, Seq<char>)>, ErrorModel>) {
    let (next_cache, list) = interpolated_list(
        header_list(profile),
        0,
        Seq::empty(),
        cache,
        env,
    );
    match list {
        Err(e) => (next_cache, Err(e)),
        Ok(entries) => (next_cache, assembled(token, entries)),
    }
}

/// The headers: from the override list as it is where there is one, in
/// place of the profile's; else from the profile.
pub open spec fn resolved_headers(
    profile: RawProfile,
    headers: Option<Seq<char>>,
    token: Option<Seq<char>>,
    cache: Map<Seq<char>, Seq<char>>,
    env: Map<Seq<char>, Seq<char>>,
) -> (Map<Seq<char>, Seq<char>>, Result<Seq<(Seq<char>, Seq<char>)>, ErrorModel>) {
    match headers {
        Some(list) => (cache, assembled(token, listed_entries(list))),
        None => profile_headers(profile, token, cache, env),
    }
}

/// The configuration that a profile and the overrides resolve to: the URL
/// first, then the token, then the headers; verbose where either side says
/// so.
pub open spec fn profile_resolution(
    profile: RawProfile,
    url: Option<Seq<char>>,
    token: Option<Seq<char>>,
    headers: Option<Seq<char>>,
    verbose: bool,
    cache: Map<Seq<char>, Seq<char>>,
    env: Map<Seq<char>, Seq<char>>,
) -> (Map<Seq<char>, Seq<char>>, Result<ResolvedModel, ErrorModel>) {
    let (cache_1, the_url) = resolved_url(profile, url, cache, env);
    match the_url {
        Err(e) => (cache_1, Err(e)),
        Ok(final_url) => {
            let (cache_2, the_token) = resolved_token(profile, token, cache_1, env);
            match the_token {
                Err(e) => (cache_2, Err(e)),
                Ok(final_token) => {
                    let (cache_3, the_headers) = resolved_headers(
                        profile,
                        headers,
                        final_token,
                        cache_2,
                        env,
                    );
                    match the_headers {
                        Err(e) => (cache_3, Err(e)),
                        Ok(final_headers) => (
                            cache_3,
                            Ok(
                                ResolvedModel {
                                    url: final_url,
                                    token: final_token,
                                    headers: final_headers,
                                    verbose: verbose || profile.verbose == Some(true),
                                },
                            ),
                        ),
                    }
                },
            }
        },
    }
}

/// The configuration that the overrides alone resolve to, where there is
/// no store.
pub open spec fn default_resolution(
    url: Option<Seq<char>>,
    token: Option<Seq<char>>,
    headers: Option<Seq<char>>,
    verbose: bool,
) -> Result<ResolvedModel, ErrorModel> {
    let list = match headers {
        Some(text) => listed_entries(text),
        None => Seq::empty(),
    };
    match assembled(token, list) {
        Err(e) => Err(e),
        Ok(final_headers) => Ok(
            ResolvedModel {
                url: match url {
                    Some(text) => text,
                    None => "http://localhost:3000"@,
                },
                token: token,
                headers: final_headers,
                verbose: verbose,
            },
        ),
    }
}

/// The resolved configuration, with the cache as resolution leaves it.
/// Without a store the overrides and defaults decide. With one, the store
/// is validated first, then the profile is selected, then its fields are
/// resolved under the overrides.
pub open spec fn resolution(
    store: Option<&RawConfig>,
    selected: Option<Seq<char>>,
    url: Option<Seq<char>>,
    token: Option<Seq<char>>,
    headers: Option<Seq<char>>,
    verbose: bool,
    cache: Map<Seq<char>, Seq<char>>,
    env: Map<Seq<char>, Seq<char>>,
) -> (Map<Seq<char>, Seq<char>>, Result<ResolvedModel, ErrorModel>) {
    match store {
        None => (cache, default_resolution(url, token, headers, verbose)),
        Some(config) => match validation(config) {
            Err(e) => (cache, Err(e)),
            Ok(()) => {
                let name = selected_profile(config, selected);
                let at = config.profiles.index_of(name);
                if at >= config.profiles.entries().len() {
                    (cache, Err(ErrorModel::ProfileNotFound(name)))
                } else {
                    profile_resolution(
                        config.profiles.entries()[at].1,
                        url,
                        token,
                        headers,
                        verbose,
                        cache,
                        env,
                    )
                }
            },
        },
    }
}

/// The name of the configuration file.
pub const CONFIG_FILENAME: &'static str = "asterisk.config";

/// The contents of a new configuration file.
pub const DEFAULT_CONFIG_TEMPLATE: &'static str =
    "# Asterisk Configuration\n# Project-level configuration for API testing\n\n# Default profile to use when none specified\ndefault_profile = \"dev\"\n\n# Profile definitions\n[profiles.dev]\nurl = \"http://localhost:3000\"\n# token = \"$DEV_API_KEY\"  # Reference environment variable\n# headers = [\"X-Environment:development\"]\n\n[profiles.staging]\nurl = \"https://staging-api.example.com\"\n# token = \"$STAGING_API_KEY\"\n# headers = [\"X-Environment:staging\", \"X-Version:1.0\"]\n\n[profiles.production]\nurl = \"https://api.example.com\"\n# token = \"$PROD_API_KEY\"\n# headers = [\"X-Environment:production\", \"X-Version:1.0\"]\n";

/// A token as it is shown: its first and last four characters where it has
/// more than eight, else three stars.
pub open spec fn masked(token: Seq<char>) -> Seq<char> {
    if token.len() > 8 {
        token.subrange(0, 4) + "..."@ + token.subrange(token.len() - 4, token.len() as int)
    } else {
        "***"@
    }
}

/// Whether a header value can be shown: every character is a tab or a
/// visible ASCII character.
pub open spec fn printable(value: Seq<char>) -> bool {
    forall|i: int| 0 <= i < value.len() ==> printable_char(#[trigger] value[i])
}

/// Whether `c` is a tab or a visible ASCII character.
pub open spec fn printable_char(c: char) -> bool {
    c == '\t' || (' ' <= c && c < '\x7f')
}

/// The line that shows one header. The value of `authorization` is never
/// shown.
pub open spec fn header_line(entry: (Seq<char>, Seq<char>)) -> Seq<char> {
    if entry.0 == "authorization"@ {
        "  authorization: Bearer ***\n"@
    } else if printable(entry.1) {
        "  "@ + entry.0 + ": "@ + entry.1 + "\n"@
    } else {
        "  "@ + entry.0 + ": "@ + "***"@ + "\n"@
    }
}

/// The lines that show the headers from `from` on.
pub open spec fn header_lines(entries: Seq<(Seq<char>, Seq<char>)>, from: int) -> Seq<char>
    decreases entries.len() - from,
{
    if from < 0 || from >= entries.len() {
        Seq::empty()
    } else {
        header_line(entries[from]) + header_lines(entries, from + 1)
    }
}

/// The line that shows the token.
pub open spec fn token_line(token: Option<Seq<char>>) -> Seq<char> {
    match token {
        Some(text) => "Token: "@ + masked(text) + "\n"@,
        None => "Token: None\n"@,
    }
}

/// The line that shows the verbosity.
pub open spec fn verbose_line(verbose: bool) -> Seq<char> {
    if verbose {
        "Verbose: true\n"@
    } else {
        "Verbose: false\n"@
    }
}

/// The headers as they are shown: nothing where there are none.
pub open spec fn headers_block(entries: Seq<(Seq<char>, Seq<char>)>) -> Seq<char> {
    if entries.len() > 0 {
        "Headers:\n"@ + header_lines(entries, 0)
    } else {
        Seq::empty()
    }
}

/// A resolved configuration as it is shown.
pub open spec fn rendering(config: ResolvedModel) -> Seq<char> {
    "URL: "@ + config.url + "\n"@ + token_line(config.token) + verbose_line(config.verbose)
        + headers_block(config.headers)
}

/// What showing the current configuration gives: the rendering of what
/// resolution without overrides gives, or its failure.
pub open spec fn shown(r: Result<ResolvedModel, ErrorModel>) -> Result<Seq<char>, ErrorModel> {
    match r {
        Ok(config) => Ok(rendering(config)),
        Err(e) => Err(e),
    }
}

/// Masks a token for display.
pub fn mask_token(token: &str) -> (r: String)
    ensures
        r@ == masked(token@),
{
    let chars = to_chars(token);
    if chars.len() > 8 {
        let mut text = from_chars(&chars, 0, 4);
        text.append("...");
        let tail = from_chars(&chars, chars.len() - 4, chars.len());
        text.append(tail.as_str());
        text
    } else {
        String::from_str("***")
    }
}

/// Decides [`printable`].
pub fn is_printable(value: &str) -> (r: bool)
    ensures
        r == printable(value@),
{
    let chars = to_chars(value);
    let mut i: usize = 0;
    while i < chars.len()
        invariant
            chars@ == value@,
            i <= chars.len(),
            forall|k: int| 0 <= k < i ==> printable_char(#[trigger] chars@[k]),
        decreases chars.len() - i,
    {
        let c = chars[i];
        if !(c == '\t' || (' ' <= c && c < '\x7f')) {
            return false;
        }
        i += 1;
    }
    true
}

/// Renders a resolved configuration for display.
pub fn render_config(config: &ResolvedConfig) -> (r: String)
    ensures
        r@ == rendering(config@),
{
    let mut output = String::from_str("URL: ");
    output.append(config.url.as_str());
    output.append("\n");
    match &config.token {
        Some(token) => {
            let mut line = String::from_str("Token: ");
            line.append(mask_token(token.as_str()).as_str());
            line.append("\n");
            output.append(line.as_str());
        },
        None => {
            output.append("Token: None\n");
        },
    }
    if config.verbose {
        output.append("Verbose: true\n");
    } else {
        output.append("Verbose: false\n");
    }
    let n: usize = config.headers.len();
    if n > 0 {
        let mut block = String::from_str("Headers:\n");
        let mut i: usize = 0;
        while i < n
            invariant
                n == config.headers@.len(),
                i <= n,
                block@ + header_lines(config.headers@, i as int) == headers_block(
                    config.headers@,
                ),
            decreases n - i,
        {
            let name = config.headers.name_at(i);
            let value = config.headers.value_at(i);
            let mut line = String::new();
            if same_text(name, "authorization") {
                line.append("  authorization: Bearer ***\n");
            } else {
                line.append("  ");
                line.append(name);
                line.append(": ");
                if is_printable(value) {
                    line.append(value);
                } else {
                    line.append("***");
                }
                line.append("\n");
            }
            proof {
                assert(line@ =~= header_line(config.headers@[i as int]));
                assert((block@ + line@) + header_lines(config.headers@, i + 1) =~= block@ + (line@
                    + header_lines(config.headers@, i + 1)));
            }
            block.append(line.as_str());
            i += 1;
        }
        proof {
            assert(block@ + Seq::<char>::empty() =~= block@);
        }
        output.append(block.as_str());
    } else {
        proof {
            assert(output@ + Seq::<char>::empty() =~= output@);
        }
    }
    output
}

/// Loads, validates and resolves configurations.
pub struct ConfigManager {
    environment_resolver: EnvironmentResolver,
}

impl ConfigManager {
    /// The bindings that the manager's resolver has cached.
    pub closed spec fn cache(&self) -> Map<Seq<char>, Seq<char>> {
        self.environment_resolver.cache()
    }

    /// The environment as the manager's resolver sees it.
    pub closed spec fn environment(&self) -> Map<Seq<char>, Seq<char>> {
        self.environment_resolver.environment()
    }

    /// A manager with an empty cache and an empty environment.
    pub fn new() -> (r: Self)
        ensures
            r.cache() == Map::<Seq<char>, Seq<char>>::empty(),
            r.environment() == Map::<Seq<char>, Seq<char>>::empty(),
    {
        ConfigManager { environment_resolver: EnvironmentResolver::new() }
    }

    /// A manager with an empty cache over the given environment.
    pub fn with_environment(variables: Vec<(String, String)>) -> (r: Self)
        ensures
            r.cache() == Map::<Seq<char>, Seq<char>>::empty(),
            r.environment() == crate::environment::bindings_map(variables@),
    {
        ConfigManager { environment_resolver: EnvironmentResolver::with_environment(variables) }
    }

    /// Where the search for the configuration file ends. `probes` are the
    /// directories from the working directory up to the root. The result
    /// is the index of the first directory that holds the file, provided
    /// no directory before it holds the marker.
    pub fn find_config_file(&self, probes: &Vec<DirectoryProbe>) -> (r: Option<usize>)
        ensures
            match r {
                Some(at) => at == search_end(probes@, 0) && at < probes.len()
                    && probes[at as int].has_config,
                None => search_end(probes@, 0) >= probes.len() || !probes[search_end(
                    probes@,
                    0,
                )].has_config,
            },
    {
        let mut i: usize = 0;
        while i < probes.len()
            invariant
                i <= probes.len(),
                search_end(probes@, 0) == search_end(probes@, i as int),
            decreases probes.len() - i,
        {
            if probes[i].has_config {
                return Some(i);
            }
            if probes[i].has_marker {
                return None;
            }
            i += 1;
        }
        None
    }

    /// Checks the rules of a profile store and reports the first that is
    /// broken.
    #[verifier::loop_isolation(false)]
    pub fn validate_config(&self, config: &RawConfig) -> (r: Result<(), AsteriskError>)
        ensures
            unit_result(r) == validation(config),
    {
        let profiles = &config.profiles;
        if profiles.is_empty() {
            return Err(AsteriskError::EmptyProfileSet);
        }
        match &config.default_profile {
            Some(name) => {
                if !profiles.contains_key(name.as_str()) {
                    return Err(AsteriskError::UnknownDefaultProfile(name.clone()));
                }
            },
            None => {},
        }
        let n: usize = profiles.len();
        let mut i: usize = 0;
        while i < n
            invariant
                n == profiles.entries().len(),
                i <= n,
                first_empty_url(profiles.entries(), 0) == first_empty_url(
                    profiles.entries(),
                    i as int,
                ),
            decreases n - i,
        {
            if profiles.profile_at(i).url.as_str().is_empty() {
                return Err(AsteriskError::EmptyProfileUrl(profiles.name_at(i).clone()));
            }
            i += 1;
        }
        let mut i: usize = 0;
        while i < n
            invariant
                n == profiles.entries().len(),
                i <= n,
                first_empty_url(profiles.entries(), 0) >= n,
                first_malformed_profile(profiles.entries(), 0) == first_malformed_profile(
                    profiles.entries(),
                    i as int,
                ),
            decreases n - i,
        {
            let profile = profiles.profile_at(i);
            match &profile.headers {
                None => {},
                Some(list) => {
                    let mut j: usize = 0;
                    while j < list.len()
                        invariant
                            j <= list.len(),
                            list@ == header_list(*profile),
                            first_malformed(list@, 0) == first_malformed(list@, j as int),
                        decreases list.len() - j,
                    {
                        if !has_char(list[j].as_str(), ':') {
                            return Err(
                                AsteriskError::MalformedHeaderEntry(
                                    Some(profiles.name_at(i).clone()),
                                    list[j].clone(),
                                ),
                            );
                        }
                        j += 1;
                    }
                },
            }
            i += 1;
        }
        Ok(())
    }

    /// Inserts one `key:value` string into `headers`.
    pub fn parse_single_header(&self, header_str: &str, headers: &mut HeaderCollection) -> (r:
        Result<(), AsteriskError>)
        ensures
            match insert_entry(old(headers)@, header_str@) {
                Ok(next) => r is Ok && final(headers)@ == next,
                Err(e) => r matches Err(x) && x@ == e && final(headers)@ == old(headers)@,
            },
            sendable(old(headers)@) ==> sendable(final(headers)@),
    {
        crate::headers::parse_single_header(header_str, headers)
    }

    /// Assembles the headers of a `k:v,k2:v2` list under a token. The
    /// entries are taken as they are written.
    pub fn parse_headers_string(&self, headers_str: &str, token: Option<&str>) -> (r: Result<
        HeaderCollection,
        AsteriskError,
    >)
        ensures
            headers_result(r) == assembled(optional_text(token), listed_entries(headers_str@)),
            r matches Ok(headers) ==> sendable(headers@),
    {
        let list = split_header_list(headers_str);
        assemble(token, &list)
    }

    /// Assembles the headers of a profile under a token. The header
    /// strings are interpolated first, all of them, and then assembled.
    #[verifier::loop_isolation(false)]
    pub fn parse_profile_headers(&mut self, profile: &RawProfile, token: Option<&str>) -> (r:
        Result<HeaderCollection, AsteriskError>)
        ensures
            final(self).environment() == old(self).environment(),
            (final(self).cache(), headers_result(r)) == profile_headers(
                *profile,
                optional_text(token),
                old(self).cache(),
                old(self).environment(),
            ),
            r matches Ok(headers) ==> sendable(headers@),
    {
        let mut entries: Vec<String> = Vec::new();
        let ghost env = self.environment();
        let ghost goal = interpolated_list(
            header_list(*profile),
            0,
            Seq::empty(),
            self.cache(),
            env,
        );
        assert(texts(entries@) =~= Seq::<Seq<char>>::empty());
        match &profile.headers {
            None => {},
            Some(list) => {
                let mut i: usize = 0;
                while i < list.len()
                    invariant
                        i <= list.len(),
                        list@ == header_list(*profile),
                        self.environment() == env,
                        interpolated_list(list@, i as int, texts(entries@), self.cache(), env)
                            == goal,
                    decreases list.len() - i,
                {
                    let ghost before = texts(entries@);
                    match self.environment_resolver.resolve(list[i].as_str()) {
                        Err(e) => {
                            return Err(e);
                        },
                        Ok(entry) => {
                            entries.push(entry);
                            assert(texts(entries@) =~= before.push(entry@));
                        },
                    }
                    i += 1;
                }
            },
        }
        assemble(token, &entries)
    }

    /// Resolves the configuration of a request. `store` is the parsed
    /// configuration file, or `None` where there is no file.
    pub fn load_resolved_config(
        &mut self,
        store: Option<&RawConfig>,
        profile_override: Option<&str>,
        url_override: Option<&str>,
        token_override: Option<&str>,
        headers_override: Option<&str>,
        verbose_override: bool,
    ) -> (r: Result<ResolvedConfig, AsteriskError>)
        ensures
            final(self).environment() == old(self).environment(),
            (final(self).cache(), resolved_result(r)) == resolution(
                store,
                optional_text(profile_override),
                optional_text(url_override),
                optional_text(token_override),
                optional_text(headers_override),
                verbose_override,
                old(self).cache(),
                old(self).environment(),
            ),
            r matches Ok(config) ==> sendable(config.headers@),
    {
        let config = match store {
            Some(config) => config,
            None => {
                let list = match headers_override {
                    Some(text) => split_header_list(text),
                    None => Vec::new(),
                };
                assert(headers_override is None ==> texts(list@) =~= Seq::<
                    Seq<char>,
                >::empty());
                let headers = match assemble(token_override, &list) {
                    Err(e) => {
                        return Err(e);
                    },
                    Ok(headers) => headers,
                };
                let url = match url_override {
                    Some(text) => text.to_owned(),
                    None => String::from_str("http://localhost:3000"),
                };
                let token = match token_override {
                    Some(text) => Some(text.to_owned()),
                    None => None,
                };
                return Ok(ResolvedConfig { url, token, headers, verbose: verbose_override });
            },
        };
        match self.validate_config(config) {
            Err(e) => {
                return Err(e);
            },
            Ok(()) => {},
        }
        let name: &str = match profile_override {
            Some(name) => name,
            None => match &config.default_profile {
                Some(name) => name.as_str(),
                None => "dev",
            },
        };
        let profile = match config.profiles.get(name) {
            None => {
                return Err(AsteriskError::ProfileNotFound(name.to_owned()));
            },
            Some(profile) => profile,
        };
        let url = match url_override {
            Some(text) => text.to_owned(),
            None => match self.environment_resolver.resolve(profile.url.as_str()) {
                Err(e) => {
                    return Err(e);
                },
                Ok(text) => text,
            },
        };
        let token: Option<String> = match token_override {
            Some(text) => Some(text.to_owned()),
            None => match &profile.token {
                None => None,
                Some(raw) => match self.environment_resolver.resolve(raw.as_str()) {
                    Err(e) => {
                        return Err(e);
                    },
                    Ok(text) => Some(text),
                },
            },
        };
        let token_text: Option<&str> = match &token {
            Some(text) => Some(text.as_str()),
            None => None,
        };
        let assembled_headers = match headers_override {
            Some(list) => self.parse_headers_string(list, token_text),
            None => self.parse_profile_headers(profile, token_text),
        };
        let headers = match assembled_headers {
            Err(e) => {
                return Err(e);
            },
            Ok(headers) => headers,
        };
        let verbose = verbose_override || match profile.verbose {
            Some(flag) => flag,
            None => false,
        };
        Ok(ResolvedConfig { url, token, headers, verbose })
    }

    /// The contents that a new configuration file is given.
    pub fn create_default_config(&self) -> (r: String)
        ensures
            r@ == DEFAULT_CONFIG_TEMPLATE@,
    {
        String::from_str(DEFAULT_CONFIG_TEMPLATE)
    }

    /// The current configuration as it is shown: what `store` resolves to
    /// for `profile` without any other override, with the token masked.
    pub fn format_current_config(&mut self, store: Option<&RawConfig>, profile: Option<&str>) -> (r:
        Result<String, AsteriskError>)
        ensures
            final(self).environment() == old(self).environment(),
            (final(self).cache(), text_result(r)) == (
                resolution(
                    store,
                    optional_text(profile),
                    None,
                    None,
                    None,
                    false,
                    old(self).cache(),
                    old(self).environment(),
                ).0,
                shown(
                    resolution(
                        store,
                        optional_text(profile),
                        None,
                        None,
                        None,
                        false,
                        old(self).cache(),
                        old(self).environment(),
                    ).1,
                ),
            ),
    {
        match self.load_resolved_config(store, profile, None, None, None, false) {
            Err(e) => Err(e),
            Ok(config) => Ok(render_config(&config)),
        }
    }
}

impl Default for ConfigManager {
    fn default() -> (r: Self)
        ensures
            r.cache() == Map::<Seq<char>, Seq<char>>::empty(),
            r.environment() == Map::<Seq<char>, Seq<char>>::empty(),
    {
        ConfigManager::new()
    }
}

/// What `first_malformed` finds lies within the list and has no `:`.
pub proof fn lemma_first_malformed_found(headers: Seq<String>, from: int)
    requires
        0 <= from <= headers.len(),
    ensures
        from <= first_malformed(headers, from) <= headers.len(),
        first_malformed(headers, from) < headers.len() ==> lacks_colon(
            headers[first_malformed(headers, from)]@,
        ),
    decreases headers.len() - from,
{
    if from < headers.len() && !lacks_colon(headers[from]@) {
        lemma_first_malformed_found(headers, from + 1);
    }
}

/// An entry without `:` at `at` bounds the first such entry.
pub proof fn lemma_first_malformed(headers: Seq<String>, from: int, at: int)
    requires
        0 <= from <= at < headers.len(),
        lacks_colon(headers[at]@),
    ensures
        from <= first_malformed(headers, from) <= at,
        lacks_colon(headers[first_malformed(headers, from)]@),
    decreases at - from,
{
    if from < at && !lacks_colon(headers[from]@) {
        lemma_first_malformed(headers, from + 1, at);
    }
}

/// A profile with a malformed entry at `at` bounds the first such profile.
pub proof fn lemma_first_malformed_profile(
    profiles: Seq<(String, RawProfile)>,
    from: int,
    at: int,
)
    requires
        0 <= from <= at < profiles.len(),
        !headers_well_formed(profiles[at].1),
    ensures
        from <= first_malformed_profile(profiles, from) <= at,
        !headers_well_formed(profiles[first_malformed_profile(profiles, from)].1),
    decreases at - from,
{
    if from < at && headers_well_formed(profiles[from].1) {
        lemma_first_malformed_profile(profiles, from + 1, at);
    }
}

/// A header entry without `:` in any profile makes validation fail; where
/// the store breaks none of the rules that are checked before, it fails
/// with `MalformedHeaderEntry`, naming an entry that has no `:`.
pub proof fn lemma_malformed_entry_fails_validation(config: &RawConfig, profile: int, entry: int)
    requires
        0 <= profile < config.profiles.entries().len(),
        0 <= entry < header_list(config.profiles.entries()[profile].1).len(),
        lacks_colon(header_list(config.profiles.entries()[profile].1)[entry]@),
    ensures
        validation(config) is Err,
        validation(config) matches Err(e) && (e is EmptyProfileSet || e is UnknownDefaultProfile
            || e is EmptyProfileUrl || (e matches ErrorModel::MalformedHeaderEntry(
            Some(_),
            raw,
        ) && lacks_colon(raw))),
{
    let profiles = config.profiles.entries();
    lemma_first_malformed(header_list(profiles[profile].1), 0, entry);
    lemma_first_malformed_profile(profiles, 0, profile);
    let first = first_malformed_profile(profiles, 0);
    let list = header_list(profiles[first].1);
    lemma_first_malformed_found(list, 0);
}

/// A store that fails validation is never interpolated: resolution fails
/// as validation does and leaves the cache as it was.
pub proof fn lemma_invalid_store_is_not_interpolated(
    config: &RawConfig,
    selected: Option<Seq<char>>,
    url: Option<Seq<char>>,
    token: Option<Seq<char>>,
    headers: Option<Seq<char>>,
    verbose: bool,
    cache: Map<Seq<char>, Seq<char>>,
    env: Map<Seq<char>, Seq<char>>,
)
    requires
        validation(config) is Err,
    ensures
        resolution(Some(config), selected, url, token, headers, verbose, cache, env) == (
            cache,
            Err::<ResolvedModel, ErrorModel>(validation(config)->Err_0),
        ),
{
}

/// Without a selected profile the store's default profile is resolved, and
/// `dev` where the store names none.
pub proof fn lemma_default_profile_is_selected(
    config: &RawConfig,
    url: Option<Seq<char>>,
    token: Option<Seq<char>>,
    headers: Option<Seq<char>>,
    verbose: bool,
    cache: Map<Seq<char>, Seq<char>>,
    env: Map<Seq<char>, Seq<char>>,
)
    ensures
        resolution(Some(config), None, url, token, headers, verbose, cache, env) == resolution(
            Some(config),
            Some(selected_profile(config, None)),
            url,
            token,
            headers,
            verbose,
            cache,
            env,
        ),
        selected_profile(config, None) == match config.default_profile {
            Some(name) => name@,
            None => "dev"@,
        },
{
}

/// A token override is the token of the resolved configuration, and the
/// configuration then has an `authorization` header, whatever the store
/// holds.
pub proof fn lemma_token_override_gives_authorization(
    store: Option<&RawConfig>,
    selected: Option<Seq<char>>,
    url: Option<Seq<char>>,
    token: Seq<char>,
    headers: Option<Seq<char>>,
    verbose: bool,
    cache: Map<Seq<char>, Seq<char>>,
    env: Map<Seq<char>, Seq<char>>,
)
    requires
        resolution(store, selected, url, Some(token), headers, verbose, cache, env).1 is Ok,
    ensures
        resolution(store, selected, url, Some(token), headers, verbose, cache, env).1 matches Ok(
            config,
        ) && config.token == Some(token) && value_of(config.headers, "authorization"@) is Some,
{
    match store {
        None => {
            let list = match headers {
                Some(text) => listed_entries(text),
                None => Seq::empty(),
            };
            lemma_token_sets_authorization(token, list);
        },
        Some(config) => {
            let name = selected_profile(config, selected);
            let profile = config.profiles.entries()[config.profiles.index_of(name)].1;
            let cache_1 = resolved_url(profile, url, cache, env).0;
            match headers {
                Some(text) => {
                    lemma_token_sets_authorization(token, listed_entries(text));
                },
                None => {
                    let cache_2 = resolved_token(profile, Some(token), cache_1, env).0;
                    let list = interpolated_list(
                        header_list(profile),
                        0,
                        Seq::empty(),
                        cache_2,
                        env,
                    ).1;
                    lemma_token_sets_authorization(token, list->Ok_0);
                },
            }
        },
    }
}

/// Without a store, and without a header list, a URL and a token resolve
/// to themselves, with the token's `authorization` header as the only
/// header and the cache left as it was.
pub proof fn lemma_overrides_alone(
    selected: Option<Seq<char>>,
    url: Seq<char>,
    token: Seq<char>,
    verbose: bool,
    cache: Map<Seq<char>, Seq<char>>,
    env: Map<Seq<char>, Seq<char>>,
)
    requires
        acceptable_value(bearer(token)),
    ensures
        resolution(None, selected, Some(url), Some(token), None, verbose, cache, env) == (
            cache,
            Ok::<ResolvedModel, ErrorModel>(
                ResolvedModel {
                    url: url,
                    token: Some(token),
                    headers: seq![("authorization"@, bearer(token))],
                    verbose: verbose,
                },
            ),
        ),
{
}

} // verus!
