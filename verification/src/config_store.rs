//! The configuration store: one default configuration, the custom
//! configurations in discovery order, and the extra match-contributing
//! paths of a degraded single-file load.
//!
//! Loading works on plain data: the caller enumerates the configuration
//! directory and parses each document, and hands the listing here. The
//! store logic — picking the default file, classifying candidates,
//! collecting non-fatal errors, resolving the active configuration — is
//! all in this module.

use crate::config::{AppProperties, Config, ConfigDoc, config_like, configs_like, spec_resolve};
use crate::strutil::{seq_eq_ci, str_eq, str_eq_ci};
use vstd::prelude::*;
use vstd::string::*;

verus! {

/// A fatal store-construction failure.
#[derive(Debug)]
pub enum ConfigStoreError {
    /// The configuration directory does not exist or is not a directory.
    InvalidConfigDir,
    /// No `default.yml` or `default.yaml` file was found.
    MissingDefault,
    /// The default file was found but could not be loaded; carries the
    /// cause.
    InvalidDefault(String),
    /// A filesystem read failed during enumeration; carries the cause.
    IOError(String),
}

impl ConfigStoreError {
    /// A fixed description of the error kind.
    pub fn kind_message(&self) -> (r: &'static str)
        ensures
            r@ == (match self {
                ConfigStoreError::InvalidConfigDir => "invalid config directory"@,
                ConfigStoreError::MissingDefault => "missing default.yml config file"@,
                ConfigStoreError::InvalidDefault(_) => "unable to load default config"@,
                ConfigStoreError::IOError(_) => "io error"@,
            }),
    {
        match self {
            ConfigStoreError::InvalidConfigDir => "invalid config directory",
            ConfigStoreError::MissingDefault => "missing default.yml config file",
            ConfigStoreError::InvalidDefault(_) => "unable to load default config",
            ConfigStoreError::IOError(_) => "io error",
        }
    }
}

/// A per-file, non-fatal load failure: the offending file and the cause.
#[derive(Debug)]
pub struct NonFatalErrorSet {
    pub file: String,
    pub error: String,
}

/// One entry of the configuration directory listing, with the parse
/// outcome of its document.
pub struct ConfigFileEntry {
    pub file_name: String,
    pub is_file: bool,
    pub doc: Result<ConfigDoc, String>,
}

/// The first entry that is a file with exactly the given name.
pub open spec fn find_file_named(entries: Seq<ConfigFileEntry>, name: Seq<char>) -> Option<int>
    decreases entries.len(),
{
    if entries.len() == 0 {
        None
    } else if entries[0].is_file && entries[0].file_name@ == name {
        Some(0int)
    } else {
        match find_file_named(entries.drop_first(), name) {
            Some(i) => Some(i + 1),
            None => None,
        }
    }
}

/// The index of the default file: `default.yml` wins over `default.yaml`.
pub open spec fn spec_default_index(entries: Seq<ConfigFileEntry>) -> Option<int> {
    match find_file_named(entries, "default.yml"@) {
        Some(i) => Some(i),
        None => find_file_named(entries, "default.yaml"@),
    }
}

/// The index of the last `.` of `s`, if any.
pub open spec fn last_dot_index(s: Seq<char>) -> Option<int>
    decreases s.len(),
{
    if s.len() == 0 {
        None
    } else if s.last() == '.' {
        Some(s.len() - 1)
    } else {
        last_dot_index(s.drop_last())
    }
}

/// The extension of a file name: what follows the last `.`, empty when
/// there is none.
pub open spec fn extension_of(s: Seq<char>) -> Seq<char> {
    match last_dot_index(s) {
        Some(i) => s.skip(i + 1),
        None => Seq::empty(),
    }
}

/// Does the file name carry one of the accepted configuration extensions,
/// compared ASCII-case-insensitively?
pub open spec fn has_yaml_extension(s: Seq<char>) -> bool {
    seq_eq_ci(extension_of(s), "yml"@) || seq_eq_ci(extension_of(s), "yaml"@)
}

/// Is the entry at index `idx` a custom-configuration candidate, given the
/// default file sits at `di`?
pub open spec fn is_candidate(entries: Seq<ConfigFileEntry>, idx: int, di: int) -> bool {
    &&& entries[idx].is_file
    &&& idx != di
    &&& has_yaml_extension(entries[idx].file_name@)
}

/// The custom configurations loaded from the first `upto` entries, in
/// order: the candidates whose document parsed, resolved over the default.
pub open spec fn spec_customs(
    entries: Seq<ConfigFileEntry>,
    upto: int,
    di: int,
    base: Config,
) -> Seq<Config>
    decreases upto,
{
    if upto <= 0 {
        Seq::empty()
    } else {
        let prefix = spec_customs(entries, upto - 1, di, base);
        if is_candidate(entries, upto - 1, di) {
            match entries[upto - 1].doc {
                Ok(doc) => prefix.push(spec_resolve(doc, Some(base))),
                Err(_) => prefix,
            }
        } else {
            prefix
        }
    }
}

/// The non-fatal errors collected from the first `upto` entries, in
/// order: the candidates whose document failed to parse.
pub open spec fn spec_errors(entries: Seq<ConfigFileEntry>, upto: int, di: int) -> Seq<
    NonFatalErrorSet,
>
    decreases upto,
{
    if upto <= 0 {
        Seq::empty()
    } else {
        let prefix = spec_errors(entries, upto - 1, di);
        if is_candidate(entries, upto - 1, di) {
            match entries[upto - 1].doc {
                Ok(_) => prefix,
                Err(e) => prefix.push(
                    NonFatalErrorSet { file: entries[upto - 1].file_name, error: e },
                ),
            }
        } else {
            prefix
        }
    }
}

/// A scan that found no earlier file of this name and a match (or the end)
/// at `i` agrees with `find_file_named`.
proof fn lemma_find_file_from_scan(entries: Seq<ConfigFileEntry>, name: Seq<char>, i: int)
    requires
        0 <= i <= entries.len(),
        forall|j: int|
            0 <= j < i ==> !((#[trigger] entries[j]).is_file && entries[j].file_name@ == name),
        i == entries.len() || (entries[i].is_file && entries[i].file_name@ == name),
    ensures
        find_file_named(entries, name) == (if i == entries.len() {
            Option::<int>::None
        } else {
            Option::<int>::Some(i)
        }),
    decreases entries.len(),
{
    if entries.len() == 0 {
    } else if entries[0].is_file && entries[0].file_name@ == name {
        assert(i == 0);
    } else {
        assert(i >= 1);
        let rest = entries.drop_first();
        assert(forall|j: int|
            0 <= j < i - 1 ==> !((#[trigger] rest[j]).is_file && rest[j].file_name@ == name))
            by {
            assert(forall|j: int| 0 <= j < i - 1 ==> rest[j] == entries[j + 1]);
        }
        assert(i - 1 == rest.len() || (rest[i - 1].is_file && rest[i - 1].file_name@ == name));
        lemma_find_file_from_scan(rest, name, i - 1);
    }
}

/// Find the first entry that is a file with exactly the given name.
fn find_file(entries: &Vec<ConfigFileEntry>, name: &str) -> (r: Option<usize>)
    ensures
        find_file_named(entries@, name@) == (match r {
            Some(i) => Some(i as int),
            None => None,
        }),
        r matches Some(i) ==> i < entries@.len(),
{
    let n = entries.len();
    let mut i: usize = 0;
    while i < n
        invariant
            0 <= i <= n,
            n == entries@.len(),
            forall|j: int|
                0 <= j < i ==> !((#[trigger] entries@[j]).is_file && entries@[j].file_name@
                    == name@),
        decreases n - i,
    {
        if entries[i].is_file && str_eq(entries[i].file_name.as_str(), name) {
            proof {
                lemma_find_file_from_scan(entries@, name@, i as int);
            }
            return Some(i);
        }
        i += 1;
    }
    proof {
        lemma_find_file_from_scan(entries@, name@, n as int);
    }
    None
}

/// A scan from the end that finds the last `.` agrees with
/// `last_dot_index`.
proof fn lemma_last_dot_from_scan(s: Seq<char>, d: int)
    requires
        -1 <= d < s.len(),
        d >= 0 ==> s[d] == '.',
        forall|k: int| d < k < s.len() ==> s[k] != '.',
    ensures
        last_dot_index(s) == (if d >= 0 {
            Option::<int>::Some(d)
        } else {
            Option::<int>::None
        }),
    decreases s.len(),
{
    if s.len() == 0 {
    } else if s.last() == '.' {
        assert(d == s.len() - 1);
    } else {
        assert(d < s.len() - 1);
        lemma_last_dot_from_scan(s.drop_last(), d);
    }
}

/// Does the file name carry an accepted configuration extension?
fn has_yaml_ext(name: &str) -> (r: bool)
    ensures
        r == has_yaml_extension(name@),
{
    let n = name.unicode_len();
    let mut j: usize = n;
    while j > 0 && name.get_char(j - 1) != '.'
        invariant
            0 <= j <= n,
            n == name@.len(),
            forall|k: int| j <= k < n ==> name@[k] != '.',
        decreases j,
    {
        j -= 1;
    }
    if j == 0 {
        proof {
            lemma_last_dot_from_scan(name@, -1);
            assert(extension_of(name@) == Seq::<char>::empty());
            assert(!seq_eq_ci(Seq::<char>::empty(), "yml"@)) by {
                reveal_strlit("yml");
            }
            assert(!seq_eq_ci(Seq::<char>::empty(), "yaml"@)) by {
                reveal_strlit("yaml");
            }
        }
        false
    } else {
        proof {
            lemma_last_dot_from_scan(name@, j - 1);
        }
        let ext = name.substring_char(j, n);
        proof {
            assert(ext@ =~= extension_of(name@));
        }
        str_eq_ci(ext, "yml") || str_eq_ci(ext, "yaml")
    }
}

/// The store of loaded configurations: the default, the customs in
/// discovery order, and the extra match-contributing paths.
pub struct DefaultConfigStore {
    default: Config,
    customs: Vec<Config>,
    extra_matches: Vec<String>,
}

/// Does the sequence hold a string whose characters are `p`?
pub open spec fn holds_string(v: Seq<String>, p: Seq<char>) -> bool {
    exists|i: int| #![trigger v[i]] 0 <= i < v.len() && v[i]@ == p
}

/// The first custom, in order, whose predicate accepts the application.
pub open spec fn first_matching(customs: Seq<Config>, app: AppProperties) -> Option<int>
    decreases customs.len(),
{
    if customs.len() == 0 {
        None
    } else if customs[0].matches(app) {
        Some(0int)
    } else {
        match first_matching(customs.drop_first(), app) {
            Some(i) => Some(i + 1),
            None => None,
        }
    }
}

/// `first_matching` returns the least matching index, and `None` exactly
/// when no custom matches: first-match-wins with load order as tie-break.
pub proof fn lemma_first_matching_least(customs: Seq<Config>, app: AppProperties)
    ensures
        match first_matching(customs, app) {
            Some(i) => 0 <= i < customs.len() && customs[i].matches(app) && forall|j: int|
                0 <= j < i ==> !(#[trigger] customs[j]).matches(app),
            None => forall|j: int|
                0 <= j < customs.len() ==> !(#[trigger] customs[j]).matches(app),
        },
    decreases customs.len(),
{
    if customs.len() == 0 {
    } else if customs[0].matches(app) {
    } else {
        let rest = customs.drop_first();
        lemma_first_matching_least(rest, app);
        assert(forall|j: int| 0 <= j < rest.len() ==> rest[j] == customs[j + 1]);
        match first_matching(rest, app) {
            Some(ri) => {
                assert forall|j: int| 0 <= j < ri + 1 implies !(#[trigger] customs[j]).matches(
                    app,
                ) by {
                    if j > 0 {
                        assert(rest[j - 1] == customs[j]);
                        assert(!rest[j - 1].matches(app));
                    }
                }
            },
            None => {
                assert forall|j: int| 0 <= j < customs.len() implies !(
                #[trigger] customs[j]).matches(app) by {
                    if j > 0 {
                        assert(rest[j - 1] == customs[j]);
                        assert(!rest[j - 1].matches(app));
                    }
                }
            },
        }
    }
}

impl DefaultConfigStore {
    /// The default configuration.
    pub closed spec fn default_config(&self) -> Config {
        self.default
    }

    /// The custom configurations, in load order.
    pub closed spec fn customs(&self) -> Seq<Config> {
        self.customs@
    }

    /// The extra match-contributing paths, as character sequences.
    pub closed spec fn extras(&self) -> Seq<String> {
        self.extra_matches@
    }

    /// The extra paths hold no duplicates.
    pub closed spec fn wf(&self) -> bool {
        forall|i: int, j: int|
            0 <= i < j < self.extra_matches@.len() ==> self.extra_matches@[i]@
                != self.extra_matches@[j]@
    }

    /// A path contributes matches to this store: it is an extra path or a
    /// match path of the default or of some custom.
    pub open spec fn contributes_path(&self, p: Seq<char>) -> bool {
        ||| holds_string(self.extras(), p)
        ||| holds_string(self.default_config().match_paths@, p)
        ||| exists|c: int| #![trigger self.customs()[c]]
            0 <= c < self.customs().len() && holds_string(self.customs()[c].match_paths@, p)
    }

    /// A store built directly from a default and customs, with no extra
    /// paths; the form tests and embedders use.
    pub fn new(default: Config, customs: Vec<Config>) -> (r: Self)
        ensures
            r.wf(),
            r.default_config() == default,
            r.customs() == customs@,
            r.extras() == Seq::<String>::empty(),
    {
        DefaultConfigStore { default, customs, extra_matches: Vec::new() }
    }

    /// The default configuration.
    pub fn default(&self) -> (r: &Config)
        ensures
            *r == self.default_config(),
    {
        &self.default
    }

    /// The active configuration for the given application: the first
    /// custom, in load order, whose predicate accepts it, else the
    /// default.
    pub fn active(&self, app: &AppProperties) -> (r: &Config)
        ensures
            match first_matching(self.customs(), *app) {
                Some(i) => *r == self.customs()[i],
                None => *r == self.default_config(),
            },
    {
        let n = self.customs.len();
        let mut i: usize = 0;
        while i < n
            invariant
                0 <= i <= n,
                n == self.customs@.len(),
                forall|j: int| 0 <= j < i ==> !(#[trigger] self.customs@[j]).matches(*app),
            decreases n - i,
        {
            if self.customs[i].is_match(app) {
                proof {
                    lemma_first_matching_least(self.customs@, *app);
                }
                return &self.customs[i];
            }
            i += 1;
        }
        proof {
            lemma_first_matching_least(self.customs@, *app);
        }
        &self.default
    }

    /// The default followed by all customs, in load order.
    pub fn configs(&self) -> (r: Vec<&Config>)
        ensures
            r@.len() == 1 + self.customs().len(),
            *r@[0] == self.default_config(),
            forall|i: int| 0 <= i < self.customs().len() ==> *r@[i + 1] == self.customs()[i],
    {
        let mut out: Vec<&Config> = Vec::new();
        out.push(&self.default);
        let n = self.customs.len();
        let mut i: usize = 0;
        while i < n
            invariant
                0 <= i <= n,
                n == self.customs@.len(),
                out@.len() == 1 + i,
                *out@[0] == self.default,
                forall|j: int| 0 <= j < i ==> *out@[j + 1] == self.customs@[j],
            decreases n - i,
        {
            out.push(&self.customs[i]);
            i += 1;
        }
        out
    }

    /// The union, without duplicates, of the extra paths, the default's
    /// match paths and every custom's match paths.
    pub fn get_all_match_paths(&self) -> (r: Vec<String>)
        requires
            self.wf(),
        ensures
            forall|i: int, j: int| 0 <= i < j < r@.len() ==> r@[i]@ != r@[j]@,
            forall|i: int| #![trigger r@[i]] 0 <= i < r@.len() ==> self.contributes_path(r@[i]@),
            forall|p: Seq<char>| #[trigger] self.contributes_path(p) ==> holds_string(r@, p),
    {
        let mut out: Vec<String> = Vec::new();
        extend_unique(&mut out, &self.extra_matches);
        proof {
            assert(forall|p: Seq<char>| holds_string(out@, p) <==> holds_string(
                self.extra_matches@,
                p,
            ) || holds_string(Seq::<String>::empty(), p));
            assert(forall|p: Seq<char>| !holds_string(Seq::<String>::empty(), p));
        }
        extend_unique(&mut out, &self.default.match_paths);
        let n = self.customs.len();
        let mut c: usize = 0;
        while c < n
            invariant
                0 <= c <= n,
                n == self.customs@.len(),
                self.wf(),
                forall|i: int, j: int| 0 <= i < j < out@.len() ==> out@[i]@ != out@[j]@,
                forall|p: Seq<char>|
                    #[trigger] holds_string(out@, p) <==> (holds_string(self.extra_matches@, p)
                        || holds_string(self.default.match_paths@, p) || exists|k: int|
                        #![trigger self.customs@[k]]
                        0 <= k < c && holds_string(self.customs@[k].match_paths@, p)),
            decreases n - c,
        {
            let ghost before = out@;
            extend_unique(&mut out, &self.customs[c].match_paths);
            proof {
                assert forall|p: Seq<char>|
                    #[trigger] holds_string(out@, p) implies (holds_string(
                    self.extra_matches@,
                    p,
                ) || holds_string(self.default.match_paths@, p) || exists|k: int|
                    #![trigger self.customs@[k]]
                    0 <= k < c + 1 && holds_string(self.customs@[k].match_paths@, p)) by {
                    if holds_string(before, p) {
                    } else {
                        assert(holds_string(self.customs@[c as int].match_paths@, p));
                    }
                }
                assert forall|p: Seq<char>|
                    (holds_string(self.extra_matches@, p) || holds_string(
                        self.default.match_paths@,
                        p,
                    ) || exists|k: int|
                        #![trigger self.customs@[k]]
                        0 <= k < c + 1 && holds_string(self.customs@[k].match_paths@, p))
                        implies #[trigger] holds_string(out@, p) by {
                    if holds_string(self.extra_matches@, p) || holds_string(
                        self.default.match_paths@,
                        p,
                    ) {
                        assert(holds_string(before, p));
                    } else {
                        let k = choose|k: int|
                            #![trigger self.customs@[k]]
                            0 <= k < c + 1 && holds_string(self.customs@[k].match_paths@, p);
                        if k < c {
                            assert(holds_string(before, p));
                        }
                    }
                }
            }
            c += 1;
        }
        proof {
            assert forall|i: int| #![trigger out@[i]] 0 <= i < out@.len()
                implies self.contributes_path(out@[i]@) by {
                assert(holds_string(out@, out@[i]@));
            }
            assert forall|p: Seq<char>| #[trigger] self.contributes_path(p)
                implies holds_string(out@, p) by {
                if exists|k: int| #![trigger self.customs@[k]]
                    0 <= k < self.customs@.len() && holds_string(
                    self.customs@[k].match_paths@,
                    p,
                ) {
                }
            }
        }
        out
    }

    /// Build a store from a directory listing with parsed documents.
    ///
    /// The first `default.yml` file wins, then the first `default.yaml`;
    /// without either the load fails with `MissingDefault`, and a default
    /// whose document failed to parse is fatal too. Every other file with
    /// an accepted extension is loaded best-effort: parse failures are
    /// collected as non-fatal errors and do not abort the sibling loads.
    pub fn load(entries: Vec<ConfigFileEntry>) -> (r: Result<
        (Self, Vec<NonFatalErrorSet>),
        ConfigStoreError,
    >)
        ensures
            match r {
                Ok((store, errs)) => match spec_default_index(entries@) {
                    Some(di) => match entries@[di].doc {
                        Ok(doc) => {
                            &&& store.wf()
                            &&& config_like(store.default_config(), spec_resolve(doc, None))
                            &&& configs_like(
                                store.customs(),
                                spec_customs(
                                    entries@,
                                    entries@.len() as int,
                                    di,
                                    store.default_config(),
                                ),
                            )
                            &&& store.extras() == Seq::<String>::empty()
                            &&& errs@ == spec_errors(entries@, entries@.len() as int, di)
                        },
                        Err(_) => false,
                    },
                    None => false,
                },
                Err(e) => match e {
                    ConfigStoreError::MissingDefault => spec_default_index(entries@) is None,
                    ConfigStoreError::InvalidDefault(msg) => match spec_default_index(entries@) {
                        Some(di) => entries@[di].doc matches Err(m) && msg@ == m@,
                        None => false,
                    },
                    _ => false,
                },
            },
    {
        let di = match find_file(&entries, "default.yml") {
            Some(i) => i,
            None => match find_file(&entries, "default.yaml") {
                Some(i) => i,
                None => {
                    return Err(ConfigStoreError::MissingDefault);
                },
            },
        };
        let ghost dig = di as int;

        let n = entries.len();
        let mut customs: Vec<Config> = Vec::new();
        let mut non_fatal_errors: Vec<NonFatalErrorSet> = Vec::new();

        // Resolve the default first; its failure is fatal.
        let default = match &entries[di].doc {
            Ok(doc) => {
                let doc_copy = ConfigDoc {
                    label: doc.label.clone(),
                    filter_title: clone_opt(&doc.filter_title),
                    filter_class: clone_opt(&doc.filter_class),
                    filter_exec: clone_opt(&doc.filter_exec),
                    match_paths: clone_strings(&doc.match_paths),
                };
                proof {
                    let orig = entries@[dig].doc->Ok_0;
                    assert(doc_copy.label == orig.label && doc_copy.filter_title
                        == orig.filter_title && doc_copy.filter_class == orig.filter_class
                        && doc_copy.filter_exec == orig.filter_exec && doc_copy.match_paths@
                        == orig.match_paths@);
                }
                Config::resolve(doc_copy, None)
            },
            Err(e) => {
                return Err(ConfigStoreError::InvalidDefault(e.clone()));
            },
        };
        let ghost base = default;

        proof {
            assert(config_like(base, spec_resolve(entries@[dig].doc->Ok_0, None)));
        }
        let mut i: usize = 0;
        while i < n
            invariant
                0 <= i <= n,
                n == entries@.len(),
                0 <= dig < n,
                dig == di as int,
                base == default,
                entries@[dig].doc is Ok,
                configs_like(customs@, spec_customs(entries@, i as int, dig, base)),
                non_fatal_errors@ == spec_errors(entries@, i as int, dig),
            decreases n - i,
        {
            let entry = &entries[i];
            if entry.is_file && i != di && has_yaml_ext(entry.file_name.as_str()) {
                match &entry.doc {
                    Ok(doc) => {
                        let doc_copy = ConfigDoc {
                            label: doc.label.clone(),
                            filter_title: clone_opt(&doc.filter_title),
                            filter_class: clone_opt(&doc.filter_class),
                            filter_exec: clone_opt(&doc.filter_exec),
                            match_paths: clone_strings(&doc.match_paths),
                        };
                        let ghost prev = customs@;
                        let cfg = Config::resolve(doc_copy, Some(&default));
                        proof {
                            let orig = entries@[i as int].doc->Ok_0;
                            assert(doc_copy.label == orig.label && doc_copy.filter_title
                                == orig.filter_title && doc_copy.filter_class
                                == orig.filter_class && doc_copy.filter_exec
                                == orig.filter_exec && doc_copy.match_paths@
                                == orig.match_paths@);
                            assert(config_like(cfg, spec_resolve(orig, Some(base))));
                        }
                        customs.push(cfg);
                        proof {
                            let target = spec_customs(entries@, i + 1, dig, base);
                            assert(is_candidate(entries@, i as int, dig));
                            assert(target == spec_customs(entries@, i as int, dig, base).push(
                                spec_resolve(entries@[i as int].doc->Ok_0, Some(base))));
                            assert(configs_like(customs@, target)) by {
                                assert(forall|k: int| 0 <= k < prev.len() ==> customs@[k]
                                    == prev[k]);
                                assert(customs@[prev.len() as int] == cfg);
                            }
                        }
                    },
                    Err(e) => {
                        non_fatal_errors.push(
                            NonFatalErrorSet {
                                file: entry.file_name.clone(),
                                error: e.clone(),
                            },
                        );
                        proof {
                            assert(is_candidate(entries@, i as int, dig));
                            assert(non_fatal_errors@ =~= spec_errors(
                                entries@,
                                i + 1,
                                dig,
                            ));
                        }
                    },
                }
            } else {
                proof {
                    assert(!is_candidate(entries@, i as int, dig));
                    assert(configs_like(customs@, spec_customs(entries@, i + 1, dig, base)));
                    assert(non_fatal_errors@ == spec_errors(entries@, i + 1, dig));
                }
            }
            i += 1;
        }

        Ok((
            DefaultConfigStore { default, customs, extra_matches: Vec::new() },
            non_fatal_errors,
        ))
    }

    /// Build a degraded store from a single file: its document becomes the
    /// default, there are no customs, and the path itself is recorded as
    /// an extra match-contributing path. Here a parse failure is fatal:
    /// there is no fallback default.
    pub fn load_from_single_file(path: String, doc: Result<ConfigDoc, String>) -> (r: Result<
        (Self, Vec<NonFatalErrorSet>),
        ConfigStoreError,
    >)
        ensures
            match r {
                Ok((store, errs)) => match doc {
                    Ok(d) => {
                        let base = spec_resolve(d, None);
                        &&& store.wf()
                        &&& store.default_config().label == base.label
                        &&& store.default_config().filter_title == base.filter_title
                        &&& store.default_config().filter_class == base.filter_class
                        &&& store.default_config().filter_exec == base.filter_exec
                        &&& store.default_config().match_paths@ == base.match_paths@.push(path)
                        &&& store.customs() == Seq::<Config>::empty()
                        &&& store.extras().len() == 1 && store.extras()[0]@ == path@
                        &&& errs@ == Seq::<NonFatalErrorSet>::empty()
                    },
                    Err(_) => false,
                },
                Err(e) => doc is Err && e is MissingDefault,
            },
    {
        match doc {
            Ok(d) => {
                let mut default = Config::resolve(d, None);
                default.add_match_path(path.clone());
                let mut extra_matches: Vec<String> = Vec::new();
                extra_matches.push(path);
                Ok((
                    DefaultConfigStore { default, customs: Vec::new(), extra_matches },
                    Vec::new(),
                ))
            },
            Err(_) => {
                // No fallback default exists, so the failure is fatal.
                Err(ConfigStoreError::MissingDefault)
            },
        }
    }
}

/// Clone an optional string.
fn clone_opt(v: &Option<String>) -> (r: Option<String>)
    ensures
        r == *v,
{
    match v {
        Some(s) => Some(s.clone()),
        None => None,
    }
}

/// Clone a vector of strings.
fn clone_strings(v: &Vec<String>) -> (r: Vec<String>)
    ensures
        r@ == v@,
{
    let mut out: Vec<String> = Vec::new();
    let n = v.len();
    let mut i: usize = 0;
    while i < n
        invariant
            0 <= i <= n,
            n == v@.len(),
            out@ =~= v@.subrange(0, i as int),
        decreases n - i,
    {
        out.push(v[i].clone());
        i += 1;
    }
    proof {
        assert(out@ =~= v@);
    }
    out
}

/// Append `s` unless a string with the same characters is already there.
fn push_unique(out: &mut Vec<String>, s: &String)
    requires
        forall|i: int, j: int| 0 <= i < j < old(out)@.len() ==> old(out)@[i]@ != old(out)@[j]@,
    ensures
        forall|i: int, j: int| 0 <= i < j < final(out)@.len() ==> final(out)@[i]@
            != final(out)@[j]@,
        forall|p: Seq<char>|
            #[trigger] holds_string(final(out)@, p) <==> holds_string(old(out)@, p) || p == s@,
{
    let n = out.len();
    let mut i: usize = 0;
    while i < n
        invariant
            0 <= i <= n,
            n == out@.len(),
            out@ == old(out)@,
            forall|a: int, b: int| 0 <= a < b < old(out)@.len() ==> old(out)@[a]@
                != old(out)@[b]@,
            forall|j: int| 0 <= j < i ==> out@[j]@ != s@,
        decreases n - i,
    {
        if str_eq(out[i].as_str(), s.as_str()) {
            proof {
                assert(holds_string(out@, s@)) by {
                    assert(out@[i as int]@ == s@);
                }
                assert forall|a: int, b: int| 0 <= a < b < out@.len() implies out@[a]@
                    != out@[b]@ by {
                    assert(out@[a]@ == old(out)@[a]@);
                    assert(out@[b]@ == old(out)@[b]@);
                }
            }
            return;
        }
        i += 1;
    }
    let ghost before = out@;
    out.push(s.clone());
    proof {
        assert(out@[before.len() as int]@ == s@);
        assert(forall|j: int| 0 <= j < before.len() ==> out@[j] == before[j]);
        assert forall|p: Seq<char>|
            #[trigger] holds_string(out@, p) implies holds_string(before, p) || p == s@ by {
            let k = choose|k: int| #![trigger out@[k]] 0 <= k < out@.len() && out@[k]@ == p;
            if k < before.len() {
                assert(before[k]@ == p);
            }
        }
        assert forall|p: Seq<char>|
            holds_string(before, p) || p == s@ implies #[trigger] holds_string(out@, p) by {
            if holds_string(before, p) {
                let k = choose|k: int| #![trigger before[k]] 0 <= k < before.len() && before[k]@
                    == p;
                assert(out@[k]@ == p);
            }
        }
    }
}

/// Append every string of `src` that is not already there.
fn extend_unique(out: &mut Vec<String>, src: &Vec<String>)
    requires
        forall|i: int, j: int| 0 <= i < j < old(out)@.len() ==> old(out)@[i]@ != old(out)@[j]@,
    ensures
        forall|i: int, j: int| 0 <= i < j < final(out)@.len() ==> final(out)@[i]@
            != final(out)@[j]@,
        forall|p: Seq<char>|
            #[trigger] holds_string(final(out)@, p) <==> holds_string(old(out)@, p)
                || holds_string(src@, p),
{
    let n = src.len();
    let mut i: usize = 0;
    while i < n
        invariant
            0 <= i <= n,
            n == src@.len(),
            forall|a: int, b: int| 0 <= a < b < out@.len() ==> out@[a]@ != out@[b]@,
            forall|p: Seq<char>|
                #[trigger] holds_string(out@, p) <==> holds_string(old(out)@, p) || holds_string(
                    src@.subrange(0, i as int),
                    p,
                ),
        decreases n - i,
    {
        let ghost before = out@;
        push_unique(out, &src[i]);
        proof {
            assert forall|p: Seq<char>|
                #[trigger] holds_string(out@, p) <==> holds_string(old(out)@, p)
                    || holds_string(src@.subrange(0, i + 1), p) by {
                assert(holds_string(out@, p) <==> holds_string(before, p) || p
                    == src@[i as int]@);
                if holds_string(src@.subrange(0, i + 1), p) {
                    let k = choose|k: int|
                        #![trigger src@.subrange(0, i + 1)[k]]
                        0 <= k < i + 1 && src@.subrange(0, i + 1)[k]@ == p;
                    if k < i {
                        assert(src@.subrange(0, i as int)[k]@ == p);
                    } else {
                        assert(src@[i as int]@ == p);
                    }
                }
                if holds_string(src@.subrange(0, i as int), p) {
                    let k = choose|k: int|
                        #![trigger src@.subrange(0, i as int)[k]]
                        0 <= k < i && src@.subrange(0, i as int)[k]@ == p;
                    assert(src@.subrange(0, i + 1)[k]@ == p);
                }
                if p == src@[i as int]@ {
                    assert(src@.subrange(0, i + 1)[i as int]@ == p);
                }
            }
        }
        i += 1;
    }
    proof {
        assert(src@.subrange(0, n as int) =~= src@);
    }
}

} // verus!
