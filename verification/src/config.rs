//! A single configuration: a label, a match predicate over the focused
//! application's properties, and the match-contributing file paths.
//!
//! The predicate is data: up to one substring filter per application
//! property. A set filter matches only when the property is present and
//! contains the filter text; a property the system could not supply never
//! matches a set filter. A configuration with no filters matches every
//! application, which lets callers model an unconditional configuration;
//! the default configuration is never consulted through its predicate.

use crate::strutil::{contains_seq, contains_sub};
use vstd::prelude::*;

verus! {

/// Identifying attributes of the currently focused application. `None`
/// means the system could not supply the field.
pub struct AppProperties {
    pub title: Option<String>,
    pub class: Option<String>,
    pub exec_path: Option<String>,
}

/// A configuration document as parsed from one file, before inheritance
/// has been applied. The label is supplied by the loader (an explicit
/// label or the file's stem); a filter left `None` is unset and inherits.
pub struct ConfigDoc {
    pub label: String,
    pub filter_title: Option<String>,
    pub filter_class: Option<String>,
    pub filter_exec: Option<String>,
    pub match_paths: Vec<String>,
}

/// A loaded configuration.
pub struct Config {
    pub label: String,
    pub filter_title: Option<String>,
    pub filter_class: Option<String>,
    pub filter_exec: Option<String>,
    pub match_paths: Vec<String>,
}

/// Does the optional filter accept the optional property? An unset filter
/// accepts everything; a set filter needs the property present and
/// containing the filter text.
pub open spec fn opt_filter_matches(filter: Option<String>, prop: Option<String>) -> bool {
    match filter {
        None => true,
        Some(f) => match prop {
            None => false,
            Some(v) => contains_seq(v@, f@),
        },
    }
}

fn opt_filter_check(filter: &Option<String>, prop: &Option<String>) -> (r: bool)
    ensures
        r == opt_filter_matches(*filter, *prop),
{
    match filter {
        None => true,
        Some(f) => match prop {
            None => false,
            Some(v) => contains_sub(v.as_str(), f.as_str()),
        },
    }
}

/// The field-by-field inheritance of one document over an optional base:
/// an unset filter takes the base's filter; label and match paths are the
/// document's own.
pub open spec fn spec_resolve(doc: ConfigDoc, base: Option<Config>) -> Config {
    Config {
        label: doc.label,
        filter_title: match doc.filter_title {
            Some(f) => Some(f),
            None => match base {
                Some(b) => b.filter_title,
                None => None,
            },
        },
        filter_class: match doc.filter_class {
            Some(f) => Some(f),
            None => match base {
                Some(b) => b.filter_class,
                None => None,
            },
        },
        filter_exec: match doc.filter_exec {
            Some(f) => Some(f),
            None => match base {
                Some(b) => b.filter_exec,
                None => None,
            },
        },
        match_paths: doc.match_paths,
    }
}

/// Equality of two configurations up to the representation of the path
/// vector: every field agrees, with the match paths compared by contents.
pub open spec fn config_like(a: Config, b: Config) -> bool {
    &&& a.label == b.label
    &&& a.filter_title == b.filter_title
    &&& a.filter_class == b.filter_class
    &&& a.filter_exec == b.filter_exec
    &&& a.match_paths@ == b.match_paths@
}

/// Pointwise `config_like` over two sequences of configurations.
pub open spec fn configs_like(a: Seq<Config>, b: Seq<Config>) -> bool {
    a.len() == b.len() && forall|i: int| 0 <= i < a.len() ==> config_like(
        #[trigger] a[i],
        b[i],
    )
}

impl Config {
    /// The predicate of this configuration: every set filter accepts its
    /// property.
    pub open spec fn matches(&self, app: AppProperties) -> bool {
        &&& opt_filter_matches(self.filter_title, app.title)
        &&& opt_filter_matches(self.filter_class, app.class)
        &&& opt_filter_matches(self.filter_exec, app.exec_path)
    }

    /// A configuration with an explicit label and filters, and no match
    /// paths; the form tests and embedders build directly.
    pub fn new(
        label: String,
        filter_title: Option<String>,
        filter_class: Option<String>,
        filter_exec: Option<String>,
    ) -> (r: Config)
        ensures
            r.label == label,
            r.filter_title == filter_title,
            r.filter_class == filter_class,
            r.filter_exec == filter_exec,
            r.match_paths@ == Seq::<String>::empty(),
    {
        Config { label, filter_title, filter_class, filter_exec, match_paths: Vec::new() }
    }

    /// Build a configuration from a parsed document, inheriting unset
    /// filters from the base when one is given.
    pub fn resolve(doc: ConfigDoc, base: Option<&Config>) -> (r: Config)
        ensures
            r == spec_resolve(
                doc,
                match base {
                    Some(b) => Some(*b),
                    None => None,
                },
            ),
    {
        let filter_title = match doc.filter_title {
            Some(f) => Some(f),
            None => match base {
                Some(b) => match &b.filter_title {
                    Some(f) => Some(f.clone()),
                    None => None,
                },
                None => None,
            },
        };
        let filter_class = match doc.filter_class {
            Some(f) => Some(f),
            None => match base {
                Some(b) => match &b.filter_class {
                    Some(f) => Some(f.clone()),
                    None => None,
                },
                None => None,
            },
        };
        let filter_exec = match doc.filter_exec {
            Some(f) => Some(f),
            None => match base {
                Some(b) => match &b.filter_exec {
                    Some(f) => Some(f.clone()),
                    None => None,
                },
                None => None,
            },
        };
        Config {
            label: doc.label,
            filter_title,
            filter_class,
            filter_exec,
            match_paths: doc.match_paths,
        }
    }

    /// The human-readable label.
    pub fn label(&self) -> (r: &str)
        ensures
            r@ == self.label@,
    {
        self.label.as_str()
    }

    /// Does this configuration's predicate accept the application?
    pub fn is_match(&self, app: &AppProperties) -> (r: bool)
        ensures
            r == self.matches(*app),
    {
        let title_ok = opt_filter_check(&self.filter_title, &app.title);
        let class_ok = opt_filter_check(&self.filter_class, &app.class);
        let exec_ok = opt_filter_check(&self.filter_exec, &app.exec_path);
        title_ok && class_ok && exec_ok
    }

    /// Record one more match-contributing path.
    pub fn add_match_path(&mut self, path: String)
        ensures
            final(self).label == old(self).label,
            final(self).filter_title == old(self).filter_title,
            final(self).filter_class == old(self).filter_class,
            final(self).filter_exec == old(self).filter_exec,
            final(self).match_paths@ == old(self).match_paths@.push(path),
    {
        self.match_paths.push(path);
    }
}

} // verus!
