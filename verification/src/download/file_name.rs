//! Under which name a file is saved.

use vstd::prelude::*;
use crate::utils::file_utils::{normalize_filename, TargetOs};
#[allow(unused_imports)]
use crate::utils::file_utils::normalized;
use crate::utils::urls::filename_from_url;
#[allow(unused_imports)]
use crate::utils::urls::spec_filename_from_url;

verus! {

/// The names that a file could be saved under.
#[derive(Debug)]
pub struct FileName {
    pub plugin_hint: Option<String>,
    pub server_name: Option<String>,
    pub url_hint: Option<String>,
}

/// The candidates as text.
pub struct NameModel {
    pub plugin_hint: Option<Seq<char>>,
    pub server_name: Option<Seq<char>>,
    pub url_hint: Option<Seq<char>>,
}

/// The text of a string that may be missing.
pub open spec fn text_of(s: Option<String>) -> Option<Seq<char>> {
    match s {
        Some(t) => Some(t@),
        None => None,
    }
}

/// A candidate as it is kept: made a valid name, and dropped if nothing is left.
pub open spec fn candidate(target: TargetOs, name: Option<Seq<char>>) -> Option<Seq<char>> {
    match name {
        Some(s) => if normalized(target, s).len() == 0 {
            None
        } else {
            Some(normalized(target, s))
        },
        None => None,
    }
}

/// The candidates that a URL and a plugin's suggestion give.
pub open spec fn spec_file_name(
    target: TargetOs,
    url: Seq<char>,
    plugin_hint: Option<Seq<char>>,
) -> NameModel {
    NameModel {
        plugin_hint: candidate(target, plugin_hint),
        server_name: None,
        url_hint: candidate(target, spec_filename_from_url(url)),
    }
}

/// The name that wins: the plugin's, else the server's, else the URL's, else a
/// plain one.
pub open spec fn chosen_name(n: NameModel) -> Seq<char> {
    match n.plugin_hint {
        Some(s) => s,
        None => match n.server_name {
            Some(s) => s,
            None => match n.url_hint {
                Some(s) => s,
                None => "download"@,
            },
        },
    }
}

impl View for FileName {
    type V = NameModel;

    open spec fn view(&self) -> NameModel {
        NameModel {
            plugin_hint: text_of(self.plugin_hint),
            server_name: text_of(self.server_name),
            url_hint: text_of(self.url_hint),
        }
    }
}

fn keep_candidate(name: Option<String>, target: TargetOs) -> (r: Option<String>)
    ensures
        text_of(r) == candidate(target, text_of(name)),
{
    match name {
        Some(s) => {
            let clean = normalize_filename(s.as_str(), target);
            if clean.as_str().is_empty() {
                None
            } else {
                Some(clean)
            }
        },
        None => None,
    }
}

impl FileName {
    /// The candidates that a URL and a plugin's suggestion give. All are made valid
    /// names; what is empty then is no candidate.
    pub fn new(url: &str, plugin_hint: Option<String>, target: TargetOs) -> (r: Self)
        ensures
            r@ == spec_file_name(target, url@, text_of(plugin_hint)),
    {
        let suggested = filename_from_url(url);
        let url_hint = keep_candidate(suggested, target);
        let plugin_hint = keep_candidate(plugin_hint, target);
        FileName { plugin_hint, server_name: None, url_hint }
    }

    /// Takes the name that a server gave, or forgets it.
    pub fn set_server_name(&mut self, name: Option<String>, target: TargetOs)
        ensures
            final(self)@ == (NameModel {
                server_name: candidate(target, text_of(name)),
                ..old(self)@
            }),
    {
        self.server_name = keep_candidate(name, target);
    }

    /// The name under which the file is saved.
    pub fn as_str(&self) -> (r: &str)
        ensures
            r@ == chosen_name(self@),
    {
        match &self.plugin_hint {
            Some(s) => s.as_str(),
            None => match &self.server_name {
                Some(s) => s.as_str(),
                None => match &self.url_hint {
                    Some(s) => s.as_str(),
                    None => "download",
                },
            },
        }
    }

    /// The plugin's suggestion.
    pub fn plugin_hint(&self) -> (r: Option<&str>)
        ensures
            match r {
                Some(s) => self@.plugin_hint == Some(s@),
                None => self@.plugin_hint.is_none(),
            },
    {
        match &self.plugin_hint {
            Some(s) => Some(s.as_str()),
            None => None,
        }
    }

    /// The server's name for the file.
    pub fn server_name(&self) -> (r: Option<&str>)
        ensures
            match r {
                Some(s) => self@.server_name == Some(s@),
                None => self@.server_name.is_none(),
            },
    {
        match &self.server_name {
            Some(s) => Some(s.as_str()),
            None => None,
        }
    }

    /// The name that the URL suggests.
    pub fn url_hint(&self) -> (r: Option<&str>)
        ensures
            match r {
                Some(s) => self@.url_hint == Some(s@),
                None => self@.url_hint.is_none(),
            },
    {
        match &self.url_hint {
            Some(s) => Some(s.as_str()),
            None => None,
        }
    }

    /// The same names once more.
    pub fn duplicate(&self) -> (r: Self)
        ensures
            r@ == self@,
    {
        FileName {
            plugin_hint: clone_text(&self.plugin_hint),
            server_name: clone_text(&self.server_name),
            url_hint: clone_text(&self.url_hint),
        }
    }
}

/// The same text once more.
pub fn clone_text(s: &Option<String>) -> (r: Option<String>)
    ensures
        text_of(r) == text_of(*s),
{
    match s {
        Some(t) => Some(t.clone()),
        None => None,
    }
}

/// Whether every candidate is one that would be kept as it is.
pub open spec fn names_are_kept(target: TargetOs, n: NameModel) -> bool {
    &&& candidate(target, n.plugin_hint) == n.plugin_hint
    &&& candidate(target, n.server_name) == n.server_name
    &&& candidate(target, n.url_hint) == n.url_hint
}

/// The names that a file starts with, and those it has once a server named it,
/// are kept as they are, and the name it is saved under is never empty.
pub proof fn law_file_names_are_kept(
    target: TargetOs,
    url: Seq<char>,
    plugin_hint: Option<Seq<char>>,
    server_name: Option<Seq<char>>,
)
    ensures
        names_are_kept(target, spec_file_name(target, url, plugin_hint)),
        names_are_kept(
            target,
            (NameModel {
                server_name: candidate(target, server_name),
                ..spec_file_name(target, url, plugin_hint)
            }),
        ),
        chosen_name(spec_file_name(target, url, plugin_hint)).len() > 0,
{
    reveal_strlit("download");
    lemma_candidate_is_kept(target, plugin_hint);
    lemma_candidate_is_kept(target, server_name);
    lemma_candidate_is_kept(target, spec_filename_from_url(url));
}

proof fn lemma_candidate_is_kept(target: TargetOs, name: Option<Seq<char>>)
    ensures
        candidate(target, candidate(target, name)) == candidate(target, name),
{
    match name {
        Some(s) => {
            crate::utils::file_utils::law_normalize_is_idempotent(target, s);
        },
        None => {},
    }
}

/// A server's name is used only where the plugin suggested none.
pub proof fn law_plugin_name_wins(n: NameModel, server: Option<Seq<char>>)
    ensures
        n.plugin_hint.is_some() ==> chosen_name((NameModel { server_name: server, ..n }))
            == chosen_name(n),
        n.plugin_hint.is_none() && server.is_some() ==> Some(
            chosen_name((NameModel { server_name: server, ..n })),
        ) == server,
{
}

} // verus!
