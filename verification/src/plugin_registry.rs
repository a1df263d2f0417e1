//! Which plugin is asked about a URL, and which worker runs it.

use std::collections::HashSet;

use vstd::prelude::*;
use vstd::string::StrSliceExecFns;
use crate::plugin_patterns::{check_pattern, find_pattern, to_regex};
#[allow(unused_imports)]
use crate::plugin_patterns::{host_text, is_pattern, pattern_found, url_pattern};
#[allow(unused_imports)]
use crate::utils::file_utils::byte_len;
use crate::utils::text::{chars_of, string_of, text_eq};
use crate::utils::urls::{to_url, url_host, url_path, Host};
#[allow(unused_imports)]
use crate::utils::urls::{
    completed_url, host_of_url, host_view, lacks_scheme, path_of_url, HostModel,
};

verus! {

broadcast use vstd::std_specs::hash::group_hash_axioms;

/// So many workers run plugins.
pub const WORKERS: usize = 6;

/// A plugin that runs for more milliseconds than this is stopped.
pub const PLUGIN_TIMEOUT: u64 = 5000;

/// The number of a plugin.
#[derive(Debug, Clone, Copy, PartialEq, Eq, Structural)]
pub struct PluginId(pub usize);

/// A pattern, and how much of a URL it speaks of.
pub struct Support {
    pub pattern: String,
    pub score: usize,
}

/// A plugin that can be asked.
pub struct RegistryEntry {
    pub plugin_path: String,
    pub plugin_name: String,
    pub supports: Vec<Support>,
    pub excludes: Vec<String>,
    pub priority: i32,
}

/// A plugin that can be asked, in mathematical values.
#[verifier::ext_equal]
pub struct EntryModel {
    pub path: Seq<char>,
    pub name: Seq<char>,
    pub supports: Seq<(Seq<char>, nat)>,
    pub excludes: Seq<Seq<char>>,
    pub priority: i32,
}

/// Texts, in mathematical values.
pub open spec fn texts(v: Seq<String>) -> Seq<Seq<char>> {
    v.map_values(|s: String| s@)
}

impl View for RegistryEntry {
    type V = EntryModel;

    open spec fn view(&self) -> EntryModel {
        EntryModel {
            path: self.plugin_path@,
            name: self.plugin_name@,
            supports: self.supports@.map_values(|s: Support| (s.pattern@, s.score as nat)),
            excludes: texts(self.excludes@),
            priority: self.priority,
        }
    }
}

/// Whether one of some patterns is found in a URL.
pub open spec fn any_found(patterns: Seq<Seq<char>>, url: Seq<char>) -> bool {
    exists|i: int| 0 <= i < patterns.len() && pattern_found(#[trigger] patterns[i], url)
}

/// The greatest score of the patterns that are found in a URL.
pub open spec fn best_score(supports: Seq<(Seq<char>, nat)>, url: Seq<char>) -> Option<nat>
    decreases supports.len(),
{
    if supports.len() == 0 {
        None
    } else {
        let before = best_score(supports.drop_last(), url);
        let (pattern, score) = supports.last();
        if pattern_found(pattern, url) {
            match before {
                Some(b) => Some(
                    if score > b {
                        score
                    } else {
                        b
                    },
                ),
                None => Some(score),
            }
        } else {
            before
        }
    }
}

/// How well a plugin fits a URL.
#[derive(Debug, Clone, Copy, PartialEq, Eq, Structural)]
pub struct MatchMetric {
    pub priority: i32,
    pub specificity: usize,
}

impl EntryModel {
    /// How well the plugin fits a URL, if it does: not at all if it rules the URL out,
    /// and else as well as the best of its patterns does.
    pub open spec fn specificity(self, url: Seq<char>) -> Option<nat> {
        if any_found(self.excludes, url) {
            None
        } else {
            best_score(self.supports, url)
        }
    }
}

impl RegistryEntry {
    /// How well the plugin fits a URL, if it does.
    pub fn get_match_metric(&self, url: &str) -> (r: Option<MatchMetric>)
        ensures
            match r {
                Some(m) => self@.specificity(url@) == Some(m.specificity as nat) && m.priority
                    == self.priority,
                None => self@.specificity(url@).is_none(),
            },
    {
        let n: usize = self.excludes.len();
        let mut i: usize = 0;
        while i < n
            invariant
                i <= n,
                n == self.excludes@.len(),
                forall|j: int|
                    0 <= j < i ==> !pattern_found(#[trigger] texts(self.excludes@)[j], url@),
            decreases n - i,
        {
            if find_pattern(self.excludes[i].as_str(), url) {
                assert(pattern_found(texts(self.excludes@)[i as int], url@));
                return None;
            }
            i += 1;
        }
        let ghost all = self@.supports;
        let mut best: Option<usize> = None;
        let count: usize = self.supports.len();
        let mut k: usize = 0;
        assert(all.take(0) =~= Seq::<(Seq<char>, nat)>::empty());
        while k < count
            invariant
                k <= count,
                count == self.supports@.len(),
                all == self@.supports,
                match best {
                    Some(b) => best_score(all.take(k as int), url@) == Some(b as nat),
                    None => best_score(all.take(k as int), url@).is_none(),
                },
            decreases count - k,
        {
            let support = &self.supports[k];
            proof {
                assert(all.take(k + 1).drop_last() =~= all.take(k as int));
                assert(all.take(k + 1).last() == (support.pattern@, support.score as nat));
            }
            if find_pattern(support.pattern.as_str(), url) {
                best = match best {
                    Some(b) => Some(
                        if support.score > b {
                            support.score
                        } else {
                            b
                        },
                    ),
                    None => Some(support.score),
                };
            }
            k += 1;
        }
        assert(all.take(count as int) =~= all);
        match best {
            Some(specificity) => Some(MatchMetric { priority: self.priority, specificity }),
            None => None,
        }
    }
}

/// Whether a text comes before another in a dictionary.
pub open spec fn comes_before(a: Seq<char>, b: Seq<char>) -> bool
    decreases a.len(),
{
    if b.len() == 0 {
        false
    } else if a.len() == 0 {
        true
    } else if a[0] == b[0] {
        comes_before(a.drop_first(), b.drop_first())
    } else {
        (a[0] as u32) < (b[0] as u32)
    }
}

fn is_before(one: &str, other: &str) -> (r: bool)
    ensures
        r == comes_before(one@, other@),
{
    let a = chars_of(one);
    let b = chars_of(other);
    let mut i: usize = 0;
    assert(a@.skip(0) =~= a@);
    assert(b@.skip(0) =~= b@);
    while i < a.len() && i < b.len()
        invariant
            i <= a@.len(),
            i <= b@.len(),
            comes_before(a@.skip(i as int), b@.skip(i as int)) == comes_before(one@, other@),
        decreases a@.len() - i,
    {
        assert(a@.skip(i as int)[0] == a@[i as int]);
        assert(b@.skip(i as int)[0] == b@[i as int]);
        assert(a@.skip(i as int).drop_first() =~= a@.skip(i + 1));
        assert(b@.skip(i as int).drop_first() =~= b@.skip(i + 1));
        if a[i] != b[i] {
            return (a[i] as u32) < (b[i] as u32);
        }
        i += 1;
    }
    i < b.len()
}

/// A plugin that fits a URL.
pub struct Fit {
    pub id: usize,
    pub specificity: nat,
    pub priority: int,
    pub name: Seq<char>,
}

/// Whether a plugin is to be asked rather than another. The one that fits better goes
/// first, then the one with the higher priority, then the one whose name comes first
/// in a dictionary.
pub open spec fn goes_first(a: Fit, b: Fit) -> bool {
    if a.specificity != b.specificity {
        a.specificity > b.specificity
    } else if a.priority != b.priority {
        a.priority > b.priority
    } else {
        comes_before(a.name, b.name)
    }
}

/// How a plugin fits a URL.
pub open spec fn fit_of(entries: Seq<EntryModel>, id: usize, url: Seq<char>) -> Option<Fit> {
    match entries[id as int].specificity(url) {
        Some(specificity) => Some(
            Fit {
                id,
                specificity,
                priority: entries[id as int].priority as int,
                name: entries[id as int].name,
            },
        ),
        None => None,
    }
}

/// The plugin to be asked, among some. Where two are equal in everything, it is the
/// later one.
pub open spec fn best_fit(entries: Seq<EntryModel>, candidates: Seq<usize>, url: Seq<char>) -> Option<
    Fit,
>
    decreases candidates.len(),
{
    if candidates.len() == 0 {
        None
    } else {
        let before = best_fit(entries, candidates.drop_last(), url);
        match fit_of(entries, candidates.last(), url) {
            None => before,
            Some(fit) => match before {
                Some(b) => if goes_first(b, fit) {
                    before
                } else {
                    Some(fit)
                },
                None => Some(fit),
            },
        }
    }
}

/// The number of a plugin that fits.
pub open spec fn id_of(fit: Option<Fit>) -> Option<PluginId> {
    match fit {
        Some(f) => Some(PluginId(f.id)),
        None => None,
    }
}

/// How busy a worker is, and which plugins it has loaded.
pub struct WorkerHandle {
    pub loaded: HashSet<usize>,
    pub active_load: usize,
}

/// A worker, in mathematical values.
#[verifier::ext_equal]
pub struct WorkerModel {
    pub loaded: Set<usize>,
    pub load: usize,
}

impl View for WorkerHandle {
    type V = WorkerModel;

    open spec fn view(&self) -> WorkerModel {
        WorkerModel { loaded: self.loaded@, load: self.active_load }
    }
}

/// Workers, in mathematical values.
pub open spec fn workers_view(workers: Seq<WorkerHandle>) -> Seq<WorkerModel> {
    workers.map_values(|w: WorkerHandle| w@)
}

/// Whether work on a plugin goes to a worker rather than to another: to the one with
/// less to do, and among those with as much to do, to one that has the plugin loaded.
pub open spec fn is_better(load: usize, loaded: bool, than_load: usize, than_loaded: bool) -> bool {
    load < than_load || (load == than_load && loaded && !than_loaded)
}

/// The worker that runs a plugin: the first of the best ones.
pub open spec fn best_worker(workers: Seq<WorkerModel>, id: usize) -> (int, usize, bool)
    decreases workers.len(),
{
    if workers.len() == 0 {
        (0, usize::MAX, true)
    } else {
        let (at, load, loaded) = best_worker(workers.drop_last(), id);
        let w = workers.last();
        if is_better(w.load, w.loaded.contains(id), load, loaded) {
            (workers.len() - 1, w.load, w.loaded.contains(id))
        } else {
            (at, load, loaded)
        }
    }
}

/// What a plugin says of itself.
pub struct PluginSource {
    pub path: String,
    pub name: String,
    /// URLs that it is for; those behind an exclamation mark it is not for.
    pub supports: Option<Vec<String>>,
    /// Patterns of URLs that it is for.
    pub supports_regex: Option<Vec<String>>,
    pub priority: i32,
}

/// What is wrong with a plugin.
#[derive(Debug)]
pub enum PluginError {
    /// It does not say which URLs it is for.
    NoSupports,
    /// It names something that is no URL.
    BadUrl(String),
}

/// Whether a text begins with an exclamation mark.
pub open spec fn is_excluded(text: Seq<char>) -> bool {
    text.len() > 0 && text[0] == '!'
}

/// The URL that a text is about.
pub open spec fn url_in(text: Seq<char>) -> Seq<char> {
    let rest = if is_excluded(text) {
        text.drop_first()
    } else {
        text
    };
    completed_url(rest, lacks_scheme(rest))
}

/// The pattern for the URL that a text is about.
pub open spec fn pattern_in(text: Seq<char>) -> Seq<char> {
    url_pattern(host_text(host_of_url(url_in(text))), path_of_url(url_in(text))->0)
}

/// The texts that are patterns, with their lengths.
pub open spec fn patterns_in(list: Seq<Seq<char>>) -> Seq<(Seq<char>, nat)>
    decreases list.len(),
{
    if list.len() == 0 {
        Seq::empty()
    } else {
        let before = patterns_in(list.drop_last());
        if is_pattern(list.last()) {
            before.push((list.last(), byte_len(list.last())))
        } else {
            before
        }
    }
}

/// The patterns for the URLs that a plugin is for, with the lengths of the texts.
pub open spec fn supported(list: Seq<Seq<char>>) -> Seq<(Seq<char>, nat)>
    decreases list.len(),
{
    if list.len() == 0 {
        Seq::empty()
    } else {
        let before = supported(list.drop_last());
        if is_excluded(list.last()) {
            before
        } else {
            before.push((pattern_in(list.last()), byte_len(list.last())))
        }
    }
}

/// The patterns for the URLs that a plugin is not for.
pub open spec fn excluded(list: Seq<Seq<char>>) -> Seq<Seq<char>>
    decreases list.len(),
{
    if list.len() == 0 {
        Seq::empty()
    } else {
        let before = excluded(list.drop_last());
        if is_excluded(list.last()) {
            before.push(pattern_in(list.last()))
        } else {
            before
        }
    }
}

/// The keys of the hosts of the URLs that a plugin is for.
pub open spec fn hosts_named(list: Seq<Seq<char>>) -> Seq<Seq<char>>
    decreases list.len(),
{
    if list.len() == 0 {
        Seq::empty()
    } else {
        let before = hosts_named(list.drop_last());
        if is_excluded(list.last()) {
            before
        } else {
            match host_of_url(url_in(list.last())) {
                Some(host) => before.push(host.key()),
                None => before,
            }
        }
    }
}

/// The first text that is about no URL.
pub open spec fn first_bad(list: Seq<Seq<char>>) -> Option<Seq<char>>
    decreases list.len(),
{
    if list.len() == 0 {
        None
    } else if path_of_url(url_in(list[0])).is_none() {
        Some(list[0])
    } else {
        first_bad(list.drop_first())
    }
}

/// A list that may be missing, in mathematical values.
pub open spec fn list_of(list: Option<Vec<String>>) -> Seq<Seq<char>> {
    match list {
        Some(v) => texts(v@),
        None => Seq::empty(),
    }
}

/// The plugin that is made of what it says of itself.
pub open spec fn entry_of(source: PluginSource) -> EntryModel {
    EntryModel {
        path: source.path@,
        name: source.name@,
        supports: patterns_in(list_of(source.supports_regex)) + supported(
            list_of(source.supports),
        ),
        excludes: excluded(list_of(source.supports)),
        priority: source.priority,
    }
}

/// What a list of URLs says.
struct UrlList {
    supports: Vec<Support>,
    excludes: Vec<String>,
    hosts: Vec<String>,
}

spec fn supports_view(v: Seq<Support>) -> Seq<(Seq<char>, nat)> {
    v.map_values(|s: Support| (s.pattern@, s.score as nat))
}

proof fn lemma_first_bad(list: Seq<Seq<char>>, n: int)
    requires
        0 <= n < list.len(),
        forall|i: int| 0 <= i < n ==> path_of_url(url_in(#[trigger] list[i])).is_some(),
        path_of_url(url_in(list[n])).is_none(),
    ensures
        first_bad(list) == Some(list[n]),
    decreases list.len(),
{
    if n > 0 {
        assert(path_of_url(url_in(list[0])).is_some());
        let rest = list.drop_first();
        assert forall|i: int| 0 <= i < n - 1 implies path_of_url(
            url_in(#[trigger] rest[i]),
        ).is_some() by {
            assert(rest[i] == list[i + 1]);
        }
        lemma_first_bad(rest, n - 1);
    }
}

proof fn lemma_none_bad(list: Seq<Seq<char>>)
    requires
        forall|i: int| 0 <= i < list.len() ==> path_of_url(url_in(#[trigger] list[i])).is_some(),
    ensures
        first_bad(list).is_none(),
    decreases list.len(),
{
    if list.len() > 0 {
        assert(path_of_url(url_in(list[0])).is_some());
        let rest = list.drop_first();
        assert forall|i: int| 0 <= i < rest.len() implies path_of_url(
            url_in(#[trigger] rest[i]),
        ).is_some() by {
            assert(rest[i] == list[i + 1]);
        }
        lemma_none_bad(rest);
    }
}

/// The text behind an exclamation mark, or all of it.
fn after_mark(text: &str) -> (r: (bool, String))
    ensures
        r.0 == is_excluded(text@),
        r.1@ == if is_excluded(text@) {
            text@.drop_first()
        } else {
            text@
        },
{
    let chars = chars_of(text);
    let n: usize = chars.len();
    if n > 0 && chars[0] == '!' {
        assert(chars@.subrange(1, n as int) =~= text@.drop_first());
        (true, string_of(&chars, 1, n))
    } else {
        (false, text.to_owned())
    }
}

fn read_urls(list: &Vec<String>) -> (r: Result<UrlList, PluginError>)
    ensures
        match r {
            Ok(urls) => first_bad(texts(list@)).is_none() && supports_view(urls.supports@)
                == supported(texts(list@)) && texts(urls.excludes@) == excluded(texts(list@))
                && texts(urls.hosts@) == hosts_named(texts(list@)),
            Err(e) => e matches PluginError::BadUrl(text) && first_bad(texts(list@)) == Some(
                text@,
            ),
        },
{
    let ghost all = texts(list@);
    let mut urls = UrlList { supports: Vec::new(), excludes: Vec::new(), hosts: Vec::new() };
    let n: usize = list.len();
    let mut i: usize = 0;
    assert(all.take(0) =~= Seq::<Seq<char>>::empty());
    assert(supports_view(urls.supports@) =~= Seq::<(Seq<char>, nat)>::empty());
    assert(texts(urls.excludes@) =~= Seq::<Seq<char>>::empty());
    assert(texts(urls.hosts@) =~= Seq::<Seq<char>>::empty());
    while i < n
        invariant
            i <= n,
            n == list@.len(),
            all == texts(list@),
            forall|j: int| 0 <= j < i ==> path_of_url(url_in(#[trigger] all[j])).is_some(),
            supports_view(urls.supports@) == supported(all.take(i as int)),
            texts(urls.excludes@) == excluded(all.take(i as int)),
            texts(urls.hosts@) == hosts_named(all.take(i as int)),
        decreases n - i,
    {
        let ghost before = urls;
        let text: &str = list[i].as_str();
        proof {
            assert(all.take(i + 1).drop_last() =~= all.take(i as int));
            assert(all.take(i + 1).last() == text@);
            assert(all[i as int] == text@);
        }
        let (is_exclude, rest) = after_mark(text);
        let pattern = match to_url(rest.as_str()) {
            Some(url) => match to_regex(url.as_str()) {
                Some(pattern) => {
                    if !is_exclude {
                        if let Some(host) = url_host(url.as_str()) {
                            let key = host.key();
                            urls.hosts.push(key);
                            assert(texts(urls.hosts@) =~= texts(before.hosts@).push(key@));
                        }
                    }
                    pattern
                },
                None => String::new(),
            },
            None => {
                proof {
                    lemma_first_bad(all, i as int);
                }
                return Err(PluginError::BadUrl(text.to_owned()));
            },
        };
        if is_exclude {
            urls.excludes.push(pattern);
            assert(texts(urls.excludes@) =~= texts(before.excludes@).push(pattern@));
        } else {
            let score: usize = text.as_bytes_vec().len();
            urls.supports.push(Support { pattern, score });
            assert(supports_view(urls.supports@) =~= supports_view(before.supports@).push(
                (pattern@, score as nat),
            ));
        }
        i += 1;
    }
    proof {
        assert(all.take(n as int) =~= all);
        lemma_none_bad(all);
    }
    Ok(urls)
}

fn read_patterns(list: &Vec<String>) -> (r: Vec<Support>)
    ensures
        supports_view(r@) == patterns_in(texts(list@)),
{
    let ghost all = texts(list@);
    let mut r: Vec<Support> = Vec::new();
    let n: usize = list.len();
    let mut i: usize = 0;
    assert(all.take(0) =~= Seq::<Seq<char>>::empty());
    assert(supports_view(r@) =~= Seq::<(Seq<char>, nat)>::empty());
    while i < n
        invariant
            i <= n,
            n == list@.len(),
            all == texts(list@),
            supports_view(r@) == patterns_in(all.take(i as int)),
        decreases n - i,
    {
        let ghost before = r@;
        proof {
            assert(all.take(i + 1).drop_last() =~= all.take(i as int));
            assert(all.take(i + 1).last() == list@[i as int]@);
        }
        if check_pattern(list[i].as_str()) {
            let pattern = list[i].clone();
            let score: usize = list[i].as_str().as_bytes_vec().len();
            r.push(Support { pattern, score });
            assert(supports_view(r@) =~= supports_view(before).push((pattern@, score as nat)));
        }
        i += 1;
    }
    assert(all.take(n as int) =~= all);
    r
}

/// A host that a plugin is for, by its key.
pub struct HostPlugin {
    pub host: String,
    pub id: usize,
}

/// Hosts and plugins, in mathematical values.
pub open spec fn cache_view(v: Seq<HostPlugin>) -> Seq<(Seq<char>, usize)> {
    v.map_values(|h: HostPlugin| (h.host@, h.id))
}

/// The plugins, and the workers that run them.
pub struct PluginRegistry {
    entries: Vec<RegistryEntry>,
    workers: Vec<WorkerHandle>,
    host_cache: Vec<HostPlugin>,
    complex_plugins: Vec<usize>,
}

/// The plugins and the workers, in mathematical values.
#[verifier::ext_equal]
pub struct PluginModel {
    pub entries: Seq<EntryModel>,
    pub workers: Seq<WorkerModel>,
    /// Which plugins are for which hosts, by the keys of these.
    pub hosts: Seq<(Seq<char>, usize)>,
    /// The plugins with patterns, which any URL is held against.
    pub complex: Seq<usize>,
}

/// Plugins, in mathematical values.
pub open spec fn entries_view(v: Seq<RegistryEntry>) -> Seq<EntryModel> {
    v.map_values(|e: RegistryEntry| e@)
}

impl View for PluginRegistry {
    type V = PluginModel;

    closed spec fn view(&self) -> PluginModel {
        PluginModel {
            entries: entries_view(self.entries@),
            workers: workers_view(self.workers@),
            hosts: cache_view(self.host_cache@),
            complex: self.complex_plugins@,
        }
    }
}

/// The plugins that are for a host.
pub open spec fn plugins_for(hosts: Seq<(Seq<char>, usize)>, host: Seq<char>) -> Seq<usize>
    decreases hosts.len(),
{
    if hosts.len() == 0 {
        Seq::empty()
    } else {
        let before = plugins_for(hosts.drop_last(), host);
        if hosts.last().0 == host {
            before.push(hosts.last().1)
        } else {
            before
        }
    }
}

/// What comes of a URL.
#[derive(Debug, Clone, Copy, PartialEq, Eq, Structural)]
pub enum ParseDecision {
    /// It is no URL.
    BadUrl,
    /// No plugin is for it.
    NoPlugin,
    /// A worker runs a plugin, which it is given first if it does not have it.
    Run { plugin: PluginId, worker: usize, give: bool },
}

impl PluginModel {
    /// The plugins that may be asked about a URL: those with patterns, and those that
    /// are for its host.
    pub open spec fn candidates(self, host: Option<HostModel>) -> Seq<usize> {
        match host {
            Some(h) => self.complex + plugins_for(self.hosts, h.key()),
            None => self.complex,
        }
    }

    /// What comes of a URL, of which this is known: whether it is one, and its host.
    pub open spec fn parsed(self, url: Seq<char>, is_url: bool, host: Option<HostModel>) -> (
        PluginModel,
        ParseDecision,
    ) {
        if !is_url {
            (self, ParseDecision::BadUrl)
        } else {
            match best_fit(self.entries, self.candidates(host), url) {
                None => (self, ParseDecision::NoPlugin),
                Some(fit) => {
                    let at = best_worker(self.workers, fit.id).0;
                    let w = self.workers[at];
                    (
                        PluginModel {
                            workers: self.workers.update(
                                at,
                                WorkerModel {
                                    loaded: w.loaded.insert(fit.id),
                                    load: w.load.wrapping_add(1),
                                },
                            ),
                            ..self
                        },
                        ParseDecision::Run {
                            plugin: PluginId(fit.id),
                            worker: at as usize,
                            give: !w.loaded.contains(fit.id),
                        },
                    )
                },
            }
        }
    }

    /// The registry with one more plugin.
    pub open spec fn with_plugin(self, source: PluginSource) -> PluginModel {
        let id = self.entries.len() as usize;
        PluginModel {
            entries: self.entries.push(entry_of(source)),
            hosts: self.hosts + hosts_named(list_of(source.supports)).map_values(
                |h: Seq<char>| (h, id),
            ),
            complex: if list_of(source.supports_regex).len() > 0 {
                self.complex.push(id)
            } else {
                self.complex
            },
            ..self
        }
    }

    /// Whether every number is that of a plugin, and there are workers.
    pub open spec fn valid(self) -> bool {
        &&& self.workers.len() > 0
        &&& forall|i: int| 0 <= i < self.complex.len() ==> #[trigger] self.complex[i] < self.entries.len()
        &&& forall|i: int|
            0 <= i < self.hosts.len() ==> (#[trigger] self.hosts[i]).1 < self.entries.len()
    }
}

proof fn lemma_plugins_for(hosts: Seq<(Seq<char>, usize)>, host: Seq<char>, bound: nat)
    requires
        forall|i: int| 0 <= i < hosts.len() ==> (#[trigger] hosts[i]).1 < bound,
    ensures
        forall|i: int|
            0 <= i < plugins_for(hosts, host).len() ==> #[trigger] plugins_for(hosts, host)[i] < bound,
    decreases hosts.len(),
{
    if hosts.len() > 0 {
        let rest = hosts.drop_last();
        assert forall|i: int| 0 <= i < rest.len() implies (#[trigger] rest[i]).1 < bound by {
            assert(rest[i] == hosts[i]);
        }
        lemma_plugins_for(rest, host, bound);
        assert(hosts[hosts.len() - 1].1 < bound);
        let all = plugins_for(hosts, host);
        let before = plugins_for(rest, host);
        assert forall|i: int| 0 <= i < all.len() implies #[trigger] all[i] < bound by {
            if i < before.len() {
                assert(all[i] == before[i]);
            }
        }
    }
}

/// The plugin to be asked is among those that may be, and fits.
pub proof fn lemma_best_fit(entries: Seq<EntryModel>, candidates: Seq<usize>, url: Seq<char>)
    ensures
        match best_fit(entries, candidates, url) {
            Some(fit) => candidates.contains(fit.id) && fit_of(entries, fit.id, url) == Some(fit),
            None => true,
        },
    decreases candidates.len(),
{
    if candidates.len() > 0 {
        let rest = candidates.drop_last();
        lemma_best_fit(entries, rest, url);
        assert(candidates[candidates.len() - 1] == candidates.last());
        if let Some(fit) = best_fit(entries, rest, url) {
            let i = choose|i: int| 0 <= i < rest.len() && rest[i] == fit.id;
            assert(candidates[i] == fit.id);
        }
    }
}

proof fn lemma_best_worker(workers: Seq<WorkerModel>, id: usize)
    ensures
        ({
            let (at, load, loaded) = best_worker(workers, id);
            &&& 0 <= at
            &&& workers.len() > 0 ==> at < workers.len()
            &&& workers.len() == 0 ==> at == 0
        }),
    decreases workers.len(),
{
    if workers.len() > 0 {
        lemma_best_worker(workers.drop_last(), id);
    }
}

impl PluginRegistry {
    /// Every number is that of a plugin, and there are workers.
    pub closed spec fn wf(&self) -> bool {
        self@.valid()
    }

    /// No plugins, and some workers with nothing to do.
    pub fn new(workers: usize) -> (r: Self)
        requires
            workers > 0,
        ensures
            r.wf(),
            r@ == (PluginModel {
                entries: Seq::empty(),
                workers: Seq::new(
                    workers as nat,
                    |i: int| WorkerModel { loaded: Set::empty(), load: 0 },
                ),
                hosts: Seq::empty(),
                complex: Seq::empty(),
            }),
    {
        let mut handles: Vec<WorkerHandle> = Vec::new();
        let mut i: usize = 0;
        while i < workers
            invariant
                i <= workers,
                handles@.len() == i,
                forall|k: int|
                    0 <= k < i ==> (#[trigger] handles@[k])@ == (WorkerModel {
                        loaded: Set::empty(),
                        load: 0,
                    }),
            decreases workers - i,
        {
            let handle = WorkerHandle { loaded: HashSet::new(), active_load: 0 };
            assert(handle@.loaded =~= Set::empty());
            handles.push(handle);
            i += 1;
        }
        let r = PluginRegistry {
            entries: Vec::new(),
            workers: handles,
            host_cache: Vec::new(),
            complex_plugins: Vec::new(),
        };
        assert(r@.entries =~= Seq::<EntryModel>::empty());
        assert(r@.hosts =~= Seq::<(Seq<char>, usize)>::empty());
        assert(r@.workers =~= Seq::new(
            workers as nat,
            |i: int| WorkerModel { loaded: Set::empty(), load: 0 },
        ));
        r
    }

    /// Takes in a plugin, if it says which URLs it is for and names nothing else.
    pub fn add_plugin(&mut self, source: PluginSource) -> (r: Result<(), PluginError>)
        requires
            old(self).wf(),
        ensures
            final(self).wf(),
            match r {
                Ok(()) => (source.supports.is_some() || source.supports_regex.is_some())
                    && first_bad(list_of(source.supports)).is_none() && final(self)@
                    == old(self)@.with_plugin(source),
                Err(PluginError::NoSupports) => source.supports.is_none()
                    && source.supports_regex.is_none() && final(self)@ == old(self)@,
                Err(PluginError::BadUrl(text)) => first_bad(list_of(source.supports)) == Some(text@)
                    && final(self)@ == old(self)@,
            },
    {
        if source.supports.is_none() && source.supports_regex.is_none() {
            return Err(PluginError::NoSupports);
        }
        let ghost start = self@;
        let id: usize = self.entries.len();
        let mut supports: Vec<Support> = match &source.supports_regex {
            Some(list) => read_patterns(list),
            None => Vec::new(),
        };
        assert(supports_view(supports@) =~= patterns_in(list_of(source.supports_regex)));
        let ghost patterns = supports@;
        let is_complex = match &source.supports_regex {
            Some(list) => list.len() > 0,
            None => false,
        };
        let mut urls = match &source.supports {
            Some(list) => match read_urls(list) {
                Ok(urls) => urls,
                Err(e) => {
                    return Err(e);
                },
            },
            None => UrlList { supports: Vec::new(), excludes: Vec::new(), hosts: Vec::new() },
        };
        assert(supports_view(urls.supports@) =~= supported(list_of(source.supports)));
        assert(texts(urls.excludes@) =~= excluded(list_of(source.supports)));
        assert(texts(urls.hosts@) =~= hosts_named(list_of(source.supports)));
        let ghost more = urls.supports@;
        supports.append(&mut urls.supports);
        assert(supports_view(supports@) =~= supports_view(patterns) + supports_view(more));
        let ghost named = texts(urls.hosts@);
        let ghost pairs = named.map_values(|h: Seq<char>| (h, id));
        let hosts = urls.hosts;
        for host in iter: hosts
            invariant
                texts(iter.seq()) == named,
                pairs == named.map_values(|h: Seq<char>| (h, id)),
                start.hosts == old(self)@.hosts,
                self.entries == old(self).entries,
                self.workers == old(self).workers,
                self.complex_plugins == old(self).complex_plugins,
                cache_view(self.host_cache@) == start.hosts + pairs.take(iter.index() as int),
        {
            let ghost before = self.host_cache@;
            let ghost i = iter.index() as int;
            assert(texts(iter.seq())[i] == host@);
            assert(pairs[i] == (host@, id));
            self.host_cache.push(HostPlugin { host, id });
            assert(cache_view(self.host_cache@) =~= cache_view(before).push((host@, id)));
            assert(pairs.take(i + 1) =~= pairs.take(i).push((host@, id)));
        }
        assert(pairs.take(named.len() as int) =~= pairs);
        if is_complex {
            self.complex_plugins.push(id);
        }
        let ghost entries = self.entries@;
        let ghost path = source.path@;
        let ghost name = source.name@;
        let entry = RegistryEntry {
            plugin_path: source.path,
            plugin_name: source.name,
            supports,
            excludes: urls.excludes,
            priority: source.priority,
        };
        assert(entry@ =~= entry_of(source));
        self.entries.push(entry);
        proof {
            assert(entries_view(self.entries@) =~= entries_view(entries).push(entry@));
            assert(self@ =~= start.with_plugin(source));
            assert forall|i: int| 0 <= i < self@.hosts.len() implies (#[trigger] self@.hosts[i]).1
                < self@.entries.len() by {
                if i < start.hosts.len() {
                    assert(self@.hosts[i] == start.hosts[i]);
                } else {
                    assert(self@.hosts[i] == pairs[i - start.hosts.len()]);
                }
            }
        }
        Ok(())
    }

    /// The plugin to be asked about a URL, among some.
    pub fn find_best_plugin(&self, url: &str, candidates: &Vec<usize>) -> (r: Option<PluginId>)
        requires
            forall|i: int|
                0 <= i < candidates@.len() ==> #[trigger] candidates@[i] < self@.entries.len(),
        ensures
            r == id_of(best_fit(self@.entries, candidates@, url@)),
    {
        let mut best: Option<(usize, MatchMetric)> = None;
        let n: usize = candidates.len();
        let mut i: usize = 0;
        assert(candidates@.take(0) =~= Seq::<usize>::empty());
        while i < n
            invariant
                i <= n,
                n == candidates@.len(),
                forall|k: int| 0 <= k < n ==> #[trigger] candidates@[k] < self@.entries.len(),
                match best {
                    Some((id, m)) => id < self@.entries.len() && best_fit(
                        self@.entries,
                        candidates@.take(i as int),
                        url@,
                    ) == Some(
                        Fit {
                            id,
                            specificity: m.specificity as nat,
                            priority: m.priority as int,
                            name: self@.entries[id as int].name,
                        },
                    ),
                    None => best_fit(self@.entries, candidates@.take(i as int), url@).is_none(),
                },
            decreases n - i,
        {
            let id: usize = candidates[i];
            proof {
                assert(candidates@.take(i + 1).drop_last() =~= candidates@.take(i as int));
                assert(candidates@.take(i + 1).last() == id);
                assert(self@.entries[id as int] == self.entries@[id as int]@);
            }
            if let Some(m) = self.entries[id].get_match_metric(url) {
                let stays = match best {
                    Some((b, bm)) => {
                        assert(self@.entries[b as int] == self.entries@[b as int]@);
                        if bm.specificity != m.specificity {
                            bm.specificity > m.specificity
                        } else if bm.priority != m.priority {
                            bm.priority > m.priority
                        } else {
                            is_before(
                                self.entries[b].plugin_name.as_str(),
                                self.entries[id].plugin_name.as_str(),
                            )
                        }
                    },
                    None => false,
                };
                if !stays {
                    best = Some((id, m));
                }
            }
            i += 1;
        }
        assert(candidates@.take(n as int) =~= candidates@);
        match best {
            Some((id, _)) => Some(PluginId(id)),
            None => None,
        }
    }

    /// The worker that runs a plugin.
    pub fn select_best_worker(&self, plugin_id: PluginId) -> (r: usize)
        requires
            self.wf(),
        ensures
            r == best_worker(self@.workers, plugin_id.0).0,
            r < self@.workers.len(),
    {
        let mut best_index: usize = 0;
        let mut best_load: usize = usize::MAX;
        let mut best_loaded: bool = true;
        let n: usize = self.workers.len();
        let mut i: usize = 0;
        let ghost all = self@.workers;
        assert(all.take(0) =~= Seq::<WorkerModel>::empty());
        while i < n
            invariant
                i <= n,
                n == self.workers@.len(),
                all == workers_view(self.workers@),
                (best_index as int, best_load, best_loaded) == best_worker(
                    all.take(i as int),
                    plugin_id.0,
                ),
            decreases n - i,
        {
            proof {
                assert(all.take(i + 1).drop_last() =~= all.take(i as int));
                assert(all.take(i + 1).last() == self.workers@[i as int]@);
            }
            let load: usize = self.workers[i].active_load;
            let loaded = self.workers[i].loaded.contains(&plugin_id.0);
            if load < best_load || (load == best_load && loaded && !best_loaded) {
                best_index = i;
                best_load = load;
                best_loaded = loaded;
            }
            i += 1;
        }
        assert(all.take(n as int) =~= all);
        proof {
            lemma_best_worker(all, plugin_id.0);
        }
        best_index
    }

    fn candidates(&self, host: Option<Host>) -> (r: Vec<usize>)
        requires
            self.wf(),
        ensures
            r@ == self@.candidates(host_view(host)),
            forall|i: int| 0 <= i < r@.len() ==> #[trigger] r@[i] < self@.entries.len(),
    {
        let mut r: Vec<usize> = Vec::new();
        let n: usize = self.complex_plugins.len();
        let mut i: usize = 0;
        while i < n
            invariant
                i <= n,
                n == self.complex_plugins@.len(),
                r@ == self.complex_plugins@.take(i as int),
            decreases n - i,
        {
            r.push(self.complex_plugins[i]);
            i += 1;
            assert(r@ =~= self.complex_plugins@.take(i as int));
        }
        assert(r@ =~= self.complex_plugins@);
        if let Some(host) = host {
            let key = host.key();
            let ghost all = self@.hosts;
            let count: usize = self.host_cache.len();
            let mut k: usize = 0;
            assert(all.take(0) =~= Seq::<(Seq<char>, usize)>::empty());
            assert(r@ =~= self.complex_plugins@ + plugins_for(all.take(0), key@));
            while k < count
                invariant
                    k <= count,
                    count == self.host_cache@.len(),
                    all == cache_view(self.host_cache@),
                    r@ == self.complex_plugins@ + plugins_for(all.take(k as int), key@),
                decreases count - k,
            {
                proof {
                    assert(all.take(k + 1).drop_last() =~= all.take(k as int));
                    assert(all.take(k + 1).last() == all[k as int]);
                }
                if text_eq(self.host_cache[k].host.as_str(), key.as_str()) {
                    let ghost before = r@;
                    r.push(self.host_cache[k].id);
                    assert(r@ =~= self.complex_plugins@ + plugins_for(all.take(k + 1), key@));
                }
                k += 1;
            }
            assert(all.take(count as int) =~= all);
            proof {
                lemma_plugins_for(all, key@, self@.entries.len());
                assert forall|j: int| 0 <= j < r@.len() implies #[trigger] r@[j]
                    < self@.entries.len() by {
                    if j < self.complex_plugins@.len() {
                        assert(self@.complex[j] < self@.entries.len());
                    } else {
                        assert(r@[j] == plugins_for(all, key@)[j - self.complex_plugins@.len()]);
                    }
                }
            }
        } else {
            assert forall|j: int| 0 <= j < r@.len() implies #[trigger] r@[j]
                < self@.entries.len() by {
                assert(self@.complex[j] < self@.entries.len());
            }
        }
        r
    }

    /// Finds the plugin for a URL of which this is known, and the worker that runs it.
    pub fn parse_known(&mut self, url: &str, is_url: bool, host: Option<Host>) -> (r:
        ParseDecision)
        requires
            old(self).wf(),
        ensures
            final(self).wf(),
            (final(self)@, r) == old(self)@.parsed(
                url@,
                is_url,
                host_view(host),
            ),
    {
        if !is_url {
            return ParseDecision::BadUrl;
        }
        let candidates = self.candidates(host);
        match self.find_best_plugin(url, &candidates) {
            None => ParseDecision::NoPlugin,
            Some(plugin) => {
                proof {
                    lemma_best_fit(self@.entries, candidates@, url@);
                }
                let worker: usize = self.select_best_worker(plugin);
                let ghost before = self.workers@;
                let give = !self.workers[worker].loaded.contains(&plugin.0);
                let _ = self.workers[worker].loaded.insert(plugin.0);
                let load: usize = self.workers[worker].active_load;
                self.workers[worker].active_load = load.wrapping_add(1);
                proof {
                    let w = workers_view(before)[worker as int];
                    assert(self.workers@[worker as int]@.loaded =~= w.loaded.insert(plugin.0));
                    assert(workers_view(self.workers@) =~= workers_view(before).update(
                        worker as int,
                        WorkerModel {
                            loaded: w.loaded.insert(plugin.0),
                            load: w.load.wrapping_add(1),
                        },
                    ));
                    assert(old(self)@.valid());
                    assert(self@.complex == old(self)@.complex);
                    assert(self@.hosts == old(self)@.hosts);
                    assert(self@.entries == old(self)@.entries);
                }
                ParseDecision::Run { plugin, worker, give }
            },
        }
    }

    /// Finds the plugin for a URL, and the worker that runs it.
    pub fn parse(&mut self, url: &str) -> (r: ParseDecision)
        requires
            old(self).wf(),
        ensures
            final(self).wf(),
            (final(self)@, r) == old(self)@.parsed(
                url@,
                path_of_url(url@).is_some(),
                host_of_url(url@),
            ),
    {
        let is_url = url_path(url).is_some();
        let host = url_host(url);
        self.parse_known(url, is_url, host)
    }

    /// A worker is done with a plugin.
    pub fn finished(&mut self, worker: usize)
        requires
            old(self).wf(),
            worker < old(self)@.workers.len(),
        ensures
            final(self).wf(),
            final(self)@ == (PluginModel {
                workers: old(self)@.workers.update(
                    worker as int,
                    WorkerModel {
                        load: old(self)@.workers[worker as int].load.wrapping_sub(1),
                        ..old(self)@.workers[worker as int]
                    },
                ),
                ..old(self)@
            }),
    {
        let ghost before = self.workers@;
        let load: usize = self.workers[worker].active_load;
        self.workers[worker].active_load = load.wrapping_sub(1);
        proof {
            let w = workers_view(before)[worker as int];
            assert(workers_view(self.workers@) =~= workers_view(before).update(
                worker as int,
                WorkerModel { load: w.load.wrapping_sub(1), ..w },
            ));
            assert(old(self)@.valid());
            assert(self@.complex == old(self)@.complex);
            assert(self@.hosts == old(self)@.hosts);
            assert(self@.entries == old(self)@.entries);
        }
    }
}

proof fn lemma_before_is_transitive(a: Seq<char>, b: Seq<char>, c: Seq<char>)
    requires
        comes_before(a, b),
        comes_before(b, c),
    ensures
        comes_before(a, c),
    decreases a.len(),
{
    if a.len() > 0 && a[0] == b[0] && b[0] == c[0] {
        lemma_before_is_transitive(a.drop_first(), b.drop_first(), c.drop_first());
    }
}

/// Different characters have different numbers.
pub proof fn lemma_chars_differ(a: char, b: char)
    requires
        a != b,
    ensures
        a as u32 != b as u32,
{
}

proof fn lemma_before_is_total(a: Seq<char>, b: Seq<char>)
    ensures
        comes_before(a, b) || comes_before(b, a) || a == b,
        !(comes_before(a, b) && comes_before(b, a)),
        !comes_before(a, a),
    decreases a.len(),
{
    if a.len() == 0 {
        if b.len() == 0 {
            assert(a =~= b);
        }
    } else {
        lemma_before_is_total(a.drop_first(), a.drop_first());
        if b.len() > 0 && a[0] != b[0] {
            lemma_chars_differ(a[0], b[0]);
        }
        if b.len() > 0 && a[0] == b[0] {
            lemma_before_is_total(a.drop_first(), b.drop_first());
            if a.drop_first() == b.drop_first() {
                assert(a =~= seq![a[0]] + a.drop_first());
                assert(b =~= seq![b[0]] + b.drop_first());
            }
        }
    }
}

proof fn lemma_first_is_transitive(a: Fit, b: Fit, c: Fit)
    requires
        !goes_first(a, b),
        !goes_first(b, c),
    ensures
        !goes_first(a, c),
{
    if a.specificity == c.specificity && a.priority == c.priority {
        lemma_before_is_total(a.name, b.name);
        lemma_before_is_total(b.name, c.name);
        lemma_before_is_total(a.name, c.name);
        if comes_before(a.name, c.name) {
            if comes_before(b.name, a.name) {
                lemma_before_is_transitive(b.name, a.name, c.name);
            }
        }
    }
}

/// No other plugin that fits a URL goes before the one that is asked, and one is asked
/// if any fits.
pub proof fn law_the_best_plugin_is_asked(
    entries: Seq<EntryModel>,
    candidates: Seq<usize>,
    url: Seq<char>,
    other: int,
)
    requires
        0 <= other < candidates.len(),
        fit_of(entries, candidates[other], url).is_some(),
    ensures
        best_fit(entries, candidates, url).is_some(),
        candidates.contains(best_fit(entries, candidates, url)->0.id),
        !goes_first(
            fit_of(entries, candidates[other], url)->0,
            best_fit(entries, candidates, url)->0,
        ),
    decreases candidates.len(),
{
    lemma_best_fit(entries, candidates, url);
    let rest = candidates.drop_last();
    let it = fit_of(entries, candidates[other], url)->0;
    let last = fit_of(entries, candidates.last(), url);
    if other < rest.len() {
        assert(rest[other] == candidates[other]);
        law_the_best_plugin_is_asked(entries, rest, url, other);
        let before = best_fit(entries, rest, url)->0;
        if let Some(fit) = last {
            if !goes_first(before, fit) {
                lemma_first_is_transitive(it, before, fit);
            }
        }
    } else {
        lemma_before_is_total(it.name, it.name);
        if let Some(before) = best_fit(entries, rest, url) {
            lemma_before_is_total(it.name, before.name);
        }
    }
}

/// Work goes to a worker than which no other is better.
pub proof fn law_the_best_worker_is_chosen(workers: Seq<WorkerModel>, id: usize, other: int)
    requires
        0 <= other < workers.len(),
        workers[0].load < usize::MAX,
    ensures
        ({
            let at = best_worker(workers, id).0;
            &&& 0 <= at < workers.len()
            &&& !is_better(
                workers[other].load,
                workers[other].loaded.contains(id),
                workers[at].load,
                workers[at].loaded.contains(id),
            )
        }),
{
    lemma_chosen(workers, id, other);
}

proof fn lemma_chosen(workers: Seq<WorkerModel>, id: usize, other: int)
    requires
        0 <= other < workers.len(),
        workers[0].load < usize::MAX,
    ensures
        ({
            let (at, load, loaded) = best_worker(workers, id);
            &&& 0 <= at < workers.len()
            &&& load == workers[at].load
            &&& loaded == workers[at].loaded.contains(id)
            &&& !is_better(workers[other].load, workers[other].loaded.contains(id), load, loaded)
        }),
    decreases workers.len(),
{
    let rest = workers.drop_last();
    if rest.len() > 0 {
        assert(rest[0] == workers[0]);
        lemma_chosen(
            rest,
            id,
            if other < rest.len() {
                other
            } else {
                0
            },
        );
        let at = best_worker(rest, id).0;
        assert(rest[at] == workers[at]);
    } else {
        assert(best_worker(rest, id) == (0int, usize::MAX, true));
    }
}

/// A URL that a plugin rules out is not its business, whatever else it says.
pub proof fn law_excluded_urls_are_not_asked_about(entry: EntryModel, url: Seq<char>, i: int)
    requires
        0 <= i < entry.excludes.len(),
        pattern_found(entry.excludes[i], url),
    ensures
        entry.specificity(url).is_none(),
{
}

/// Whether a plugin that began at a time, in milliseconds, is to be stopped now. The
/// time zero says that none runs.
pub fn should_interrupt(start: u64, now: u64) -> (r: bool)
    ensures
        r == (start != 0 && now - start > PLUGIN_TIMEOUT),
{
    if start == 0 {
        return false;
    }
    now.saturating_sub(start) > PLUGIN_TIMEOUT
}

/// Whether a file in the folder of plugins is looked at: one with another extension
/// than `js` is not.
pub fn is_plugin_file(extension: Option<&str>) -> (r: bool)
    ensures
        r == match extension {
            Some(e) => e@ == "js"@,
            None => true,
        },
{
    match extension {
        Some(e) => text_eq(e, "js"),
        None => true,
    }
}

} // verus!
