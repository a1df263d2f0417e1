//! Which URLs a plugin is asked about, and which of several plugins and workers is.

use vstd::prelude::*;
#[allow(unused_imports)]
use crate::plugin_patterns::{
    bare_host, escaped, is_pattern, pattern_found, url_pattern, without_slashes,
};
#[allow(unused_imports)]
use crate::plugin_registry::{
    best_fit, best_score, best_worker, comes_before, entry_of, excluded, first_bad, hosts_named,
    law_the_best_plugin_is_asked, list_of, patterns_in, is_plugin_file, plugins_for,
    should_interrupt, supported, EntryModel, MatchMetric, ParseDecision, PluginModel, PluginSource,
    RegistryEntry, WorkerModel,
};
#[allow(unused_imports)]
use crate::utils::file_utils::byte_len;
#[allow(unused_imports)]
use crate::utils::kept::{lemma_kept_members, lemma_kept_step};
#[allow(unused_imports)]
use crate::utils::urls::{host_of_url, lacks_scheme, path_of_url, HostModel};

verus! {

/// Whether a text names a URL that a plugin is for: one without an exclamation mark in
/// front.
pub open spec fn names_its_own() -> spec_fn(Seq<char>) -> bool {
    |text: Seq<char>| !(text.len() > 0 && text[0] == '!')
}

/// Whether a text names a URL that a plugin is not for.
pub open spec fn names_a_foreign_one() -> spec_fn(Seq<char>) -> bool {
    |text: Seq<char>| text.len() > 0 && text[0] == '!'
}

/// The URL that a text names: what is behind the exclamation mark, if there is one, and
/// one of the web if the text leaves the scheme out.
pub open spec fn named_url(text: Seq<char>) -> Seq<char> {
    let rest = if text.len() > 0 && text[0] == '!' {
        text.subrange(1, text.len() as int)
    } else {
        text
    };
    if lacks_scheme(rest) {
        "https://"@ + rest
    } else {
        rest
    }
}

/// The host that a URL names, as text.
pub open spec fn named_host(url: Seq<char>) -> Seq<char> {
    match host_of_url(url) {
        Some(HostModel::Domain(text)) => text,
        Some(HostModel::Ipv4(text)) => text,
        Some(HostModel::Ipv6(text)) => text,
        None => Seq::empty(),
    }
}

/// The pattern for the URL that a text names.
pub open spec fn its_pattern() -> spec_fn(Seq<char>) -> Seq<char> {
    |text: Seq<char>|
        url_pattern(Some(named_host(named_url(text))), path_of_url(named_url(text))->0)
}

/// The pattern for the URL that a text names, with the length of the text.
pub open spec fn its_support() -> spec_fn(Seq<char>) -> (Seq<char>, nat) {
    |text: Seq<char>| (its_pattern()(text), byte_len(text))
}

/// Whether a text names a URL with a host that a plugin is for.
pub open spec fn names_its_host() -> spec_fn(Seq<char>) -> bool {
    |text: Seq<char>|
        !(text.len() > 0 && text[0] == '!') && host_of_url(named_url(text)) is Some
}

/// The key of the host that a text names.
pub open spec fn its_host() -> spec_fn(Seq<char>) -> Seq<char> {
    |text: Seq<char>| host_of_url(named_url(text))->0.key()
}

proof fn lemma_named(text: Seq<char>)
    ensures
        crate::plugin_registry::url_in(text) == named_url(text),
        crate::plugin_registry::pattern_in(text) == its_pattern()(text),
{
    if text.len() > 0 {
        assert(text.subrange(1, text.len() as int) =~= text.drop_first());
    }
}

proof fn lemma_lists(list: Seq<Seq<char>>)
    ensures
        supported(list) == list.filter(names_its_own()).map_values(its_support()),
        excluded(list) == list.filter(names_a_foreign_one()).map_values(its_pattern()),
        hosts_named(list) == list.filter(names_its_host()).map_values(its_host()),
        patterns_in(list) == list.filter(|t: Seq<char>| is_pattern(t)).map_values(
            |t: Seq<char>| (t, byte_len(t)),
        ),
    decreases list.len(),
{
    lemma_kept_step(list, names_its_own(), its_support());
    lemma_kept_step(list, names_a_foreign_one(), its_pattern());
    lemma_kept_step(list, names_its_host(), its_host());
    lemma_kept_step(list, |t: Seq<char>| is_pattern(t), |t: Seq<char>| (t, byte_len(t)));
    if list.len() > 0 {
        lemma_lists(list.drop_last());
        lemma_named(list.last());
    }
}

/// A plugin is for every URL that it names: for each text without an exclamation mark
/// the pattern of its URL is among the plugin's patterns, with the length of the text;
/// and no other is.
pub proof fn law_plugins_are_for_what_they_name(list: Seq<Seq<char>>)
    ensures
        supported(list) == list.filter(names_its_own()).map_values(its_support()),
        forall|i: int|
            0 <= i < list.len() && names_its_own()(#[trigger] list[i]) ==> supported(
                list,
            ).contains((its_pattern()(list[i]), byte_len(list[i]))),
        forall|s: (Seq<char>, nat)| #[trigger]
            supported(list).contains(s) ==> exists|i: int|
                0 <= i < list.len() && names_its_own()(#[trigger] list[i]) && s == (
                    its_pattern()(list[i]),
                    byte_len(list[i]),
                ),
{
    lemma_lists(list);
    lemma_kept_members(list, names_its_own(), its_support());
    assert forall|i: int|
        0 <= i < list.len() && names_its_own()(#[trigger] list[i]) implies supported(
        list,
    ).contains((its_pattern()(list[i]), byte_len(list[i]))) by {
        assert(its_support()(list[i]) == (its_pattern()(list[i]), byte_len(list[i])));
    }
    assert forall|s: (Seq<char>, nat)| #[trigger] supported(list).contains(s) implies exists|i: int|
        0 <= i < list.len() && names_its_own()(#[trigger] list[i]) && s == (
            its_pattern()(list[i]),
            byte_len(list[i]),
        ) by {
        let i = choose|i: int|
            0 <= i < list.len() && names_its_own()(#[trigger] list[i]) && its_support()(list[i])
                == s;
        assert(s == (its_pattern()(list[i]), byte_len(list[i])));
    }
}

/// A plugin is for no URL that it names behind an exclamation mark: the patterns of
/// these, and no others, are those that it rules out.
pub proof fn law_plugins_rule_out_what_they_name(list: Seq<Seq<char>>)
    ensures
        excluded(list) == list.filter(names_a_foreign_one()).map_values(its_pattern()),
        forall|i: int|
            0 <= i < list.len() && names_a_foreign_one()(#[trigger] list[i]) ==> excluded(
                list,
            ).contains(its_pattern()(list[i])),
        forall|p: Seq<char>| #[trigger]
            excluded(list).contains(p) ==> exists|i: int|
                0 <= i < list.len() && names_a_foreign_one()(#[trigger] list[i]) && p
                    == its_pattern()(list[i]),
{
    lemma_lists(list);
    lemma_kept_members(list, names_a_foreign_one(), its_pattern());
}

/// Every text that is a pattern is one of the plugin's patterns, with its length, and
/// no other text is.
pub proof fn law_good_patterns_are_kept(list: Seq<Seq<char>>)
    ensures
        forall|i: int|
            0 <= i < list.len() && is_pattern(#[trigger] list[i]) ==> patterns_in(list).contains(
                (list[i], byte_len(list[i])),
            ),
        forall|s: (Seq<char>, nat)| #[trigger]
            patterns_in(list).contains(s) ==> is_pattern(s.0) && list.contains(s.0) && s.1
                == byte_len(s.0),
{
    lemma_lists(list);
    let keep = |t: Seq<char>| is_pattern(t);
    let make = |t: Seq<char>| (t, byte_len(t));
    lemma_kept_members(list, keep, make);
    assert forall|i: int| 0 <= i < list.len() && is_pattern(#[trigger] list[i]) implies patterns_in(
        list,
    ).contains((list[i], byte_len(list[i]))) by {
        assert(keep(list[i]));
        assert(make(list[i]) == (list[i], byte_len(list[i])));
    }
    assert forall|s: (Seq<char>, nat)| #[trigger] patterns_in(list).contains(s) implies is_pattern(
        s.0,
    ) && list.contains(s.0) && s.1 == byte_len(s.0) by {
        let i = choose|i: int|
            0 <= i < list.len() && keep(#[trigger] list[i]) && make(list[i]) == s;
        assert(list[i] == s.0);
    }
}

/// Whether a text is a run of slashes.
pub open spec fn only_slashes(s: Seq<char>) -> bool {
    forall|i: int| 0 <= i < s.len() ==> #[trigger] s[i] == '/'
}

proof fn lemma_slashes_cut(s: Seq<char>) -> (cut: Seq<char>)
    ensures
        s == without_slashes(s) + cut,
        only_slashes(cut),
        without_slashes(s).len() > 0 ==> without_slashes(s).last() != '/',
    decreases s.len(),
{
    if s.len() > 0 && s.last() == '/' {
        let less = lemma_slashes_cut(s.drop_last());
        let cut = less.push('/');
        assert(s =~= s.drop_last().push('/'));
        assert(s.drop_last().push('/') =~= without_slashes(s) + less.push('/'));
        cut
    } else {
        assert(s =~= without_slashes(s) + Seq::<char>::empty());
        Seq::empty()
    }
}

/// The pattern of a URL is that of its host without `www.` and its path without the
/// slashes at the end, whichever of the two schemes of the web it names, with or
/// without `www.`, and with whatever follows below it.
pub proof fn law_patterns_are_for_a_url_and_what_is_below(host: Seq<char>, path: Seq<char>)
    ensures
        exists|h: Seq<char>, p: Seq<char>, cut: Seq<char>|
            #![trigger escaped(h), escaped(p), only_slashes(cut)]
            {
                &&& host == "www."@ + h || (host == h && !("www."@.len() <= host.len()
                    && host.subrange(0, "www."@.len() as int) == "www."@))
                &&& path == p + cut
                &&& only_slashes(cut)
                &&& p.len() > 0 ==> p.last() != '/'
                &&& url_pattern(Some(host), path) == "^https?://(www\\.)?"@ + escaped(h)
                    + escaped(p) + "(?:/.*)?$"@
            },
{
    let h = bare_host(host);
    let p = without_slashes(path);
    let cut = lemma_slashes_cut(path);
    let n = "www."@.len() as int;
    if n <= host.len() && host.take(n) == "www."@ {
        assert(host =~= host.take(n) + host.skip(n));
    } else if n <= host.len() {
        assert(host.subrange(0, n) =~= host.take(n));
    }
    assert(only_slashes(cut));
    assert(escaped(h) == escaped(h) && escaped(p) == escaped(p));
}

proof fn lemma_best_score(supports: Seq<(Seq<char>, nat)>, url: Seq<char>)
    ensures
        match best_score(supports, url) {
            Some(best) => {
                &&& exists|i: int|
                    0 <= i < supports.len() && pattern_found((#[trigger] supports[i]).0, url)
                        && supports[i].1 == best
                &&& forall|i: int|
                    0 <= i < supports.len() && pattern_found((#[trigger] supports[i]).0, url)
                        ==> supports[i].1 <= best
            },
            None => forall|i: int|
                0 <= i < supports.len() ==> !pattern_found((#[trigger] supports[i]).0, url),
        },
    decreases supports.len(),
{
    if supports.len() > 0 {
        let rest = supports.drop_last();
        lemma_best_score(rest, url);
        assert(forall|i: int| 0 <= i < rest.len() ==> rest[i] == supports[i]);
        assert(supports[supports.len() - 1] == supports.last());
        if best_score(rest, url) is Some {
            let i = choose|i: int|
                0 <= i < rest.len() && pattern_found((#[trigger] rest[i]).0, url) && rest[i].1
                    == best_score(rest, url)->0;
            assert(supports[i] == rest[i]);
        }
        assert forall|i: int| 0 <= i < supports.len() implies i == supports.len() - 1
            || #[trigger] supports[i] == rest[i] by {}
    }
}

/// A plugin fits a URL if one of its patterns is found in it and none of those that it
/// rules out; and it fits as well as the longest of the patterns that are found.
pub proof fn law_plugins_fit_what_their_patterns_find(entry: EntryModel, url: Seq<char>)
    ensures
        entry.specificity(url) is Some <==> {
            &&& exists|i: int|
                0 <= i < entry.supports.len() && pattern_found(
                    (#[trigger] entry.supports[i]).0,
                    url,
                )
            &&& forall|i: int|
                0 <= i < entry.excludes.len() ==> !pattern_found(#[trigger] entry.excludes[i], url)
        },
        entry.specificity(url) matches Some(best) ==> {
            &&& exists|i: int|
                0 <= i < entry.supports.len() && pattern_found(
                    (#[trigger] entry.supports[i]).0,
                    url,
                ) && entry.supports[i].1 == best
            &&& forall|i: int|
                0 <= i < entry.supports.len() && pattern_found(
                    (#[trigger] entry.supports[i]).0,
                    url,
                ) ==> entry.supports[i].1 <= best
        },
{
    lemma_best_score(entry.supports, url);
}

/// A plugin keeps its path, its name and its priority, and has the patterns that it
/// gives and those of the URLs that it names.
pub proof fn law_plugins_are_what_they_say(source: PluginSource, s: (Seq<char>, nat))
    ensures
        entry_of(source).path == source.path@,
        entry_of(source).name == source.name@,
        entry_of(source).priority == source.priority,
        entry_of(source).supports.contains(s) <==> patterns_in(
            list_of(source.supports_regex),
        ).contains(s) || supported(list_of(source.supports)).contains(s),
        forall|p: Seq<char>| #[trigger]
            entry_of(source).excludes.contains(p) <==> excluded(
                list_of(source.supports),
            ).contains(p),
{
    let a = patterns_in(list_of(source.supports_regex));
    let b = supported(list_of(source.supports));
    lemma_contains_both(a, b, s);
}

proof fn lemma_contains_both<A>(a: Seq<A>, b: Seq<A>, x: A)
    ensures
        (a + b).contains(x) <==> a.contains(x) || b.contains(x),
{
    if a.contains(x) {
        let i = choose|i: int| 0 <= i < a.len() && a[i] == x;
        assert((a + b)[i] == x);
    }
    if b.contains(x) {
        let i = choose|i: int| 0 <= i < b.len() && b[i] == x;
        assert((a + b)[a.len() + i] == x);
    }
    if (a + b).contains(x) {
        let i = choose|i: int| 0 <= i < (a + b).len() && (a + b)[i] == x;
        if i < a.len() {
            assert(a[i] == x);
        } else {
            assert(b[i - a.len()] == x);
        }
    }
}

/// A URL that the pattern of any URL that a plugin names is found in, and of none that
/// it rules out, is one that the plugin fits, and it fits at least as well as that text
/// is long.
pub proof fn law_plugins_fit_every_url_they_name(source: PluginSource, url: Seq<char>, i: int)
    requires
        0 <= i < list_of(source.supports).len(),
        names_its_own()(list_of(source.supports)[i]),
        pattern_found(its_pattern()(list_of(source.supports)[i]), url),
        forall|j: int|
            0 <= j < list_of(source.supports).len() && names_a_foreign_one()(
                #[trigger] list_of(source.supports)[j],
            ) ==> !pattern_found(its_pattern()(list_of(source.supports)[j]), url),
    ensures
        entry_of(source).specificity(url) is Some,
        entry_of(source).specificity(url)->0 >= byte_len(list_of(source.supports)[i]),
{
    let list = list_of(source.supports);
    let entry = entry_of(source);
    law_plugins_are_for_what_they_name(list);
    law_plugins_rule_out_what_they_name(list);
    let s = (its_pattern()(list[i]), byte_len(list[i]));
    law_plugins_are_what_they_say(source, s);
    law_plugins_fit_what_their_patterns_find(entry, url);
    let k = choose|k: int| 0 <= k < entry.supports.len() && entry.supports[k] == s;
    assert(pattern_found(entry.supports[k].0, url));
    assert forall|j: int| 0 <= j < entry.excludes.len() implies !pattern_found(
        #[trigger] entry.excludes[j],
        url,
    ) by {
        assert(entry.excludes.contains(entry.excludes[j]));
        assert(excluded(list).contains(entry.excludes[j]));
    }
}

/// A URL that a pattern of any URL that a plugin rules out is found in is not the
/// plugin's, and neither is one that none of its patterns is found in.
pub proof fn law_plugins_leave_other_urls_alone(source: PluginSource, url: Seq<char>)
    requires
        (exists|j: int|
            0 <= j < list_of(source.supports).len() && names_a_foreign_one()(
                #[trigger] list_of(source.supports)[j],
            ) && pattern_found(its_pattern()(list_of(source.supports)[j]), url)) || ((forall|
            j: int,
        |
            0 <= j < list_of(source.supports).len() && names_its_own()(
                #[trigger] list_of(source.supports)[j],
            ) ==> !pattern_found(its_pattern()(list_of(source.supports)[j]), url)) && (forall|
            j: int,
        |
            0 <= j < list_of(source.supports_regex).len() && is_pattern(
                #[trigger] list_of(source.supports_regex)[j],
            ) ==> !pattern_found(list_of(source.supports_regex)[j], url))),
    ensures
        entry_of(source).specificity(url) is None,
{
    let list = list_of(source.supports);
    let regexes = list_of(source.supports_regex);
    let entry = entry_of(source);
    law_plugins_are_for_what_they_name(list);
    law_plugins_rule_out_what_they_name(list);
    law_good_patterns_are_kept(regexes);
    law_plugins_fit_what_their_patterns_find(entry, url);
    if exists|j: int|
        0 <= j < list.len() && names_a_foreign_one()(#[trigger] list[j]) && pattern_found(
            its_pattern()(list[j]),
            url,
        ) {
        let j = choose|j: int|
            0 <= j < list.len() && names_a_foreign_one()(#[trigger] list[j]) && pattern_found(
                its_pattern()(list[j]),
                url,
            );
        law_plugins_are_what_they_say(source, (Seq::empty(), 0));
        assert(excluded(list).contains(its_pattern()(list[j])));
        assert(entry.excludes.contains(its_pattern()(list[j])));
        let k = choose|k: int|
            0 <= k < entry.excludes.len() && entry.excludes[k] == its_pattern()(list[j]);
        assert(pattern_found(entry.excludes[k], url));
    } else {
        assert forall|k: int| 0 <= k < entry.supports.len() implies !pattern_found(
            (#[trigger] entry.supports[k]).0,
            url,
        ) by {
            let s = entry.supports[k];
            law_plugins_are_what_they_say(source, s);
            assert(entry.supports.contains(s));
            if supported(list).contains(s) {
                let i = choose|i: int|
                    0 <= i < list.len() && names_its_own()(#[trigger] list[i]) && s == (
                        its_pattern()(list[i]),
                        byte_len(list[i]),
                    );
                assert(!pattern_found(its_pattern()(list[i]), url));
            } else {
                let i = choose|i: int| 0 <= i < regexes.len() && regexes[i] == s.0;
                assert(is_pattern(regexes[i]));
            }
        }
    }
}

/// Whether a text comes before another in a dictionary: it is the beginning of the
/// other, or has a smaller character where the two first differ.
pub open spec fn precedes(a: Seq<char>, b: Seq<char>) -> bool {
    exists|n: int|
        #![trigger a.take(n)]
        {
            &&& 0 <= n <= a.len()
            &&& n < b.len()
            &&& a.take(n) == b.take(n)
            &&& n < a.len() ==> (a[n] as u32) < (b[n] as u32)
        }
}

proof fn lemma_precedes(a: Seq<char>, b: Seq<char>)
    ensures
        comes_before(a, b) ==> precedes(a, b),
        !comes_before(a, b) ==> a == b || precedes(b, a),
    decreases a.len(),
{
    if b.len() == 0 {
        if a.len() > 0 {
            assert(b.take(0) =~= a.take(0));
        } else {
            assert(a =~= b);
        }
    } else if a.len() == 0 {
        assert(a.take(0) =~= b.take(0));
    } else if a[0] == b[0] {
        let x = a.drop_first();
        let y = b.drop_first();
        lemma_precedes(x, y);
        if comes_before(x, y) {
            lemma_precedes_behind(a, b);
        } else if x == y {
            assert(a =~= seq![a[0]] + x);
            assert(b =~= seq![b[0]] + y);
        } else {
            lemma_precedes_behind(b, a);
        }
    } else {
        crate::plugin_registry::lemma_chars_differ(a[0], b[0]);
        assert(a.take(0) =~= b.take(0));
        assert(b.take(0) =~= a.take(0));
    }
}

proof fn lemma_precedes_behind(a: Seq<char>, b: Seq<char>)
    requires
        a.len() > 0,
        b.len() > 0,
        a[0] == b[0],
        precedes(a.drop_first(), b.drop_first()),
    ensures
        precedes(a, b),
{
    let x = a.drop_first();
    let y = b.drop_first();
    let n = choose|n: int|
        #![trigger x.take(n)]
        {
            &&& 0 <= n <= x.len()
            &&& n < y.len()
            &&& x.take(n) == y.take(n)
            &&& n < x.len() ==> (x[n] as u32) < (y[n] as u32)
        };
    let more = n + 1;
    assert forall|i: int| 0 <= i < more implies #[trigger] a.take(more)[i] == b.take(more)[i] by {
        if i > 0 {
            assert(x.take(n)[i - 1] == y.take(n)[i - 1]);
        }
    }
    assert(a.take(more) =~= b.take(more));
}

/// The plugin that is asked is one of those that fit, and no other of them fits better;
/// of those that fit as well none has a higher priority; and of those that have the
/// same none has a name that comes before its own. None is asked only if none fits.
pub proof fn law_the_best_fit_is_asked(
    entries: Seq<EntryModel>,
    candidates: Seq<usize>,
    url: Seq<char>,
)
    ensures
        match best_fit(entries, candidates, url) {
            None => forall|i: int|
                0 <= i < candidates.len() ==> entries[#[trigger] candidates[i] as int].specificity(
                    url,
                ) is None,
            Some(fit) => {
                let e = entries[fit.id as int];
                &&& candidates.contains(fit.id)
                &&& e.specificity(url) is Some
                &&& forall|i: int|
                    0 <= i < candidates.len() && entries[#[trigger] candidates[
                        i
                    ] as int].specificity(url) is Some ==> {
                        let other = entries[candidates[i] as int];
                        let a = e.specificity(url)->0;
                        let b = other.specificity(url)->0;
                        ||| a > b
                        ||| a == b && e.priority > other.priority
                        ||| a == b && e.priority == other.priority && (e.name == other.name
                            || precedes(e.name, other.name))
                    }
            },
        },
{
    let best = best_fit(entries, candidates, url);
    assert forall|i: int|
        0 <= i < candidates.len() && entries[#[trigger] candidates[i] as int].specificity(
            url,
        ) is Some implies best is Some by {
        law_the_best_plugin_is_asked(entries, candidates, url, i);
    }
    if best is Some {
        let fit = best->0;
        crate::plugin_registry::lemma_best_fit(entries, candidates, url);
        let e = entries[fit.id as int];
        assert forall|i: int|
            0 <= i < candidates.len() && entries[#[trigger] candidates[i] as int].specificity(
                url,
            ) is Some implies {
            let other = entries[candidates[i] as int];
            let a = e.specificity(url)->0;
            let b = other.specificity(url)->0;
            ||| a > b
            ||| a == b && e.priority > other.priority
            ||| a == b && e.priority == other.priority && (e.name == other.name || precedes(
                e.name,
                other.name,
            ))
        } by {
            law_the_best_plugin_is_asked(entries, candidates, url, i);
            let other = entries[candidates[i] as int];
            lemma_precedes(other.name, e.name);
        }
    }
}

proof fn lemma_first_best(workers: Seq<WorkerModel>, id: usize)
    requires
        forall|i: int| 0 <= i < workers.len() ==> (#[trigger] workers[i]).load < usize::MAX,
    ensures
        workers.len() == 0 ==> best_worker(workers, id) == (0int, usize::MAX, true),
        workers.len() > 0 ==> {
            let (at, load, loaded) = best_worker(workers, id);
            &&& 0 <= at < workers.len()
            &&& load == workers[at].load
            &&& loaded == workers[at].loaded.contains(id)
            &&& forall|i: int|
                0 <= i < workers.len() ==> {
                    let w = #[trigger] workers[i];
                    &&& load <= w.load
                    &&& load == w.load && w.loaded.contains(id) ==> loaded
                    &&& load == w.load && w.loaded.contains(id) == loaded ==> at <= i
                }
        },
    decreases workers.len(),
{
    if workers.len() > 0 {
        let rest = workers.drop_last();
        assert forall|i: int| 0 <= i < rest.len() implies (#[trigger] rest[i]).load
            < usize::MAX by {
            assert(rest[i] == workers[i]);
        }
        lemma_first_best(rest, id);
        let w = workers.last();
        assert(w == workers[workers.len() - 1]);
        let (at, load, loaded) = best_worker(workers, id);
        assert forall|i: int| 0 <= i < workers.len() implies {
            let w = #[trigger] workers[i];
            &&& load <= w.load
            &&& load == w.load && w.loaded.contains(id) ==> loaded
            &&& load == w.load && w.loaded.contains(id) == loaded ==> at <= i
        } by {
            if i < rest.len() {
                assert(rest[i] == workers[i]);
            }
        }
        if rest.len() > 0 {
            let k = best_worker(rest, id).0;
            assert(rest[k] == workers[k]);
        }
    }
}

/// A plugin runs on the worker with the least to do; among several, on one that has it
/// loaded, if there is one; and among those on the first.
pub proof fn law_the_idlest_worker_is_chosen(workers: Seq<WorkerModel>, id: usize, i: int)
    requires
        0 <= i < workers.len(),
        forall|j: int| 0 <= j < workers.len() ==> (#[trigger] workers[j]).load < usize::MAX,
    ensures
        ({
            let at = best_worker(workers, id).0;
            &&& 0 <= at < workers.len()
            &&& workers[at].load <= workers[i].load
            &&& workers[at].load == workers[i].load && workers[i].loaded.contains(id)
                ==> workers[at].loaded.contains(id)
            &&& workers[at].load == workers[i].load && workers[i].loaded.contains(id)
                == workers[at].loaded.contains(id) ==> at <= i
        }),
{
    lemma_first_best(workers, id);
}

proof fn lemma_for_host(hosts: Seq<(Seq<char>, usize)>, host: Seq<char>, id: usize)
    ensures
        plugins_for(hosts, host).contains(id) <==> hosts.contains((host, id)),
    decreases hosts.len(),
{
    if hosts.len() > 0 {
        let rest = hosts.drop_last();
        lemma_for_host(rest, host, id);
        assert(hosts =~= rest.push(hosts.last()));
        crate::utils::text::lemma_contains_push(rest, hosts.last(), (host, id));
        if hosts.last().0 == host {
            crate::utils::text::lemma_contains_push(
                plugins_for(rest, host),
                hosts.last().1,
                id,
            );
        }
    }
}

/// A plugin may be asked about a URL if it has patterns, or is for the URL's host; and
/// no other may.
pub proof fn law_plugins_are_found_by_their_hosts(
    m: PluginModel,
    host: Option<HostModel>,
    id: usize,
)
    ensures
        m.candidates(host).contains(id) <==> m.complex.contains(id) || (host matches Some(h)
            && m.hosts.contains((h.key(), id))),
{
    if let Some(h) = host {
        lemma_for_host(m.hosts, h.key(), id);
        lemma_contains_both(m.complex, plugins_for(m.hosts, h.key()), id);
    }
}

/// A plugin that is taken in gets the next number, and is found for every host of a URL
/// that it names, or for every URL if it gives patterns. The plugins that were there
/// are found as before, and the workers stay as they are.
pub proof fn law_new_plugins_are_found(
    m: PluginModel,
    source: PluginSource,
    host: Option<HostModel>,
    id: usize,
)
    requires
        m.valid(),
        m.entries.len() <= usize::MAX,
    ensures
        ({
            let after = m.with_plugin(source);
            let new = m.entries.len() as usize;
            let list = list_of(source.supports);
            &&& after.entries.len() == m.entries.len() + 1
            &&& after.entries[m.entries.len() as int] == entry_of(source)
            &&& forall|k: int| 0 <= k < m.entries.len() ==> after.entries[k] == m.entries[k]
            &&& after.workers == m.workers
            &&& id < m.entries.len() ==> after.candidates(host).contains(id) == m.candidates(
                host,
            ).contains(id)
            &&& after.candidates(host).contains(new) <==> list_of(source.supports_regex).len() > 0
                || (host matches Some(h) && exists|i: int|
                0 <= i < list.len() && !names_a_foreign_one()(#[trigger] list[i]) && (host_of_url(
                    named_url(list[i]),
                ) matches Some(own) && own.key() == h.key()))
        }),
{
    let after = m.with_plugin(source);
    let new = m.entries.len() as usize;
    let list = list_of(source.supports);
    let keys = hosts_named(list);
    let added = keys.map_values(|h: Seq<char>| (h, new));
    law_plugins_are_found_by_their_hosts(m, host, id);
    law_plugins_are_found_by_their_hosts(after, host, id);
    law_plugins_are_found_by_their_hosts(after, host, new);
    law_plugins_are_found_by_their_hosts(m, host, new);
    if id < m.entries.len() {
        if list_of(source.supports_regex).len() > 0 {
            crate::utils::text::lemma_contains_push(m.complex, new, id);
        }
        if let Some(h) = host {
            lemma_contains_both(m.hosts, added, (h.key(), id));
        }
    }
    assert(!m.complex.contains(new));
    if list_of(source.supports_regex).len() > 0 {
        crate::utils::text::lemma_contains_push(m.complex, new, new);
    }
    if let Some(h) = host {
        lemma_contains_both(m.hosts, added, (h.key(), new));
        assert(!m.hosts.contains((h.key(), new)));
        lemma_lists(list);
        lemma_kept_members(list, names_its_host(), its_host());
        if added.contains((h.key(), new)) {
            let j = choose|j: int| 0 <= j < added.len() && added[j] == (h.key(), new);
            assert(keys[j] == h.key());
            assert(keys.contains(h.key()));
            let i = choose|i: int|
                0 <= i < list.len() && names_its_host()(#[trigger] list[i]) && its_host()(list[i])
                    == h.key();
            assert(!names_a_foreign_one()(list[i]));
        }
        if exists|i: int|
            0 <= i < list.len() && !names_a_foreign_one()(#[trigger] list[i]) && (host_of_url(
                named_url(list[i]),
            ) matches Some(own) && own.key() == h.key()) {
            let i = choose|i: int|
                0 <= i < list.len() && !names_a_foreign_one()(#[trigger] list[i]) && (host_of_url(
                    named_url(list[i]),
                ) matches Some(own) && own.key() == h.key());
            assert(names_its_host()(list[i]));
            assert(its_host()(list[i]) == h.key());
            let j = choose|j: int| 0 <= j < keys.len() && keys[j] == h.key();
            assert(added[j] == (h.key(), new));
        }
    }
}

/// What is no URL is refused. A URL that no plugin fits which may be asked is answered
/// so. Otherwise a worker runs the plugin: it has one more to do and the plugin loaded
/// from then on, and is given the plugin only if it did not have it. Nothing else
/// changes.
pub proof fn law_urls_are_answered(
    m: PluginModel,
    url: Seq<char>,
    is_url: bool,
    host: Option<HostModel>,
)
    requires
        m.valid(),
        m.workers.len() <= usize::MAX,
        forall|j: int| 0 <= j < m.workers.len() ==> (#[trigger] m.workers[j]).load < usize::MAX,
    ensures
        match m.parsed(url, is_url, host) {
            (after, ParseDecision::BadUrl) => !is_url && after == m,
            (after, ParseDecision::NoPlugin) => is_url && after == m && forall|id: usize|
                #[trigger] m.candidates(host).contains(id) ==> m.entries[id as int].specificity(
                    url,
                ) is None,
            (after, ParseDecision::Run { plugin, worker, give }) => {
                &&& is_url
                &&& m.candidates(host).contains(plugin.0)
                &&& m.entries[plugin.0 as int].specificity(url) is Some
                &&& worker < m.workers.len()
                &&& give == !m.workers[worker as int].loaded.contains(plugin.0)
                &&& after.entries == m.entries && after.hosts == m.hosts && after.complex
                    == m.complex
                &&& after.workers.len() == m.workers.len()
                &&& after.workers[worker as int].load == m.workers[worker as int].load + 1
                &&& forall|x: usize| #[trigger]
                    after.workers[worker as int].loaded.contains(x)
                        <==> m.workers[worker as int].loaded.contains(x) || x == plugin.0
                &&& forall|j: int|
                    0 <= j < m.workers.len() && j != worker ==> after.workers[j] == m.workers[j]
            },
        },
{
    law_the_best_fit_is_asked(m.entries, m.candidates(host), url);
    if m.parsed(url, is_url, host).1 is NoPlugin {
        assert forall|id: usize| #[trigger]
            m.candidates(host).contains(id) implies m.entries[id as int].specificity(url) is
            None by {
            let i = choose|i: int|
                0 <= i < m.candidates(host).len() && m.candidates(host)[i] == id;
            assert(m.entries[m.candidates(host)[i] as int].specificity(url) is None);
        }
    }
    if let Some(fit) = best_fit(m.entries, m.candidates(host), url) {
        lemma_first_best(m.workers, fit.id);
    }
}

/// The text that a plugin is refused for is the first that names no URL; where each
/// names one, no text is.
pub proof fn law_the_first_bad_url_is_told(list: Seq<Seq<char>>)
    ensures
        match first_bad(list) {
            Some(text) => exists|i: int|
                0 <= i < list.len() && #[trigger] list[i] == text && path_of_url(
                    named_url(list[i]),
                ) is None && forall|j: int|
                    0 <= j < i ==> path_of_url(named_url(#[trigger] list[j])) is Some,
            None => forall|j: int|
                0 <= j < list.len() ==> path_of_url(named_url(#[trigger] list[j])) is Some,
        },
    decreases list.len(),
{
    if list.len() > 0 {
        let rest = list.drop_first();
        lemma_named(list[0]);
        law_the_first_bad_url_is_told(rest);
        assert(forall|j: int| 0 <= j < rest.len() ==> rest[j] == list[j + 1]);
        assert(forall|j: int| 0 < j < list.len() ==> list[j] == rest[j - 1]);
        if path_of_url(named_url(list[0])) is Some && first_bad(rest) is Some {
            let text = first_bad(rest)->0;
            let i = choose|i: int|
                0 <= i < rest.len() && #[trigger] rest[i] == text && path_of_url(
                    named_url(rest[i]),
                ) is None && forall|j: int|
                    0 <= j < i ==> path_of_url(named_url(#[trigger] rest[j])) is Some;
            assert(list[i + 1] == text);
            assert forall|j: int| 0 <= j < i + 1 implies path_of_url(
                named_url(#[trigger] list[j]),
            ) is Some by {
                if j > 0 {
                    assert(rest[j - 1] == list[j]);
                }
            }
        }
        if first_bad(list) is None {
            assert forall|j: int| 0 <= j < list.len() implies path_of_url(
                named_url(#[trigger] list[j]),
            ) is Some by {
                if j > 0 {
                    assert(rest[j - 1] == list[j]);
                }
            }
        }
    }
}

/// How well a plugin fits a URL is told for each that it fits, with the priority of the
/// plugin, and for no other.
pub proof fn law_fits_are_measured(entry: &RegistryEntry, url: &str, metric: Option<MatchMetric>)
    requires
        call_ensures(RegistryEntry::get_match_metric, (entry, url), metric),
    ensures
        metric is Some <==> {
            &&& exists|i: int|
                0 <= i < entry@.supports.len() && pattern_found(
                    (#[trigger] entry@.supports[i]).0,
                    url@,
                )
            &&& forall|i: int|
                0 <= i < entry@.excludes.len() ==> !pattern_found(
                    #[trigger] entry@.excludes[i],
                    url@,
                )
        },
        metric matches Some(m) ==> {
            &&& m.priority == entry.priority
            &&& exists|i: int|
                0 <= i < entry@.supports.len() && pattern_found(
                    (#[trigger] entry@.supports[i]).0,
                    url@,
                ) && entry@.supports[i].1 == m.specificity
            &&& forall|i: int|
                0 <= i < entry@.supports.len() && pattern_found(
                    (#[trigger] entry@.supports[i]).0,
                    url@,
                ) ==> entry@.supports[i].1 <= m.specificity
        },
{
    law_plugins_fit_what_their_patterns_find(entry@, url@);
}

/// A plugin is stopped when it runs for longer than five seconds, and a file is looked at as
/// a plugin unless it has another extension.
pub proof fn law_slow_plugins_are_stopped(
    start: u64,
    now: u64,
    stop: bool,
    extension: Option<&str>,
    looked_at: bool,
)
    requires
        call_ensures(should_interrupt, (start, now), stop),
        call_ensures(is_plugin_file, (extension,), looked_at),
    ensures
        start > 0 && now > start + 5000 ==> stop,
        start == 0 || now <= start + 5000 ==> !stop,
        extension is None ==> looked_at,
        extension matches Some(e) ==> (looked_at <==> e@.len() == 2 && e@[0] == 'j' && e@[1]
            == 's'),
{
    reveal_strlit("js");
    if let Some(e) = extension {
        if e@.len() == 2 && e@[0] == 'j' && e@[1] == 's' {
            assert(e@ =~= "js"@);
        }
    }
}

} // verus!
