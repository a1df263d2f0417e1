//! What holds of the program whatever it was told.

use vstd::prelude::*;
#[allow(unused_imports)]
use crate::app::manager::{
    app_heard, app_step, AppActionModel, AppManagerCommand, AppManagerEvent, AppModel,
};
#[allow(unused_imports)]
use crate::download::items::DownloadId;

verus! {

/// Something that the program is told.
pub enum AppInput {
    Command(AppManagerCommand),
    Event(AppManagerEvent),
}

/// What the program becomes, and does, when it is told something.
pub open spec fn app_told(m: AppModel, input: AppInput) -> (AppModel, Seq<AppActionModel>) {
    match input {
        AppInput::Command(command) => app_step(m, command),
        AppInput::Event(event) => (app_heard(m, event), Seq::empty()),
    }
}

/// What the program becomes, and does, when it is told several things, one after the other.
pub open spec fn app_run(m: AppModel, inputs: Seq<AppInput>) -> (AppModel, Seq<AppActionModel>)
    decreases inputs.len(),
{
    if inputs.len() == 0 {
        (m, Seq::empty())
    } else {
        let (before, actions) = app_run(m, inputs.drop_last());
        let (after, more) = app_told(before, inputs.last());
        (after, actions + more)
    }
}

/// Whether something is the wish to have a URL downloaded.
pub open spec fn queues(input: AppInput, url: Seq<char>) -> bool {
    input matches AppInput::Command(AppManagerCommand::QueueDownload(text)) && text@ == url
}

/// Whether the download of a URL is forgotten because of something: it is removed while
/// nobody works on it, or those who worked on it say that it has been removed.
pub open spec fn forgets(m: AppModel, input: AppInput, url: Seq<char>) -> bool {
    match input {
        AppInput::Command(AppManagerCommand::RemoveDownload(id, _)) => !m.running.contains(id.0)
            && m.registry.ids.contains_key(id.0) && m.registry.ids[id.0] == url,
        AppInput::Event(AppManagerEvent::RemoveDownload(id)) => m.registry.ids.contains_key(id.0)
            && m.registry.ids[id.0] == url,
        _ => false,
    }
}

/// Whether the download of a URL is never forgotten while the program is told several
/// things.
pub open spec fn never_forgets(m: AppModel, inputs: Seq<AppInput>, url: Seq<char>) -> bool
    decreases inputs.len(),
{
    inputs.len() == 0 || (never_forgets(m, inputs.drop_last(), url) && !forgets(
        app_run(m, inputs.drop_last()).0,
        inputs.last(),
        url,
    ))
}

/// The numbers under which a URL is handed on to the plugins.
pub open spec fn handed_on(actions: Seq<AppActionModel>, url: Seq<char>) -> Seq<DownloadId>
    decreases actions.len(),
{
    if actions.len() == 0 {
        Seq::empty()
    } else {
        let before = handed_on(actions.drop_last(), url);
        match actions.last() {
            AppActionModel::AskPlugin { url: asked, id } => if asked == url {
                before.push(id)
            } else {
                before
            },
            _ => before,
        }
    }
}

proof fn lemma_handed_on_add(a: Seq<AppActionModel>, b: Seq<AppActionModel>, url: Seq<char>)
    ensures
        handed_on(a + b, url) == handed_on(a, url) + handed_on(b, url),
    decreases b.len(),
{
    if b.len() == 0 {
        assert(a + b =~= a);
        assert(handed_on(a, url) + handed_on(b, url) =~= handed_on(a, url));
    } else {
        assert((a + b).drop_last() =~= a + b.drop_last());
        lemma_handed_on_add(a, b.drop_last(), url);
        assert(handed_on(a + b, url) =~= handed_on(a, url) + handed_on(b, url));
    }
}

proof fn lemma_nothing_handed_on(actions: Seq<AppActionModel>, url: Seq<char>)
    requires
        forall|i: int| 0 <= i < actions.len() ==> !(#[trigger] actions[i] is AskPlugin),
    ensures
        handed_on(actions, url) == Seq::<DownloadId>::empty(),
    decreases actions.len(),
{
    if actions.len() > 0 {
        assert(!(actions[actions.len() - 1] is AskPlugin));
        assert forall|i: int| 0 <= i < actions.drop_last().len() implies !(
        #[trigger] actions.drop_last()[i] is AskPlugin) by {
            assert(!(actions[i] is AskPlugin));
        }
        lemma_nothing_handed_on(actions.drop_last(), url);
    }
}

/// What one more word does to what is known of a URL, and which numbers it is handed on
/// under.
proof fn lemma_told(m: AppModel, input: AppInput, url: Seq<char>)
    requires
        !forgets(m, input, url),
    ensures
        ({
            let (after, actions) = app_told(m, input);
            if m.registry.urls.contains_key(url) {
                &&& after.registry.urls.contains_key(url)
                &&& after.registry.urls[url] == m.registry.urls[url]
                &&& handed_on(actions, url) == Seq::<DownloadId>::empty()
                &&& queues(input, url) ==> after == m && actions == Seq::<AppActionModel>::empty()
            } else if queues(input, url) {
                &&& after.registry.urls.contains_key(url)
                &&& handed_on(actions, url) == seq![after.registry.urls[url]]
            } else {
                &&& !after.registry.urls.contains_key(url)
                &&& handed_on(actions, url) == Seq::<DownloadId>::empty()
            }
        }),
{
    let actions = app_told(m, input).1;
    match input {
        AppInput::Command(AppManagerCommand::QueueDownload(text)) => {
            if m.registry.urls.contains_key(text@) {
            } else {
                let id = DownloadId(m.registry.next);
                let ask = AppActionModel::AskPlugin { url: text@, id };
                assert(actions.drop_last() =~= Seq::<AppActionModel>::empty());
                assert(actions.last() == ask);
                assert(handed_on(Seq::<AppActionModel>::empty(), url) == Seq::<
                    DownloadId,
                >::empty());
                if text@ == url {
                    assert(handed_on(actions, url) =~= seq![id]);
                }
            }
        },
        _ => {
            lemma_nothing_handed_on(actions, url);
        },
    }
}

/// A URL that is known keeps its number, and is not handed on, whatever the program is told,
/// as long as its download is not forgotten.
pub proof fn law_known_urls_keep_their_numbers(
    m: AppModel,
    inputs: Seq<AppInput>,
    url: Seq<char>,
)
    requires
        m.registry.urls.contains_key(url),
        never_forgets(m, inputs, url),
    ensures
        ({
            let (after, actions) = app_run(m, inputs);
            &&& after.registry.urls.contains_key(url)
            &&& after.registry.urls[url] == m.registry.urls[url]
            &&& handed_on(actions, url) == Seq::<DownloadId>::empty()
        }),
    decreases inputs.len(),
{
    if inputs.len() > 0 {
        let (before, actions) = app_run(m, inputs.drop_last());
        law_known_urls_keep_their_numbers(m, inputs.drop_last(), url);
        lemma_told(before, inputs.last(), url);
        lemma_handed_on_add(actions, app_told(before, inputs.last()).1, url);
        assert(Seq::<DownloadId>::empty() + Seq::<DownloadId>::empty() =~= Seq::<
            DownloadId,
        >::empty());
    }
}

/// A URL that was not known gets one number and is handed on once, under that number, however
/// often it is queued and whatever else the program is told in between, as long as its
/// download is not forgotten. If it is not queued, it stays unknown and is not handed on.
pub proof fn law_queued_urls_are_handed_on_once(
    m: AppModel,
    inputs: Seq<AppInput>,
    url: Seq<char>,
)
    requires
        !m.registry.urls.contains_key(url),
        never_forgets(m, inputs, url),
    ensures
        ({
            let (after, actions) = app_run(m, inputs);
            if exists|k: int| 0 <= k < inputs.len() && queues(#[trigger] inputs[k], url) {
                &&& after.registry.urls.contains_key(url)
                &&& handed_on(actions, url) == seq![after.registry.urls[url]]
            } else {
                &&& !after.registry.urls.contains_key(url)
                &&& handed_on(actions, url) == Seq::<DownloadId>::empty()
            }
        }),
    decreases inputs.len(),
{
    if inputs.len() > 0 {
        let fewer = inputs.drop_last();
        let (before, actions) = app_run(m, fewer);
        law_queued_urls_are_handed_on_once(m, fewer, url);
        lemma_told(before, inputs.last(), url);
        let more = app_told(before, inputs.last()).1;
        lemma_handed_on_add(actions, more, url);
        assert(handed_on(actions, url) + handed_on(more, url) == if handed_on(
            actions,
            url,
        ).len() == 0 {
            handed_on(more, url)
        } else {
            handed_on(actions, url)
        }) by {
            assert(handed_on(more, url) =~= handed_on(actions, url) + handed_on(more, url)
                || handed_on(actions, url) =~= handed_on(actions, url) + handed_on(more, url));
        }
        assert(inputs[inputs.len() - 1] == inputs.last());
        if exists|k: int| 0 <= k < fewer.len() && queues(#[trigger] fewer[k], url) {
            let k = choose|k: int| 0 <= k < fewer.len() && queues(#[trigger] fewer[k], url);
            assert(inputs[k] == fewer[k]);
        } else if !queues(inputs.last(), url) {
            assert forall|k: int| 0 <= k < inputs.len() implies !queues(
                #[trigger] inputs[k],
                url,
            ) by {
                if k < fewer.len() {
                    assert(inputs[k] == fewer[k]);
                }
            }
        }
    }
}

/// Queuing a URL that was queued before changes nothing and has nothing done, whatever the
/// program was told in between, as long as the download was not forgotten.
pub proof fn law_queuing_again_does_nothing(
    m: AppModel,
    inputs: Seq<AppInput>,
    url: Seq<char>,
    again: AppInput,
)
    requires
        never_forgets(m, inputs, url),
        exists|k: int| 0 <= k < inputs.len() && queues(#[trigger] inputs[k], url),
        queues(again, url),
    ensures
        app_told(app_run(m, inputs).0, again) == (
            app_run(m, inputs).0,
            Seq::<AppActionModel>::empty(),
        ),
{
    if m.registry.urls.contains_key(url) {
        law_known_urls_keep_their_numbers(m, inputs, url);
    } else {
        law_queued_urls_are_handed_on_once(m, inputs, url);
    }
    lemma_told(app_run(m, inputs).0, again, url);
}

} // verus!
