//! What must hold of a config as a whole.
use crate::config::{App, AppKind, AppView, Config, ConfigView, TextEntryView, TimedEventView};
use crate::error::{outcome, Error, ErrorView};
use crate::fold::{fold, lemma_fold_all, lemma_fold_error, lemma_fold_step};
use crate::text::same;
use vstd::prelude::*;

verus! {

/// The least index of an app of this name; the number of apps if there is none.
pub open spec fn first_named(apps: Seq<AppView>, name: Seq<char>) -> int
    decreases apps.len(),
{
    if apps.len() == 0 || apps[0].name == name {
        0
    } else {
        1 + first_named(apps.drop_first(), name)
    }
}

pub proof fn lemma_first_named_bounds(apps: Seq<AppView>, name: Seq<char>)
    ensures
        0 <= first_named(apps, name) <= apps.len(),
        first_named(apps, name) < apps.len() ==> apps[first_named(apps, name)].name == name,
        forall|k: int| 0 <= k < first_named(apps, name) ==> (#[trigger] apps[k]).name != name,
    decreases apps.len(),
{
    if apps.len() > 0 && apps[0].name != name {
        let rest = apps.drop_first();
        lemma_first_named_bounds(rest, name);
        assert forall|k: int| 0 <= k < first_named(apps, name) implies (#[trigger] apps[k]).name
            != name by {
            if k > 0 {
                assert(rest[k - 1] == apps[k]);
            }
        }
    }
}

/// Whether some app has this name.
pub open spec fn is_named(apps: Seq<AppView>, name: Seq<char>) -> bool {
    exists|i: int| 0 <= i < apps.len() && (#[trigger] apps[i]).name == name
}

pub proof fn lemma_named(apps: Seq<AppView>, name: Seq<char>)
    ensures
        is_named(apps, name) <==> first_named(apps, name) < apps.len(),
{
    lemma_first_named_bounds(apps, name);
    if is_named(apps, name) {
        let i = choose|i: int| 0 <= i < apps.len() && (#[trigger] apps[i]).name == name;
        if i < first_named(apps, name) {
            assert(apps[i].name != name);
        }
    } else if first_named(apps, name) < apps.len() {
        assert(apps[first_named(apps, name)].name == name);
    }
}

/// The first app of this name.
pub fn find_app<'a>(config: &'a Config, name: &str) -> (r: Result<&'a App, Error>)
    ensures
        match r {
            Ok(app) => {
                let i = first_named(config.deep_view().apps, name@);
                0 <= i < config.apps@.len() && *app == config.apps@[i]
            },
            Err(error) => {
                &&& !is_named(config.deep_view().apps, name@)
                &&& error.deep_view() == (ErrorView::UnknownTarget { name: name@ })
            },
        },
        r is Ok <==> is_named(config.deep_view().apps, name@),
{
    let ghost apps = config.deep_view().apps;
    proof {
        lemma_first_named_bounds(apps, name@);
        lemma_named(apps, name@);
    }
    for i in 0..config.apps.len()
        invariant
            apps == config.apps.deep_view(),
            0 <= first_named(apps, name@) <= apps.len(),
            first_named(apps, name@) < apps.len() ==> apps[first_named(apps, name@)].name == name@,
            forall|k: int|
                0 <= k < first_named(apps, name@) ==> (#[trigger] apps[k]).name != name@,
            is_named(apps, name@) <==> first_named(apps, name@) < apps.len(),
            forall|k: int| 0 <= k < i ==> (#[trigger] apps[k]).name != name@,
            apps == config.deep_view().apps,
    {
        assert(apps[i as int] == config.apps@[i as int].deep_view());
        if same(&config.apps[i].name, name) {
            assert(first_named(apps, name@) == i);
            return Ok(&config.apps[i]);
        }
    }
    Err(Error::UnknownTarget { name: name.to_owned() })
}

/// An app has a name and something to start.
pub open spec fn app_check(app: AppView) -> Result<(), ErrorView> {
    if app.name.len() == 0 {
        Err(ErrorView::AppWithoutName)
    } else if app.kind == AppKind::Native && app.command.len() == 0 {
        Err(ErrorView::AppWithoutCommand { app: app.name })
    } else if app.kind == AppKind::Web && app.url.len() == 0 {
        Err(ErrorView::WebAppWithoutUrl { app: app.name })
    } else {
        Ok(())
    }
}

pub open spec fn target_check(apps: Seq<AppView>, name: Seq<char>) -> Result<(), ErrorView> {
    if is_named(apps, name) {
        Ok(())
    } else {
        Err(ErrorView::UnknownTarget { name })
    }
}

pub open spec fn app_step() -> spec_fn((), AppView) -> Result<(), ErrorView> {
    |_done: (), app: AppView| app_check(app)
}

pub open spec fn entry_step(apps: Seq<AppView>) -> spec_fn((), TextEntryView) -> Result<
    (),
    ErrorView,
> {
    |_done: (), entry: TextEntryView| target_check(apps, entry.target)
}

pub open spec fn event_step(apps: Seq<AppView>) -> spec_fn((), TimedEventView) -> Result<
    (),
    ErrorView,
> {
    |_done: (), event: TimedEventView| target_check(apps, event.target)
}

/// The first thing that is wrong with a config: with its apps, with the targets of its text
/// entries, with the targets of its timers.
pub open spec fn config_check(config: ConfigView) -> Result<(), ErrorView> {
    match fold((), config.apps, app_step()) {
        Err(error) => Err(error),
        Ok(_) => match fold((), config.text_entries, entry_step(config.apps)) {
            Err(error) => Err(error),
            Ok(_) => fold((), config.refreshes, event_step(config.apps)),
        },
    }
}

pub fn validate_app(app: &App) -> (r: Result<(), Error>)
    ensures
        outcome(r) == app_check(app.deep_view()),
{
    if app.name.as_str().is_empty() {
        return Err(Error::AppWithoutName);
    }
    match app.kind {
        AppKind::Native => {
            if app.command.as_str().is_empty() {
                return Err(Error::AppWithoutCommand { app: app.name.clone() });
            }
        },
        AppKind::Web => {
            if app.url.as_str().is_empty() {
                return Err(Error::WebAppWithoutUrl { app: app.name.clone() });
            }
        },
    }
    Ok(())
}

pub fn validate_config(config: &Config) -> (r: Result<(), Error>)
    ensures
        outcome(r) == config_check(config.deep_view()),
{
    let ghost view = config.deep_view();
    let ghost apps = view.apps;
    for i in 0..config.apps.len()
        invariant
            view == config.deep_view(),
            apps == view.apps,
            fold((), apps.take(i as int), app_step()) is Ok,
    {
        proof {
            assert(apps[i as int] == config.apps@[i as int].deep_view());
            lemma_fold_step((), apps, i as int, app_step());
        }
        match validate_app(&config.apps[i]) {
            Ok(_) => {},
            Err(error) => {
                proof {
                    lemma_fold_error((), apps, i + 1, app_step());
                }
                return Err(error);
            },
        }
    }
    proof {
        lemma_fold_all((), apps, app_step());
    }
    for i in 0..config.text_entries.len()
        invariant
            view == config.deep_view(),
            apps == view.apps,
            fold((), apps, app_step()) is Ok,
            fold((), view.text_entries.take(i as int), entry_step(apps)) is Ok,
    {
        proof {
            assert(view.text_entries[i as int] == config.text_entries@[i as int].deep_view());
            lemma_fold_step((), view.text_entries, i as int, entry_step(apps));
        }
        match find_app(config, &config.text_entries[i].target) {
            Ok(_) => {},
            Err(error) => {
                proof {
                    lemma_fold_error((), view.text_entries, i + 1, entry_step(apps));
                }
                return Err(error);
            },
        }
    }
    proof {
        lemma_fold_all((), view.text_entries, entry_step(apps));
    }
    for i in 0..config.refreshes.len()
        invariant
            view == config.deep_view(),
            apps == view.apps,
            fold((), apps, app_step()) is Ok,
            fold((), view.text_entries, entry_step(apps)) is Ok,
            fold((), view.refreshes.take(i as int), event_step(apps)) is Ok,
    {
        proof {
            assert(view.refreshes[i as int] == config.refreshes@[i as int].deep_view());
            lemma_fold_step((), view.refreshes, i as int, event_step(apps));
        }
        match find_app(config, &config.refreshes[i].target) {
            Ok(_) => {},
            Err(error) => {
                proof {
                    lemma_fold_error((), view.refreshes, i + 1, event_step(apps));
                }
                return Err(error);
            },
        }
    }
    proof {
        lemma_fold_all((), view.refreshes, event_step(apps));
    }
    Ok(())
}

/// Every app can be started, and every text entry and every timer is for an app that there is.
pub open spec fn is_valid(config: ConfigView) -> bool {
    &&& forall|i: int| 0 <= i < config.apps.len() ==> app_check(#[trigger] config.apps[i]) is Ok
    &&& forall|i: int|
        0 <= i < config.text_entries.len() ==> is_named(
            config.apps,
            (#[trigger] config.text_entries[i]).target,
        )
    &&& forall|i: int|
        0 <= i < config.refreshes.len() ==> is_named(
            config.apps,
            (#[trigger] config.refreshes[i]).target,
        )
}

proof fn lemma_fold_checks<A>(items: Seq<A>, step: spec_fn((), A) -> Result<(), ErrorView>)
    ensures
        fold((), items, step) is Ok <==> forall|i: int|
            0 <= i < items.len() ==> step((), #[trigger] items[i]) is Ok,
    decreases items.len(),
{
    if items.len() > 0 {
        let rest = items.drop_last();
        lemma_fold_checks(rest, step);
        if fold((), items, step) is Ok {
            assert forall|i: int| 0 <= i < items.len() implies step((), #[trigger] items[i]) is Ok by {
                if i < rest.len() {
                    assert(rest[i] == items[i]);
                }
            }
        } else if fold((), rest, step) is Err {
            let i = choose|i: int| 0 <= i < rest.len() && step((), #[trigger] rest[i]) is Err;
            assert(items[i] == rest[i]);
        } else {
            assert(items[items.len() - 1] == items.last());
        }
    }
}

/// Checking ends at the first item that is refused.
pub proof fn lemma_first_refusal<A>(items: Seq<A>, i: int, step: spec_fn((), A) -> Result<(), ErrorView>)
    ensures
        0 <= i <= items.len() && (forall|k: int|
            0 <= k < i ==> step((), #[trigger] items[k]) is Ok) ==> fold((), items.take(i), step)
            is Ok && (i == items.len() ==> fold((), items, step) is Ok) && (i < items.len() && step(
            (),
            items[i],
        ) is Err ==> fold((), items, step) == Err::<(), ErrorView>(step((), items[i])->Err_0)),
    decreases i,
{
    if 0 <= i <= items.len() && (forall|k: int|
        0 <= k < i ==> step((), #[trigger] items[k]) is Ok) {
        if i > 0 {
            lemma_first_refusal(items, i - 1, step);
            lemma_fold_step((), items, i - 1, step);
        }
        if i < items.len() {
            lemma_fold_step((), items, i, step);
            if step((), items[i]) is Err {
                lemma_fold_error((), items, i + 1, step);
            }
        } else {
            lemma_fold_all((), items, step);
        }
    }
}

/// An app is refused for the first thing that it lacks: its name, then what is to be started.
pub proof fn law_what_an_app_needs(app: AppView)
    ensures
        app_check(app) is Ok <==> app.name.len() > 0 && match app.kind {
            AppKind::Native => app.command.len() > 0,
            AppKind::Web => app.url.len() > 0,
        },
        app_check(app) matches Err(error) ==> error == if app.name.len() == 0 {
            ErrorView::AppWithoutName
        } else {
            match app.kind {
                AppKind::Native => ErrorView::AppWithoutCommand { app: app.name },
                AppKind::Web => ErrorView::WebAppWithoutUrl { app: app.name },
            }
        },
{
}

/// Of the apps of one name the first is found, and one is found if there is any.
pub proof fn law_first_app_is_found(apps: Seq<AppView>, name: Seq<char>, i: int)
    requires
        0 <= i < apps.len(),
        apps[i].name == name,
        forall|k: int| 0 <= k < i ==> (#[trigger] apps[k]).name != name,
    ensures
        first_named(apps, name) == i,
        is_named(apps, name),
{
    lemma_first_named_bounds(apps, name);
}

/// Validation passes exactly the configs of which everything that it looks for holds.
pub proof fn law_validation_is_complete(config: ConfigView)
    ensures
        config_check(config) is Ok <==> is_valid(config),
{
    lemma_fold_checks(config.apps, app_step());
    lemma_fold_checks(config.text_entries, entry_step(config.apps));
    lemma_fold_checks(config.refreshes, event_step(config.apps));
    if is_valid(config) {
        assert forall|i: int| 0 <= i < config.apps.len() implies app_step()(
            (),
            #[trigger] config.apps[i],
        ) is Ok by {}
        assert forall|i: int| 0 <= i < config.text_entries.len() implies entry_step(config.apps)(
            (),
            #[trigger] config.text_entries[i],
        ) is Ok by {}
        assert forall|i: int| 0 <= i < config.refreshes.len() implies event_step(config.apps)(
            (),
            #[trigger] config.refreshes[i],
        ) is Ok by {}
    } else if config_check(config) is Ok {
        assert forall|i: int| 0 <= i < config.apps.len() implies app_check(
            #[trigger] config.apps[i],
        ) is Ok by {
            assert(app_step()((), config.apps[i]) is Ok);
        }
        assert forall|i: int| 0 <= i < config.text_entries.len() implies is_named(
            config.apps,
            (#[trigger] config.text_entries[i]).target,
        ) by {
            assert(entry_step(config.apps)((), config.text_entries[i]) is Ok);
        }
        assert forall|i: int| 0 <= i < config.refreshes.len() implies is_named(
            config.apps,
            (#[trigger] config.refreshes[i]).target,
        ) by {
            assert(event_step(config.apps)((), config.refreshes[i]) is Ok);
        }
    }
}

} // verus!
