//! The apps of a config on a workspace where they can be looked at.
use crate::config::{no_config, App, AppView, Config, ConfigView};
use crate::error::ErrorView;
use crate::script::{generate_script, launch_part, script_of};
use crate::text::unlines;
use vstd::prelude::*;

verus! {

pub const PREVIEW_WORKSPACE: &'static str = "i3-controller-preview";

pub open spec fn preview_app() -> spec_fn(AppView) -> AppView {
    |app: AppView| AppView { workspace: PREVIEW_WORKSPACE@, ..app }
}

/// The apps alone, all of them on the workspace for previews.
pub open spec fn previewed(config: ConfigView) -> ConfigView {
    ConfigView { apps: config.apps.map_values(preview_app()), ..no_config() }
}

fn move_to_preview(app: &App) -> (copy: App)
    ensures
        copy.deep_view() == preview_app()(app.deep_view()),
{
    App {
        name: app.name.clone(),
        kind: app.kind,
        command: app.command.clone(),
        args: app.args.clone(),
        url: app.url.clone(),
        browser: app.browser.clone(),
        browser_args: app.browser_args.clone(),
        profile: app.profile.clone(),
        workspace: PREVIEW_WORKSPACE.to_owned(),
        match_criteria: app.match_criteria.clone(),
        layout: app.layout.clone(),
        startup_delay: app.startup_delay,
    }
}

pub fn preview_config(config: &Config) -> (preview: Config)
    ensures
        preview.deep_view() == previewed(config.deep_view()),
{
    let ghost all = config.deep_view().apps;
    let mut apps: Vec<App> = Vec::new();
    for i in 0..config.apps.len()
        invariant
            all == config.apps.deep_view(),
            apps.deep_view() == all.take(i as int).map_values(preview_app()),
    {
        let ghost before = apps.deep_view();
        let copy = move_to_preview(&config.apps[i]);
        assert(all[i as int] == config.apps@[i as int].deep_view());
        apps.push(copy);
        proof {
            assert(apps.deep_view() == before.push(copy.deep_view()));
            assert(all.take(i + 1) == all.take(i as int).push(all[i as int]));
        }
    }
    assert(all.take(all.len() as int) == all);
    Config {
        apps,
        kills: Vec::new(),
        text_entries: Vec::new(),
        refreshes: Vec::new(),
        rerun: None,
    }
}

/// A preview has the apps of the config, in their order and as they are, but for the workspace,
/// which is the one for previews; it has nothing else.
pub proof fn law_preview_moves_apps_only(config: ConfigView, i: int)
    ensures
        previewed(config).apps.len() == config.apps.len(),
        0 <= i < config.apps.len() ==> ({
            let app = config.apps[i];
            let copy = previewed(config).apps[i];
            &&& copy.workspace == "i3-controller-preview"@
            &&& copy.name == app.name && copy.kind == app.kind
            &&& copy.command == app.command && copy.args == app.args
            &&& copy.url == app.url && copy.browser == app.browser
            &&& copy.browser_args == app.browser_args && copy.profile == app.profile
            &&& copy.match_criteria == app.match_criteria && copy.layout == app.layout
            &&& copy.startup_delay == app.startup_delay
        }),
        previewed(config).kills.len() == 0,
        previewed(config).text_entries.len() == 0,
        previewed(config).refreshes.len() == 0,
        previewed(config).rerun is None,
{
}

/// A preview can always be generated: it is launches and arrangements alone.
pub proof fn law_preview_is_generated(config: ConfigView)
    ensures
        script_of(previewed(config)) == Ok::<Seq<char>, ErrorView>(
            launch_part(previewed(config)),
        ),
{
    let preview = previewed(config);
    assert(unlines(Seq::<Seq<char>>::empty()) == Seq::<char>::empty());
    assert(launch_part(preview) + Seq::<char>::empty() == launch_part(preview));
}

/// The script that shows the apps of a config on the workspace for previews.
pub fn preview_script(config: &Config) -> (script: String)
    ensures
        script@ == launch_part(previewed(config.deep_view())),
{
    proof {
        law_preview_is_generated(config.deep_view());
    }
    generate_script(&preview_config(config)).unwrap()
}

} // verus!
