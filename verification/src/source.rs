//! The choice between real data and placeholder data, which can change while the program runs.

use crate::config::MonitorConfig;
use crate::state::{AppModel, AppState};
use crate::state;
use vstd::prelude::*;

verus! {

/// Which source of data is running.
pub struct SourceSwitch {
    pub mock: bool,
}

/// What the program knows once the source changed: nothing that the pages show, and the pages are
/// told.
pub open spec fn app_switched(app: AppModel) -> AppModel {
    AppModel {
        my: state::blank_card(),
        match_state: None,
        avatar: None,
        cfg_epoch: app.cfg_epoch.wrapping_add(1),
        ..app
    }
}

impl SourceSwitch {
    /// The source that a configuration asks for.
    pub fn new(cfg: &MonitorConfig) -> (r: SourceSwitch)
        ensures
            r.mock == cfg@.mock,
    {
        SourceSwitch { mock: cfg.mock }
    }

    /// Takes in a configuration. Where it asks for the other source, what the pages show is
    /// forgotten, and true is given to start that source.
    pub fn on_config(&mut self, cfg: &MonitorConfig, app: &mut AppState) -> (r: bool)
        ensures
            r == (cfg@.mock != old(self).mock),
            final(self).mock == cfg@.mock,
            final(app)@ == (if r {
                app_switched(old(app)@)
            } else {
                old(app)@
            }),
            old(app).wf() ==> final(app).wf(),
    {
        if cfg.mock == self.mock {
            return false;
        }
        self.mock = cfg.mock;
        app.reset_data();
        app.bump_cfg_epoch();
        true
    }
}

/// A change of the source leaves an empty card, no match and no avatar, tells the pages, and keeps
/// what the plugins found.
pub proof fn law_switch_forgets_what_is_shown(app: AppModel)
    requires
        app.cfg_epoch < u64::MAX,
    ensures
        app_switched(app).match_state is None,
        app_switched(app).avatar is None,
        app_switched(app).my.nickname.len() == 0,
        app_switched(app).my.steam_id.len() == 0,
        app_switched(app).my.rank_label.len() == 0,
        app_switched(app).my.rank_score is None,
        app_switched(app).my.ws_status.len() == 0,
        app_switched(app).my.last_error.len() == 0,
        app_switched(app).my.stats is None,
        app_switched(app).my.avatar is None,
        app_switched(app).cfg_epoch == app.cfg_epoch + 1,
        app_switched(app).plugins == app.plugins,
        app_switched(app).datalog == app.datalog,
        app_switched(app).board_showing == app.board_showing,
        app_switched(app).updated_at == app.updated_at,
{
}

} // verus!
