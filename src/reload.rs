//! How each application is asked to reload: the decision, from its
//! configured method, of what to run. Running it is left to the caller.

use vstd::prelude::*;
use crate::config::{AppMetadata, opt_view};
use crate::errors::VogixError;
use crate::text::{owned, push_text, same_text};

verus! {

/// What to run to make an application reload.
#[derive(Debug)]
pub enum ReloadAction {
    /// Send `signal` to the processes named `process`.
    Signal { process: String, signal: String },
    /// Run a shell command.
    Command(String),
    /// Nothing: the change takes effect on next use.
    Nothing,
}

/// An action with the message that reports it once it has succeeded.
#[derive(Debug)]
pub struct ReloadStep {
    pub action: ReloadAction,
    pub message: String,
}

/// Plain view of an action.
pub enum Action {
    Signal(Seq<char>, Seq<char>),
    Command(Seq<char>),
    Nothing,
}

impl View for ReloadAction {
    type V = Action;

    open spec fn view(&self) -> Action {
        match self {
            ReloadAction::Signal { process, signal } => Action::Signal(process@, signal@),
            ReloadAction::Command(c) => Action::Command(c@),
            ReloadAction::Nothing => Action::Nothing,
        }
    }
}

/// The action for an application, or `None` where its method is unknown or
/// lacks the field it needs.
pub open spec fn reload_action(app_name: Seq<char>, m: AppMetadata) -> Option<Action> {
    if m.reload_method@ == "signal"@ {
        match opt_view(m.reload_signal) {
            Some(s) => Some(Action::Signal(
                match opt_view(m.process_name) {
                    Some(p) => p,
                    None => app_name,
                },
                s,
            )),
            None => None,
        }
    } else if m.reload_method@ == "command"@ {
        match opt_view(m.reload_command) {
            Some(c) => Some(Action::Command(c)),
            None => None,
        }
    } else if m.reload_method@ == "touch"@ {
        Some(Action::Command("touch -h "@ + m.config_path@))
    } else if m.reload_method@ == "none"@ {
        Some(Action::Nothing)
    } else {
        None
    }
}

/// The message that reports a successful action.
pub open spec fn reload_message(m: AppMetadata) -> Seq<char> {
    if m.reload_method@ == "signal"@ {
        "sent "@ + opt_view(m.reload_signal)->Some_0 + " signal"@
    } else if m.reload_method@ == "command"@ {
        "executed reload command"@
    } else if m.reload_method@ == "touch"@ {
        "touched to trigger auto-reload"@
    } else {
        "no reload needed (changes take effect on next use)"@
    }
}

/// Decides how applications are reloaded.
pub struct ReloadDispatcher;

impl ReloadDispatcher {
    pub fn new() -> (r: ReloadDispatcher) {
        ReloadDispatcher
    }

    /// What to run to reload one application, with its success message;
    /// fails with a reload error for an unknown method or a missing field.
    pub fn reload_app(&self, app_name: &str, metadata: &AppMetadata) -> (r: Result<ReloadStep, VogixError>)
        ensures
            match reload_action(app_name@, *metadata) {
                Some(a) => r matches Ok(step) && step.action@ == a && step.message@ == reload_message(*metadata),
                None => r matches Err(VogixError::Reload { .. }),
            },
    {
        let method = metadata.reload_method.as_str();
        if same_text(method, "signal") {
            match &metadata.reload_signal {
                Some(signal) => {
                    let process = match &metadata.process_name {
                        Some(p) => owned(p.as_str()),
                        None => owned(app_name),
                    };
                    let mut message = owned("sent ");
                    push_text(&mut message, signal.as_str());
                    push_text(&mut message, " signal");
                    Ok(ReloadStep { action: ReloadAction::Signal { process, signal: owned(signal.as_str()) }, message })
                },
                None => Err(VogixError::reload(owned("Signal reload method requires reload_signal"))),
            }
        } else if same_text(method, "command") {
            match &metadata.reload_command {
                Some(c) => Ok(ReloadStep { action: ReloadAction::Command(owned(c.as_str())), message: owned("executed reload command") }),
                None => Err(VogixError::reload(owned("Command reload method requires reload_command"))),
            }
        } else if same_text(method, "touch") {
            let mut cmd = owned("touch -h ");
            push_text(&mut cmd, metadata.config_path.as_str());
            Ok(ReloadStep { action: ReloadAction::Command(cmd), message: owned("touched to trigger auto-reload") })
        } else if same_text(method, "none") {
            Ok(ReloadStep { action: ReloadAction::Nothing, message: owned("no reload needed (changes take effect on next use)") })
        } else {
            let mut message = owned("Unknown reload method: ");
            push_text(&mut message, method);
            Err(VogixError::reload(message))
        }
    }
}

/// Positions of the applications that are asked to reload: every one whose
/// method is not `none`, in order.
pub open spec fn reload_positions(apps: Seq<(String, AppMetadata)>) -> Seq<int>
    decreases apps.len(),
{
    if apps.len() == 0 {
        Seq::empty()
    } else {
        let s = reload_positions(apps.drop_last());
        if apps.last().1.reload_method@ == "none"@ {
            s
        } else {
            s.push(apps.len() - 1)
        }
    }
}

impl ReloadDispatcher {
    /// The positions of the applications to reload; the rest need nothing.
    pub fn apps_to_reload(&self, apps: &Vec<(String, AppMetadata)>) -> (r: Vec<usize>)
        ensures
            r@.len() == reload_positions(apps@).len(),
            forall|i: int| 0 <= i < r@.len() ==> r@[i] as int == #[trigger] reload_positions(apps@)[i],
    {
        let mut r: Vec<usize> = Vec::new();
        let mut i: usize = 0;
        assert(apps@.subrange(0, 0) =~= Seq::<(String, AppMetadata)>::empty());
        while i < apps.len()
            invariant
                i <= apps@.len(),
                r@.len() == reload_positions(apps@.subrange(0, i as int)).len(),
                forall|j: int| 0 <= j < r@.len() ==> r@[j] as int == #[trigger] reload_positions(apps@.subrange(0, i as int))[j],
            decreases apps.len() - i,
        {
            let ghost before = reload_positions(apps@.subrange(0, i as int));
            assert(apps@.subrange(0, i + 1).drop_last() =~= apps@.subrange(0, i as int));
            if !same_text(apps[i].1.reload_method.as_str(), "none") {
                r.push(i);
            }
            i = i + 1;
            assert forall|j: int| 0 <= j < r@.len() implies r@[j] as int == #[trigger] reload_positions(apps@.subrange(0, i as int))[j] by {
                if j < before.len() {
                }
            }
        }
        assert(apps@.subrange(0, apps@.len() as int) =~= apps@);
        r
    }
}

impl Default for ReloadDispatcher {
    fn default() -> (r: ReloadDispatcher) {
        ReloadDispatcher::new()
    }
}

} // verus!
