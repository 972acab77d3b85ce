//! The decisions behind the `org.freedesktop.ScreenSaver` bus interface: what
//! each call answers, which command it sends to the daemon and whether the
//! daemon's published status must be refreshed. The bus plumbing that receives
//! the calls and delivers the commands is outside the library.
use vstd::prelude::*;
use crate::inhibit::{InhibitError, InhibitorState};

verus! {

/// A command for the daemon's presentation loop.
pub enum DaemonCommand {
    /// Stop showing the screensaver.
    StopPresentation,
    /// Show the named saver now.
    Preview(String),
}

/// What a call asks of the daemon besides its answer.
pub struct ServiceEffects {
    /// The command to send, if any.
    pub command: Option<DaemonCommand>,
    /// The daemon's published status must be refreshed.
    pub mark_dirty: bool,
}

/// Why a call failed.
#[derive(Debug, Clone, Copy, PartialEq, Eq)]
pub enum ScreenSaverError {
    /// The request carried no bus sender.
    MissingSender,
    /// The sender holds no inhibitor with this cookie.
    UnknownCookie(u32),
    /// The inhibitor could not be granted.
    Refused(InhibitError),
}

/// The saver previewed when activation is requested and none is configured.
pub open spec fn default_saver() -> Seq<char> {
    seq!['b', 'e', 'a', 'm', 's']
}

/// The effects are: send "stop the presentation", and refresh the status iff `dirty`.
pub open spec fn stops(e: ServiceEffects, dirty: bool) -> bool {
    &&& e.command matches Some(DaemonCommand::StopPresentation)
    &&& e.mark_dirty == dirty
}

/// The state the screensaver interface answers from.
pub struct ScreenSaverService {
    /// The inhibitors granted to bus clients.
    pub inhibitors: InhibitorState,
    /// The screensaver is being shown.
    pub presentation_active: bool,
    /// The saver configured as active, if any.
    pub active_saver: Option<String>,
}

impl ScreenSaverService {
    /// A service with no inhibitor, not presenting, using `active_saver`.
    pub fn new(active_saver: Option<String>) -> (s: Self)
        ensures
            s.inhibitors.wf(),
            s.inhibitors.model().entries.len() == 0,
            s.inhibitors.model().next_cookie == 1,
            !s.presentation_active,
            s.active_saver == active_saver,
    {
        ScreenSaverService { inhibitors: InhibitorState::new(), presentation_active: false, active_saver }
    }

    /// `Inhibit`: grants the sender an inhibitor and returns its cookie; the
    /// presentation is stopped and the status refreshed. Fails when the request
    /// has no sender (nothing changes) or the grant is refused.
    pub fn inhibit(&mut self, application_name: &str, reason_for_inhibit: &str, sender: Option<String>) -> (r: Result<
        (u32, ServiceEffects),
        ScreenSaverError,
    >)
        requires
            old(self).inhibitors.wf(),
        ensures
            final(self).inhibitors.wf(),
            final(self).presentation_active == old(self).presentation_active,
            final(self).active_saver == old(self).active_saver,
            match sender {
                None => r == Err::<(u32, ServiceEffects), ScreenSaverError>(ScreenSaverError::MissingSender)
                    && final(self).inhibitors.model() == old(self).inhibitors.model(),
                Some(client) => {
                    let (m, g) = old(self).inhibitors.model().add(application_name@, reason_for_inhibit@, client@);
                    &&& final(self).inhibitors.model() == m
                    &&& match g {
                        Ok(cookie) => r matches Ok((c, e)) && c == cookie && stops(e, true),
                        Err(why) => r == Err::<(u32, ServiceEffects), ScreenSaverError>(ScreenSaverError::Refused(why)),
                    }
                },
            },
    {
        match sender {
            None => Err(ScreenSaverError::MissingSender),
            Some(client) => {
                match self.inhibitors.add(application_name.to_owned(), reason_for_inhibit.to_owned(), client) {
                    Ok(cookie) => Ok(
                        (cookie, ServiceEffects { command: Some(DaemonCommand::StopPresentation), mark_dirty: true }),
                    ),
                    Err(why) => Err(ScreenSaverError::Refused(why)),
                }
            },
        }
    }

    /// `UnInhibit`: releases the sender's inhibitor `cookie` and refreshes the
    /// status. Fails when the request has no sender, or with `UnknownCookie`
    /// when the sender holds no inhibitor with that cookie; nothing changes then.
    pub fn un_inhibit(&mut self, cookie: u32, sender: Option<String>) -> (r: Result<ServiceEffects, ScreenSaverError>)
        requires
            old(self).inhibitors.wf(),
        ensures
            final(self).inhibitors.wf(),
            final(self).presentation_active == old(self).presentation_active,
            final(self).active_saver == old(self).active_saver,
            match sender {
                None => r == Err::<ServiceEffects, ScreenSaverError>(ScreenSaverError::MissingSender)
                    && final(self).inhibitors.model() == old(self).inhibitors.model(),
                Some(client) => {
                    let (m, released) = old(self).inhibitors.model().remove_for_client(cookie, client@);
                    &&& final(self).inhibitors.model() == m
                    &&& if released {
                        r matches Ok(e) && e.command is None && e.mark_dirty
                    } else {
                        r == Err::<ServiceEffects, ScreenSaverError>(ScreenSaverError::UnknownCookie(cookie))
                    }
                },
            },
    {
        match sender {
            None => Err(ScreenSaverError::MissingSender),
            Some(client) => {
                if !self.inhibitors.remove_for_client(cookie, &client) {
                    return Err(ScreenSaverError::UnknownCookie(cookie));
                }
                Ok(ServiceEffects { command: None, mark_dirty: true })
            },
        }
    }

    /// `SimulateUserActivity`: stops the presentation.
    pub fn simulate_user_activity(&self) -> (e: ServiceEffects)
        ensures
            stops(e, false),
    {
        ServiceEffects { command: Some(DaemonCommand::StopPresentation), mark_dirty: false }
    }

    /// `GetActive`: whether the screensaver is being shown.
    pub fn get_active(&self) -> (active: bool)
        ensures
            active == self.presentation_active,
    {
        self.presentation_active
    }

    /// `SetActive`: activating previews the configured saver (`beams` when none
    /// is configured); deactivating stops the presentation. The status is refreshed.
    pub fn set_active(&self, active: bool) -> (e: ServiceEffects)
        ensures
            e.mark_dirty,
            active ==> (e.command matches Some(DaemonCommand::Preview(saver)) && saver@ == match self.active_saver {
                Some(s) => s@,
                None => default_saver(),
            }),
            !active ==> e.command matches Some(DaemonCommand::StopPresentation),
    {
        if active {
            let saver = match &self.active_saver {
                Some(s) => s.clone(),
                None => {
                    let d = "beams";
                    proof {
                        reveal_strlit("beams");
                    }
                    assert(d@ =~= default_saver());
                    d.to_owned()
                },
            };
            ServiceEffects { command: Some(DaemonCommand::Preview(saver)), mark_dirty: true }
        } else {
            ServiceEffects { command: Some(DaemonCommand::StopPresentation), mark_dirty: true }
        }
    }

    /// `Lock`: stops the presentation.
    pub fn lock(&self) -> (e: ServiceEffects)
        ensures
            stops(e, false),
    {
        ServiceEffects { command: Some(DaemonCommand::StopPresentation), mark_dirty: false }
    }
}

} // verus!
